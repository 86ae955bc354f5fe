//! Settings of a device that runs as an agent.

use vstd::prelude::*;
use vstd::string::StringExecFns;
use serde_json::Value;
use crate::json_handler::{
    distinct_keys,
    has_only,
    lemma_member_of,
    object_value,
    text_at,
    text_value,
    FieldError,
    ToClientConfig,
};

verus! {

/// Port that a server listens on, as it is appended to an address that
/// names none.
pub open spec fn default_port() -> Seq<char> {
    ":51347"@
}

/// Settings of a device that runs as an agent.
#[derive(Clone, Debug)]
pub struct Client {
    /// Identifier that the server issued
    pub device_id: String,
    /// Display name of the device
    pub device_name: String,
    /// Address of the server, with its port
    pub server_addr: String,
}

impl Client {
    /// Builds the settings from their three fields.
    pub fn new(device_id: String, device_name: String, server_addr: String) -> (client: Client)
        ensures
            client.device_id == device_id,
            client.device_name == device_name,
            client.server_addr == server_addr,
    {
        Client { device_id, device_name, server_addr }
    }

    /// The settings as the JSON document that is kept on disk: an object
    /// with the texts `deviceID`, `deviceName` and `serverAddr`. Reading
    /// the document gives the settings back.
    pub fn to_json(&self) -> (json: Value)
        ensures
            text_at(json, "deviceID"@) == Ok::<Seq<char>, FieldError>(self.device_id@),
            text_at(json, "deviceName"@) == Ok::<Seq<char>, FieldError>(self.device_name@),
            text_at(json, "serverAddr"@) == Ok::<Seq<char>, FieldError>(self.server_addr@),
            json.client_fields() == (self.device_id@, self.device_name@, self.server_addr@),
            has_only(json, set!["deviceID"@, "deviceName"@, "serverAddr"@]),
    {
        let mut members: Vec<(String, Value)> = Vec::new();
        members.push((String::from_str("deviceID"), text_value(self.device_id.as_str())));
        members.push((String::from_str("deviceName"), text_value(self.device_name.as_str())));
        members.push((String::from_str("serverAddr"), text_value(self.server_addr.as_str())));
        proof {
            reveal_strlit("deviceID");
            reveal_strlit("deviceName");
            reveal_strlit("serverAddr");
            assert(members@[0].0@ == "deviceID"@ && "deviceID"@.len() == 8);
            assert(members@[1].0@ == "deviceName"@ && "deviceName"@[0] == 'd');
            assert(members@[2].0@ == "serverAddr"@ && "serverAddr"@[0] == 's');
            assert("deviceName"@.len() == 10 && "serverAddr"@.len() == 10);
            assert(distinct_keys(members@));
            lemma_member_of(members@, 0);
            lemma_member_of(members@, 1);
            lemma_member_of(members@, 2);
        }
        object_value(members)
    }

    /// The three fields, one on each line, each after its label.
    pub open spec fn summary(self) -> Seq<char> {
        "Device ID: "@ + self.device_id@ + "\nDevice Name: "@ + self.device_name@
            + "\nServer Address: "@ + self.server_addr@
    }

    /// The settings as text for a person to read.
    pub fn to_string(&self) -> (text: String)
        ensures
            text@ == self.summary(),
    {
        let text = String::from_str("Device ID: ");
        let text = text.concat(self.device_id.as_str());
        let text = text.concat("\nDevice Name: ");
        let text = text.concat(self.device_name.as_str());
        let text = text.concat("\nServer Address: ");
        text.concat(self.server_addr.as_str())
    }
}

/// Whether `wanted` occurs in `text`.
fn has_char(text: &str, wanted: char) -> (found: bool)
    ensures
        found == text@.contains(wanted),
{
    let mut found = false;
    for character in characters: text.chars()
        invariant
            characters.seq() == text@,
            found == text@.take(characters.index() as int).contains(wanted),
    {
        proof {
            let seen = text@.take(characters.index() as int);
            let next = text@.take(characters.index() + 1);
            assert(next =~= seen.push(character));
            assert(next.last() == character);
            if seen.contains(wanted) {
                let at = choose|at: int| 0 <= at < seen.len() && seen[at] == wanted;
                assert(next[at] == wanted);
            }
        }
        if character == wanted {
            found = true;
        }
    }
    assert(text@.take(text@.len() as int) =~= text@);
    found
}

/// The address to store for what a person typed: `input` itself where it
/// names a port, and `input` with the default port where it names none.
pub fn server_address(input: &str) -> (address: String)
    ensures
        address@ == if input@.contains(':') {
            input@
        } else {
            input@ + default_port()
        },
{
    let typed = String::from_str(input);
    if has_char(input, ':') {
        typed
    } else {
        typed.concat(":51347")
    }
}

} // verus!
