//! Reading JSON: the payloads of requests and the persisted configuration.

use vstd::prelude::*;
use vstd::string::StringExecFns;
use vstd::utf8::{decode_utf8, encode_utf8, encode_utf8_decode_utf8};
use serde_json::Value;
use crate::config::client::Client;
use crate::config::server::ServerConfig;
use crate::stats_handling::device_info::Device;
use crate::stats_handling::fixed_point::{float_millionths, millionths};

verus! {

/// `serde_json::Value`: a JSON value, held without a look inside.
#[verifier::external_type_specification]
#[verifier::external_body]
pub struct ExValue(serde_json::Value);

/// `serde_json::Error`: why a text is no JSON, held without a look inside.
#[verifier::external_type_specification]
#[verifier::external_body]
pub struct ExJsonError(serde_json::Error);

/// The value that `serde_json::from_slice` reads from `text`, where the
/// whole of `text` is one JSON value.
pub uninterp spec fn json_parsed(text: Seq<u8>) -> Option<Value>;

/// The member that `Value::get` finds in `value` under `key`: `value` is
/// then an object that has such a member.
pub uninterp spec fn json_member(value: Value, key: Seq<char>) -> Option<Value>;

/// The text of `value` as `Value::as_str` gives it: `value` is then a
/// string.
pub uninterp spec fn json_text(value: Value) -> Option<Seq<char>>;

/// The number of `value` as `Value::as_i64` gives it: `value` is then a
/// whole number within the range of `i64`.
pub uninterp spec fn json_integer(value: Value) -> Option<i64>;

/// The truth value of `value` as `Value::as_bool` gives it: `value` is
/// then `true` or `false`.
pub uninterp spec fn json_truth(value: Value) -> Option<bool>;

/// The elements of `value` as `Value::as_array` gives them: `value` is
/// then an array.
pub uninterp spec fn json_elements(value: Value) -> Option<Seq<Value>>;

/// The bits of the binary64 number that `Value::as_f64` gives for `value`:
/// `value` is then a number.
pub uninterp spec fn json_number_bits(value: Value) -> Option<u64>;

/// The compact text in which `Value`'s `to_string` renders `value`, as its
/// UTF-8 bytes.
pub uninterp spec fn json_rendered(value: Value) -> Seq<u8>;

/// The members of `value` as `Value::as_object` gives them, each as its
/// key and its value, in the order in which the object holds them: `value`
/// is then an object.
pub uninterp spec fn json_members(value: Value) -> Option<Seq<(Seq<char>, Value)>>;

/// `serde_json::from_slice` for a `Value`: the value read is a function of
/// the bytes alone, and an error comes exactly where none is read.
#[verifier::external_body]
pub(crate) fn parse(text: &[u8]) -> (parsed: Result<Value, serde_json::Error>)
    ensures
        parsed is Ok <==> json_parsed(text@) is Some,
        parsed matches Ok(value) ==> json_parsed(text@) == Some(value),
{
    serde_json::from_slice(text)
}

/// `Value::get` with a string index: the member found depends on the value
/// and the key alone, and none is found exactly where the value has none.
#[verifier::external_body]
pub(crate) fn member<'a>(value: &'a Value, key: &str) -> (found: Option<&'a Value>)
    ensures
        found is Some <==> json_member(*value, key@) is Some,
        found matches Some(inner) ==> json_member(*value, key@) == Some(*inner),
{
    value.get(key)
}

/// `Value::as_str`, the text copied: the text depends on the value alone,
/// and there is none exactly where the value is no string.
#[verifier::external_body]
pub(crate) fn text_of(value: &Value) -> (text: Option<String>)
    ensures
        text is Some <==> json_text(*value) is Some,
        text matches Some(held) ==> json_text(*value) == Some(held@),
{
    value.as_str().map(|held| held.to_string())
}

/// `Value::as_i64`: the number depends on the value alone.
#[verifier::external_body]
pub(crate) fn integer_of(value: &Value) -> (number: Option<i64>)
    ensures
        number == json_integer(*value),
{
    value.as_i64()
}

/// `Value::as_bool`: the truth value depends on the value alone.
#[verifier::external_body]
pub(crate) fn truth_of(value: &Value) -> (truth: Option<bool>)
    ensures
        truth == json_truth(*value),
{
    value.as_bool()
}

/// `Value::as_array`: the elements depend on the value alone, and there
/// are none exactly where the value is no array.
#[verifier::external_body]
pub(crate) fn elements_of<'a>(value: &'a Value) -> (elements: Option<&'a Vec<Value>>)
    ensures
        elements is Some <==> json_elements(*value) is Some,
        elements matches Some(items) ==> json_elements(*value) == Some(items@),
{
    value.as_array()
}

/// `Value::as_f64`, the number handed on as its bits (`to_bits`): the bits
/// depend on the value alone, and there are none exactly where the value
/// is no number.
#[verifier::external_body]
pub(crate) fn number_bits_of(value: &Value) -> (bits: Option<u64>)
    ensures
        bits == json_number_bits(*value),
{
    value.as_f64().map(|number| number.to_bits())
}

/// `to_string` of a `Value`: the compact JSON text of the value, which
/// depends on the value alone.
#[verifier::external_body]
pub(crate) fn render_text(value: &Value) -> (text: String)
    ensures
        encode_utf8(text@) == json_rendered(*value),
{
    value.to_string()
}

/// `Value::as_object`, the members copied one by one in the order of the
/// object. The members depend on the value alone, no two of them have one
/// key, each is the member that `Value::get` finds under its key, and
/// there are none exactly where the value is no object.
#[verifier::external_body]
pub(crate) fn members_of(value: &Value) -> (members: Option<Vec<(String, Value)>>)
    ensures
        members is Some <==> json_members(*value) is Some,
        members matches Some(list) ==> json_members(*value) == Some(member_views(list@)),
        members matches Some(list) ==> distinct_keys(list@),
        members matches Some(list) ==> forall|key: Seq<char>| #[trigger]
            json_member(*value, key) == member_of(list@, key),
{
    value.as_object().map(
        |map| map.iter().map(|(key, inner)| (key.clone(), inner.clone())).collect(),
    )
}

/// Whether `value` is `null`, as `Value::is_null` tells.
pub uninterp spec fn json_is_null(value: Value) -> bool;

/// `Value::is_null`: whether the value is `null` depends on the value
/// alone, and `null` has no member under any key.
#[verifier::external_body]
pub(crate) fn is_null(value: &Value) -> (null: bool)
    ensures
        null == json_is_null(*value),
        null ==> forall|key: Seq<char>| #[trigger] json_member(*value, key) is None,
{
    value.is_null()
}

/// `Clone::clone` of a `Value`: a value that is the same.
#[verifier::external_body]
pub(crate) fn copy_of(value: &Value) -> (copy: Value)
    ensures
        copy == *value,
{
    value.clone()
}

/// `String::push`: the text with one character more at its end.
#[verifier::external_body]
fn push_char(text: &mut String, character: char)
    ensures
        final(text)@ == old(text)@.push(character),
{
    text.push(character)
}

/// `Value::String` of a copy of `text`: a value that is that string.
#[verifier::external_body]
pub(crate) fn text_value(text: &str) -> (value: Value)
    ensures
        json_text(value) == Some(text@),
{
    Value::String(text.to_string())
}

/// `Value::Bool`: a value that is that truth value.
#[verifier::external_body]
pub(crate) fn truth_value(truth: bool) -> (value: Value)
    ensures
        json_truth(value) == Some(truth),
{
    Value::Bool(truth)
}

/// `Value::Array`: a value that is the array of `items`.
#[verifier::external_body]
pub(crate) fn array_value(items: Vec<Value>) -> (value: Value)
    ensures
        json_elements(value) == Some(items@),
{
    Value::Array(items)
}

/// `Value::Object` of the map that `members` collect to: an object that
/// has each of `members` under its key, and no other member. Of two
/// members with one key the map would keep only one, so the keys are to be
/// distinct.
#[verifier::external_body]
pub(crate) fn object_value(members: Vec<(String, Value)>) -> (value: Value)
    requires
        distinct_keys(members@),
    ensures
        forall|key: Seq<char>| #[trigger] json_member(value, key) == member_of(members@, key),
        json_members(value) is Some,
{
    Value::Object(members.into_iter().collect())
}

/// Whether no two of `members` have one key.
pub open spec fn distinct_keys(members: Seq<(String, Value)>) -> bool {
    forall|i: int, j: int|
        0 <= i < members.len() && 0 <= j < members.len() && i != j ==> (#[trigger] members[i]).0@
            != (#[trigger] members[j]).0@
}

/// The value that stands under `key` in `members`, if one does.
pub open spec fn member_of(members: Seq<(String, Value)>, key: Seq<char>) -> Option<Value> {
    if exists|i: int| 0 <= i < members.len() && (#[trigger] members[i]).0@ == key {
        Some(
            members[choose|i: int| 0 <= i < members.len() && (#[trigger] members[i]).0@ == key].1,
        )
    } else {
        None
    }
}

/// Whether `json` has no member but those under `keys`.
pub open spec fn has_only(json: Value, keys: Set<Seq<char>>) -> bool {
    forall|key: Seq<char>| !keys.contains(key) ==> #[trigger] json_member(json, key) is None
}

/// Among distinct keys, each member is the one that stands under its key.
pub proof fn lemma_member_of(members: Seq<(String, Value)>, i: int)
    requires
        distinct_keys(members),
        0 <= i < members.len(),
    ensures
        member_of(members, members[i].0@) == Some(members[i].1),
{
    let key = members[i].0@;
    let chosen = choose|j: int| 0 <= j < members.len() && (#[trigger] members[j]).0@ == key;
    assert(chosen == i);
}

/// The array of the texts `texts`.
pub fn texts_value(texts: &Vec<String>) -> (value: Value)
    ensures
        json_elements(value) matches Some(items) && texts_of(items) == views(texts@),
{
    let mut items: Vec<Value> = Vec::new();
    let mut i: usize = 0;
    while i < texts.len()
        invariant
            i <= texts.len(),
            items.len() == i,
            forall|j: int| 0 <= j < i ==> json_text(#[trigger] items@[j]) == Some(texts@[j]@),
        decreases texts.len() - i,
    {
        items.push(text_value(texts[i].as_str()));
        i = i + 1;
    }
    assert(texts_of(items@) =~= views(texts@));
    array_value(items)
}

/// The members `members` as pairs of what the key reads and the value.
pub open spec fn member_views(members: Seq<(String, Value)>) -> Seq<(Seq<char>, Value)> {
    Seq::new(members.len(), |i: int| (members[i].0@, members[i].1))
}

/// The compact JSON text of `value` as bytes.
pub fn render(value: &Value) -> (text: Vec<u8>)
    ensures
        text@ == json_rendered(*value),
{
    let rendered = render_text(value);
    let mut text: Vec<u8> = Vec::new();
    text.extend_from_slice(rendered.as_str().as_bytes());
    text
}

/// Why a text could not be read from a document.
#[derive(Clone, Copy, Debug, PartialEq, Eq, Structural)]
pub enum FieldError {
    /// The document is no JSON
    NotJson,
    /// The document is no object, or has no member of that name
    Missing,
    /// The member is no string
    NotText,
}

/// The text that `json` holds under `key`, or why it holds none.
pub open spec fn text_at(json: Value, key: Seq<char>) -> Result<Seq<char>, FieldError> {
    match json_member(json, key) {
        None => Err(FieldError::Missing),
        Some(inner) => match json_text(inner) {
            None => Err(FieldError::NotText),
            Some(text) => Ok(text),
        },
    }
}

/// The text that the document `text` holds under `key`, or why it holds
/// none.
pub open spec fn text_in(text: Seq<u8>, key: Seq<char>) -> Result<Seq<char>, FieldError> {
    match json_parsed(text) {
        None => Err(FieldError::NotJson),
        Some(json) => text_at(json, key),
    }
}

/// Whether `read` is the outcome `model`, texts compared by what they read.
pub open spec fn reads(read: Result<String, FieldError>, model: Result<Seq<char>, FieldError>) -> bool {
    match model {
        Ok(text) => read matches Ok(held) && held@ == text,
        Err(error) => read == Err::<String, FieldError>(error),
    }
}

/// Reads a document.
pub fn read_json_as_value(text: &[u8]) -> (json: Option<Value>)
    ensures
        json == json_parsed(text@),
{
    match parse(text) {
        Ok(value) => Some(value),
        Err(_) => None,
    }
}

/// Reads the text that `json` holds under `key`.
pub fn read_json_from_buf(key: &str, json: &Value) -> (read: Result<String, FieldError>)
    ensures
        reads(read, text_at(*json, key@)),
{
    match member(json, key) {
        None => Err(FieldError::Missing),
        Some(inner) => match text_of(inner) {
            None => Err(FieldError::NotText),
            Some(text) => Ok(text),
        },
    }
}

/// Reads the text that the document `text` holds under `key`.
pub fn read_json(key: &str, text: &[u8]) -> (read: Result<String, FieldError>)
    ensures
        reads(read, text_in(text@, key@)),
{
    match parse(text) {
        Err(_) => Err(FieldError::NotJson),
        Ok(json) => read_json_from_buf(key, &json),
    }
}

/// Reads one setting of an agent from the document that holds its
/// configuration.
pub fn read_client_config_json(key: &str, config: &[u8]) -> (read: Result<String, FieldError>)
    ensures
        reads(read, text_in(config@, key@)),
{
    read_json(key, config)
}

/// The text that `json` holds under `key`, and the empty text where it
/// holds none.
pub open spec fn text_or_empty(json: Value, key: Seq<char>) -> Seq<char> {
    match text_at(json, key) {
        Ok(text) => text,
        Err(_) => Seq::empty(),
    }
}

/// Reads the text under `key`, with the empty text where there is none.
pub fn read_text_or_empty(key: &str, json: &Value) -> (text: String)
    ensures
        text@ == text_or_empty(*json, key@),
{
    match read_json_from_buf(key, json) {
        Ok(text) => text,
        Err(_) => String::new(),
    }
}

/// What each of `items` reads as a text, the empty text for one that is
/// no string.
pub open spec fn texts_of(items: Seq<Value>) -> Seq<Seq<char>> {
    Seq::new(
        items.len(),
        |i: int|
            match json_text(items[i]) {
                Some(text) => text,
                None => Seq::empty(),
            },
    )
}

/// The texts of the array that `json` holds under `key`; none where it
/// holds no array there.
pub open spec fn texts_at(json: Value, key: Seq<char>) -> Seq<Seq<char>> {
    match json_member(json, key) {
        None => Seq::empty(),
        Some(inner) => match json_elements(inner) {
            None => Seq::empty(),
            Some(items) => texts_of(items),
        },
    }
}

/// What each of `texts` reads.
pub open spec fn views(texts: Seq<String>) -> Seq<Seq<char>> {
    Seq::new(texts.len(), |i: int| texts[i]@)
}

/// Reads the texts of the array under `key`.
pub fn read_texts(key: &str, json: &Value) -> (texts: Vec<String>)
    ensures
        views(texts@) == texts_at(*json, key@),
{
    let mut texts: Vec<String> = Vec::new();
    match member(json, key) {
        None => {},
        Some(inner) => match elements_of(inner) {
            None => {},
            Some(items) => {
                let mut i: usize = 0;
                while i < items.len()
                    invariant
                        i <= items.len(),
                        texts.len() == i,
                        forall|j: int| 0 <= j < i ==> (#[trigger] texts@[j])@ == texts_of(items@)[j],
                    decreases items.len() - i,
                {
                    let text = match text_of(&items[i]) {
                        Some(text) => text,
                        None => String::new(),
                    };
                    texts.push(text);
                    i = i + 1;
                }
            },
        },
    }
    assert(views(texts@) =~= texts_at(*json, key@));
    texts
}

/// The truth value that `json` holds under `key`, `false` where it holds
/// none.
pub open spec fn truth_at(json: Value, key: Seq<char>) -> bool {
    match json_member(json, key) {
        None => false,
        Some(inner) => match json_truth(inner) {
            None => false,
            Some(truth) => truth,
        },
    }
}

/// Reads the truth value under `key`, `false` where there is none.
pub fn read_truth(key: &str, json: &Value) -> (truth: bool)
    ensures
        truth == truth_at(*json, key@),
{
    match member(json, key) {
        None => false,
        Some(inner) => match truth_of(inner) {
            None => false,
            Some(truth) => truth,
        },
    }
}

/// The whole number that `json` holds under `key`, zero where it holds
/// none.
pub open spec fn integer_at(json: Value, key: Seq<char>) -> i64 {
    match json_member(json, key) {
        None => 0,
        Some(inner) => match json_integer(inner) {
            None => 0,
            Some(number) => number,
        },
    }
}

/// Reads the whole number under `key`, zero where there is none.
pub fn read_integer(key: &str, json: &Value) -> (number: i64)
    ensures
        number == integer_at(*json, key@),
{
    match member(json, key) {
        None => 0,
        Some(inner) => match integer_of(inner) {
            None => 0,
            Some(number) => number,
        },
    }
}

/// The number that `json` holds under `key`, in millionths and rounded
/// toward zero; zero where it holds no number there.
pub open spec fn millionths_at(json: Value, key: Seq<char>) -> i64 {
    match json_member(json, key) {
        None => 0,
        Some(inner) => match json_number_bits(inner) {
            None => 0,
            Some(bits) => float_millionths(bits),
        },
    }
}

/// Reads the number under `key` in millionths, zero where there is none.
pub fn read_millionths(key: &str, json: &Value) -> (number: i64)
    ensures
        number == millionths_at(*json, key@),
{
    match member(json, key) {
        None => 0,
        Some(inner) => match number_bits_of(inner) {
            None => 0,
            Some(bits) => millionths(bits),
        },
    }
}

/// The count that `json` holds under `key`: a whole number within the
/// range of `i32`, and zero where it holds none.
pub open spec fn count_at(json: Value, key: Seq<char>) -> i32 {
    if i32::MIN <= integer_at(json, key) <= i32::MAX {
        integer_at(json, key) as i32
    } else {
        0
    }
}

/// Reads the count under `key`, zero where there is none.
pub fn read_count(key: &str, json: &Value) -> (count: i32)
    ensures
        count == count_at(*json, key@),
{
    let number = read_integer(key, json);
    if number < -0x8000_0000 || number > 0x7fff_ffff {
        0
    } else {
        number as i32
    }
}

/// Whether `device` is the sample that `json` holds: each field under its
/// name, a text that is missing empty, a number that is missing zero, and
/// the CPU load, a fraction of full load, in millionths.
pub open spec fn is_sample_of(device: Device, json: Value) -> bool {
    &&& device.device_id@ == text_or_empty(json, "deviceID"@)
    &&& device.device_name@ == text_or_empty(json, "deviceName"@)
    &&& device.ram_used == integer_at(json, "ramUsed"@)
    &&& device.ram_total == integer_at(json, "ramTotal"@)
    &&& device.cpu_usage == millionths_at(json, "cpuUsage"@)
    &&& device.processes == count_at(json, "processes"@)
    &&& device.network_in == integer_at(json, "networkIn"@)
    &&& device.network_out == integer_at(json, "networkOut"@)
    &&& device.time == integer_at(json, "time"@)
}

/// Documents that hold a sample.
pub trait ToDevice {
    /// Whether `device` is the sample that the document holds.
    spec fn holds_sample(&self, device: Device) -> bool;

    /// Reads the sample.
    fn to_device(&self) -> (device: Device)
        ensures
            self.holds_sample(device),
    ;
}

impl ToDevice for Value {
    open spec fn holds_sample(&self, device: Device) -> bool {
        is_sample_of(device, *self)
    }

    fn to_device(&self) -> (device: Device) {
        Device::new(
            read_text_or_empty("deviceID", self),
            read_text_or_empty("deviceName", self),
            read_integer("ramUsed", self),
            read_integer("ramTotal", self),
            read_millionths("cpuUsage", self),
            read_count("processes", self),
            read_integer("networkIn", self),
            read_integer("networkOut", self),
            read_integer("time", self),
        )
    }
}

/// Documents that hold the settings of an agent.
pub trait ToClientConfig {
    /// The three settings as the document holds them.
    spec fn client_fields(&self) -> (Seq<char>, Seq<char>, Seq<char>);

    /// Reads the settings; one that the document lacks is empty.
    fn to_client(&self) -> (client: Client)
        ensures
            (client.device_id@, client.device_name@, client.server_addr@) == self.client_fields(),
    ;
}

impl ToClientConfig for Value {
    open spec fn client_fields(&self) -> (Seq<char>, Seq<char>, Seq<char>) {
        (
            text_or_empty(*self, "deviceID"@),
            text_or_empty(*self, "deviceName"@),
            text_or_empty(*self, "serverAddr"@),
        )
    }

    fn to_client(&self) -> (client: Client) {
        Client::new(
            read_text_or_empty("deviceID", self),
            read_text_or_empty("deviceName", self),
            read_text_or_empty("serverAddr", self),
        )
    }
}

/// Documents that hold the registry of a server.
pub trait ToServerConfig {
    /// The registered identifiers, the digests of the admins and the mark
    /// of the first run, as the document holds them.
    spec fn server_fields(&self) -> (Seq<Seq<char>>, Seq<Seq<char>>, bool);

    /// Reads the registry; a list that the document lacks is empty, and
    /// the mark of the first run is then unset.
    fn to_server(&self) -> (config: ServerConfig)
        ensures
            (views(config.registered_device_ids@), views(config.admin_ids@), config.first_run)
                == self.server_fields(),
    ;
}

impl ToServerConfig for Value {
    open spec fn server_fields(&self) -> (Seq<Seq<char>>, Seq<Seq<char>>, bool) {
        (
            texts_at(*self, "registeredDeviceIDs"@),
            texts_at(*self, "adminIDs"@),
            truth_at(*self, "firstRun"@),
        )
    }

    fn to_server(&self) -> (config: ServerConfig) {
        ServerConfig::new(
            read_texts("registeredDeviceIDs", self),
            read_texts("adminIDs", self),
            read_truth("firstRun", self),
        )
    }
}

/// The settings of an agent that was never set up.
pub fn get_default_client_json_data() -> (client: Client)
    ensures
        client.device_id@ == "N/A"@,
        client.device_name@ == "No Config Present"@,
        client.server_addr@ == "127.0.0.1:51347"@,
{
    Client::new(
        String::from_str("N/A"),
        String::from_str("No Config Present"),
        String::from_str("127.0.0.1:51347"),
    )
}

/// The registry of a server that never ran: no device, no admin, and the
/// first run still ahead.
pub fn get_default_server_json_data() -> (config: ServerConfig)
    ensures
        config.registered_device_ids@.len() == 0,
        config.admin_ids@.len() == 0,
        config.first_run,
{
    ServerConfig::new(Vec::new(), Vec::new(), true)
}

/// The settings to store when an agent's configuration is reset.
pub fn reset_client_config() -> (client: Client)
    ensures
        client.device_id@ == "N/A"@,
        client.device_name@ == "No Config Present"@,
        client.server_addr@ == "127.0.0.1:51347"@,
{
    get_default_client_json_data()
}

/// The registry to store when a server's configuration is reset.
pub fn reset_server_config() -> (config: ServerConfig)
    ensures
        config.registered_device_ids@.len() == 0,
        config.admin_ids@.len() == 0,
        config.first_run,
{
    get_default_server_json_data()
}

/// `text` without the quotation marks in it.
pub open spec fn without_quotes(text: Seq<char>) -> Seq<char>
    decreases text.len(),
{
    if text.len() == 0 {
        Seq::empty()
    } else {
        let earlier = without_quotes(text.drop_last());
        if text.last() == '"' {
            earlier
        } else {
            earlier.push(text.last())
        }
    }
}

/// Copies `text` without the quotation marks in it.
fn unquoted(text: &str) -> (bare: String)
    ensures
        bare@ == without_quotes(text@),
{
    let mut bare = String::new();
    for character in characters: text.chars()
        invariant
            characters.seq() == text@,
            bare@ == without_quotes(text@.take(characters.index() as int)),
    {
        proof {
            let next = text@.take(characters.index() + 1);
            assert(next.drop_last() =~= text@.take(characters.index() as int));
            assert(next.last() == character);
        }
        if character != '"' {
            push_char(&mut bare, character);
        }
    }
    assert(text@.take(text@.len() as int) =~= text@);
    bare
}

/// How a value that was found is shown: its compact JSON text without the
/// quotation marks, so that a string shows as what it reads.
pub open spec fn shown(value: Value) -> Seq<char> {
    without_quotes(decode_utf8(json_rendered(value)))
}

/// How many levels of objects within objects a search goes down. No
/// document that was read from a text is nested deeper.
pub const SEARCH_DEPTH: usize = 128;

/// What a search for `key` finds among `members`, and in the objects among
/// their values as far as `depth` levels down: the values under `key`, as
/// they are shown, in the order of the members. A value under `key` is not
/// itself searched, and arrays among the values are not.
pub open spec fn found_among(members: Seq<(Seq<char>, Value)>, key: Seq<char>, depth: nat) -> Seq<
    Seq<char>,
>
    decreases depth, 0nat, members.len(),
{
    if members.len() == 0 {
        Seq::empty()
    } else {
        let earlier = found_among(members.drop_last(), key, depth);
        let inner = members.last().1;
        if members.last().0 == key {
            earlier.push(shown(inner))
        } else if depth > 0 {
            earlier + found_within(inner, key, (depth - 1) as nat)
        } else {
            earlier
        }
    }
}

/// What a search for `key` finds in `value` where it is an object; nothing
/// where it is none.
pub open spec fn found_within(value: Value, key: Seq<char>, depth: nat) -> Seq<Seq<char>>
    decreases depth, 1nat, 0nat,
{
    match json_members(value) {
        Some(members) => found_among(members, key, depth),
        None => Seq::empty(),
    }
}

/// What a search for `key` finds in each of `items`, one after the other.
pub open spec fn found_in_each(items: Seq<Value>, key: Seq<char>, depth: nat) -> Seq<Seq<char>>
    decreases items.len(),
{
    if items.len() == 0 {
        Seq::empty()
    } else {
        found_in_each(items.drop_last(), key, depth) + found_within(items.last(), key, depth)
    }
}

/// What a search for `key` finds in `json`: in each of its elements where
/// it is an array, and in `json` itself where it is none.
pub open spec fn found_in(json: Value, key: Seq<char>) -> Seq<Seq<char>> {
    match json_elements(json) {
        Some(items) => found_in_each(items, key, search_depth()),
        None => found_within(json, key, search_depth()),
    }
}

/// `SEARCH_DEPTH` as a natural number.
pub open spec fn search_depth() -> nat {
    SEARCH_DEPTH as nat
}

/// Searches an object.
fn search(key: &String, value: &Value, depth: usize) -> (found: Vec<String>)
    ensures
        views(found@) == found_within(*value, key@, depth as nat),
    decreases depth, 1nat,
{
    match members_of(value) {
        None => {
            let found: Vec<String> = Vec::new();
            assert(views(found@) =~= Seq::<Seq<char>>::empty());
            found
        },
        Some(members) => search_members(key, &members, depth),
    }
}

/// Searches the members of an object.
fn search_members(key: &String, members: &Vec<(String, Value)>, depth: usize) -> (found: Vec<
    String,
>)
    ensures
        views(found@) == found_among(member_views(members@), key@, depth as nat),
    decreases depth, 0nat,
{
    let mut found: Vec<String> = Vec::new();
    let ghost all = member_views(members@);
    let mut i: usize = 0;
    assert(views(found@) =~= found_among(all.take(0), key@, depth as nat));
    while i < members.len()
        invariant
            i <= members.len(),
            all == member_views(members@),
            views(found@) == found_among(all.take(i as int), key@, depth as nat),
        decreases members.len() - i,
    {
        let ghost before = found@;
        proof {
            assert(all.take(i + 1).drop_last() =~= all.take(i as int));
            assert(all.take(i + 1).last() == (members@[i as int].0@, members@[i as int].1));
        }
        if members[i].0 == *key {
            let text = render_text(&members[i].1);
            proof {
                encode_utf8_decode_utf8(text@);
            }
            let bare = unquoted(text.as_str());
            found.push(bare);
            assert(views(found@) =~= views(before).push(shown(members@[i as int].1)));
        } else if depth > 0 {
            let mut deeper = search(key, &members[i].1, depth - 1);
            let ghost added = deeper@;
            found.append(&mut deeper);
            assert(views(found@) =~= views(before) + views(added));
        }
        i = i + 1;
    }
    assert(all.take(members.len() as int) =~= all);
    found
}

/// The values that stand under `json_key` in `json`, or in the elements of
/// `json` where it is an array, and in the objects nested in them, each
/// shown as its compact text without quotation marks.
pub fn iterate_json(json_key: &str, json: &Value) -> (entries: Vec<String>)
    ensures
        views(entries@) == found_in(*json, json_key@),
{
    let key = String::from_str(json_key);
    match elements_of(json) {
        None => search(&key, json, SEARCH_DEPTH),
        Some(items) => {
            let mut entries: Vec<String> = Vec::new();
            let mut i: usize = 0;
            assert(views(entries@) =~= found_in_each(items@.take(0), key@, search_depth()));
            while i < items.len()
                invariant
                    i <= items.len(),
                    key@ == json_key@,
                    views(entries@) == found_in_each(items@.take(i as int), key@, search_depth()),
                decreases items.len() - i,
            {
                let ghost before = entries@;
                proof {
                    assert(items@.take(i + 1).drop_last() =~= items@.take(i as int));
                }
                let mut found = search(&key, &items[i], SEARCH_DEPTH);
                let ghost added = found@;
                entries.append(&mut found);
                assert(views(entries@) =~= views(before) + views(added));
                i = i + 1;
            }
            assert(items@.take(items.len() as int) =~= items@);
            entries
        },
    }
}

/// How many members `value` has where it is an object; none where it is
/// no object.
pub open spec fn member_count(value: Value) -> nat {
    match json_members(value) {
        Some(members) => members.len(),
        None => 0,
    }
}

/// How many members the objects among `items` have together.
pub open spec fn member_counts(items: Seq<Value>) -> nat
    decreases items.len(),
{
    if items.len() == 0 {
        0
    } else {
        member_counts(items.drop_last()) + member_count(items.last())
    }
}

/// The length of `json`: the number of its members, or of the members of
/// all its elements where it is an array.
pub open spec fn json_length(json: Value) -> nat {
    match json_elements(json) {
        Some(items) => member_counts(items),
        None => member_count(json),
    }
}

/// Counts the members of `value`.
fn count_members(value: &Value) -> (count: usize)
    ensures
        count == member_count(*value),
{
    match members_of(value) {
        Some(members) => members.len(),
        None => 0,
    }
}

/// The length of `json`, as far as `u32` counts.
pub fn get_json_length(json: &Value) -> (size: u32)
    ensures
        size == if json_length(*json) > u32::MAX {
            u32::MAX as nat
        } else {
            json_length(*json)
        },
{
    let total: u128 = match elements_of(json) {
        None => count_members(json) as u128,
        Some(items) => {
            let mut total: u128 = 0;
            let mut i: usize = 0;
            while i < items.len()
                invariant
                    i <= items.len(),
                    total == member_counts(items@.take(i as int)),
                    total <= i * usize::MAX,
                decreases items.len() - i,
            {
                proof {
                    assert(items@.take(i + 1).drop_last() =~= items@.take(i as int));
                    assert((i + 1) * usize::MAX == i * usize::MAX + usize::MAX)
                        by (nonlinear_arith);
                    assert((i + 1) * usize::MAX <= usize::MAX * usize::MAX) by (nonlinear_arith)
                        requires
                            i + 1 <= usize::MAX,
                    ;
                    assert(usize::MAX * usize::MAX <= 0xffff_ffff_ffff_ffff * 0xffff_ffff_ffff_ffff)
                        by (nonlinear_arith)
                        requires
                            usize::MAX <= 0xffff_ffff_ffff_ffff,
                    ;
                }
                total = total + count_members(&items[i]) as u128;
                i = i + 1;
            }
            assert(items@.take(items.len() as int) =~= items@);
            total
        },
    };
    if total > 0xffff_ffff {
        0xffff_ffff
    } else {
        total as u32
    }
}

} // verus!
