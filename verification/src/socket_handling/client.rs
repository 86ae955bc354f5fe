//! The agent's side of an exchange: what it reads back from the server.

use vstd::prelude::*;
use vstd::string::StringExecFns;
use serde_json::Value;
use crate::constants::FRAME_CEILING;
use crate::json_handler::{
    distinct_keys,
    has_only,
    json_rendered,
    lemma_member_of,
    object_value,
    text_at,
    text_value,
    FieldError,
};
use crate::socket_handling::codec::{encode_json, frame_len, frame_of, FrameError};
use crate::socket_handling::command_type::Commands;
use crate::socket_handling::identity::{digest, sha256_hex};

verus! {

/// Whether `built` is the frame of `command` with the document `json` as
/// its payload, or the refusal to build one that would exceed the ceiling.
pub open spec fn is_frame_of(built: Result<Vec<u8>, FrameError>, command: Commands, json: Value) -> bool {
    &&& built is Ok <==> frame_len(command, json_rendered(json).len()) <= FRAME_CEILING
    &&& built matches Ok(frame) ==> frame@ == frame_of(command, json_rendered(json))
    &&& built matches Err(error) ==> error == FrameError::TooLong
}

/// An object with the text `first` under `first_key`, the text `second`
/// under `second_key`, and no other member.
fn two_texts(first_key: &str, first: &str, second_key: &str, second: &str) -> (json: Value)
    requires
        first_key@ != second_key@,
    ensures
        text_at(json, first_key@) == Ok::<Seq<char>, FieldError>(first@),
        text_at(json, second_key@) == Ok::<Seq<char>, FieldError>(second@),
        has_only(json, set![first_key@, second_key@]),
{
    let mut members: Vec<(String, Value)> = Vec::new();
    members.push((String::from_str(first_key), text_value(first)));
    members.push((String::from_str(second_key), text_value(second)));
    proof {
        assert(distinct_keys(members@));
        lemma_member_of(members@, 0);
        lemma_member_of(members@, 1);
    }
    object_value(members)
}

/// The frame with which the device `device_id` asks for the list of
/// devices: it presents the digest of its identifier, never the identifier
/// itself, and nothing else.
pub fn list_request(device_id: &str) -> (built: Result<Vec<u8>, FrameError>)
    ensures
        exists|json: Value|
            {
                &&& text_at(json, "deviceID"@) == Ok::<Seq<char>, FieldError>(
                    sha256_hex(device_id@),
                )
                &&& has_only(json, set!["deviceID"@])
                &&& #[trigger] is_frame_of(built, Commands::LIST, json)
            },
{
    let mut members: Vec<(String, Value)> = Vec::new();
    let presented = digest(device_id);
    members.push((String::from_str("deviceID"), text_value(presented.as_str())));
    proof {
        lemma_member_of(members@, 0);
    }
    let json = object_value(members);
    let built = encode_json(Commands::LIST, &json);
    assert(is_frame_of(built, Commands::LIST, json));
    built
}

/// The frame with which the device `device_id` asks for the removal of
/// `removed_device_id`: it presents the digest of its identifier, names
/// the other device as it is, and holds nothing else.
pub fn remove_request(device_id: &str, removed_device_id: &str) -> (built: Result<
    Vec<u8>,
    FrameError,
>)
    ensures
        exists|json: Value|
            {
                &&& text_at(json, "deviceID"@) == Ok::<Seq<char>, FieldError>(
                    sha256_hex(device_id@),
                )
                &&& text_at(json, "removedDeviceID"@) == Ok::<Seq<char>, FieldError>(
                    removed_device_id@,
                )
                &&& has_only(json, set!["deviceID"@, "removedDeviceID"@])
                &&& #[trigger] is_frame_of(built, Commands::REMOVE, json)
            },
{
    proof {
        reveal_strlit("deviceID");
        reveal_strlit("removedDeviceID");
        assert("deviceID"@.len() != "removedDeviceID"@.len());
    }
    let presented = digest(device_id);
    let json = two_texts("deviceID", presented.as_str(), "removedDeviceID", removed_device_id);
    let built = encode_json(Commands::REMOVE, &json);
    assert(is_frame_of(built, Commands::REMOVE, json));
    built
}

/// The frame with which the device `device_id` asks for the name
/// `device_name`: it holds these two texts and nothing else.
pub fn rename_request(device_id: &str, device_name: &str) -> (built: Result<Vec<u8>, FrameError>)
    ensures
        exists|json: Value|
            {
                &&& text_at(json, "deviceID"@) == Ok::<Seq<char>, FieldError>(device_id@)
                &&& text_at(json, "deviceName"@) == Ok::<Seq<char>, FieldError>(device_name@)
                &&& has_only(json, set!["deviceID"@, "deviceName"@])
                &&& #[trigger] is_frame_of(built, Commands::RENAME, json)
            },
{
    proof {
        reveal_strlit("deviceID");
        reveal_strlit("deviceName");
        assert("deviceID"@.len() != "deviceName"@.len());
    }
    let json = two_texts("deviceID", device_id, "deviceName", device_name);
    let built = encode_json(Commands::RENAME, &json);
    assert(is_frame_of(built, Commands::RENAME, json));
    built
}

/// `bytes` without the NUL bytes in it.
pub open spec fn without_nuls(bytes: Seq<u8>) -> Seq<u8>
    decreases bytes.len(),
{
    if bytes.len() == 0 {
        Seq::empty()
    } else {
        let earlier = without_nuls(bytes.drop_last());
        if bytes.last() == 0 {
            earlier
        } else {
            earlier.push(bytes.last())
        }
    }
}

/// The response that a buffer holds: its bytes without the NUL bytes that
/// a read into a buffer of fixed size leaves around it.
pub fn response_bytes(buffer: &[u8]) -> (response: Vec<u8>)
    ensures
        response@ == without_nuls(buffer@),
        response.len() <= buffer.len(),
{
    let mut response: Vec<u8> = Vec::new();
    let mut i: usize = 0;
    while i < buffer.len()
        invariant
            i <= buffer.len(),
            response.len() <= i,
            response@ == without_nuls(buffer@.take(i as int)),
        decreases buffer.len() - i,
    {
        proof {
            assert(buffer@.take(i + 1).drop_last() =~= buffer@.take(i as int));
        }
        if buffer[i] != 0 {
            response.push(buffer[i]);
        }
        i = i + 1;
    }
    assert(buffer@.take(buffer.len() as int) =~= buffer@);
    response
}

} // verus!
