//! Frames: a command's name, the delimiter `!`, and the payload in base64.
//!
//! A frame never exceeds `FRAME_CEILING` bytes: a longer one is neither
//! built nor read.

use vstd::prelude::*;
use vstd::slice::slice_subrange;
use vstd::utf8::is_ascii_chars_encode_utf8;
use base64::Engine;
use crate::constants::FRAME_CEILING;
use serde_json::Value;
use crate::json_handler::{json_parsed, json_rendered, parse, render};
use crate::socket_handling::command_type::{
    command_of,
    lemma_command_of_token,
    lemma_tokens,
    to_command_bytes,
    Commands,
    DELIMITER,
};

verus! {

/// `base64::DecodeError`: why a text is no base64, held without a look
/// inside.
#[verifier::external_type_specification]
#[verifier::external_body]
pub struct ExBase64DecodeError(base64::DecodeError);

/// The text in which the standard base64 alphabet, with padding, renders
/// `bytes`.
pub uninterp spec fn base64_text(bytes: Seq<u8>) -> Seq<u8>;

/// The bytes that `text` renders in the standard base64 alphabet with
/// canonical padding, where it renders any.
pub uninterp spec fn base64_bytes(text: Seq<u8>) -> Option<Seq<u8>>;

/// Whether `byte` is a letter, a digit, `+`, `/` or the padding `=`.
pub open spec fn is_base64_symbol(byte: u8) -> bool {
    ||| 65 <= byte <= 90
    ||| 97 <= byte <= 122
    ||| 48 <= byte <= 57
    ||| byte == 43
    ||| byte == 47
    ||| byte == 61
}

/// Length of the padded base64 text of `n` bytes: four symbols for every
/// three bytes or part of three.
pub open spec fn base64_len(n: nat) -> nat {
    4 * ((n + 2) / 3)
}

/// `Engine::encode` of `base64::engine::general_purpose::STANDARD`. The
/// text has four symbols for every three bytes begun, all of the standard
/// alphabet or padding, and the same engine reads the bytes back from it.
/// The call panics where the length of the text does not fit `usize`.
#[verifier::external_body]
fn to_base64(bytes: &[u8]) -> (text: Vec<u8>)
    requires
        base64_len(bytes@.len()) <= usize::MAX,
    ensures
        text@ == base64_text(bytes@),
        text@.len() == base64_len(bytes@.len()),
        forall|i: int| 0 <= i < text@.len() ==> is_base64_symbol(#[trigger] text@[i]),
        base64_bytes(text@) == Some(bytes@),
{
    base64::engine::general_purpose::STANDARD.encode(bytes).into_bytes()
}

/// `Engine::decode` of `base64::engine::general_purpose::STANDARD`: the
/// bytes read are a function of the text alone, and an error comes exactly
/// where none are read. The empty text is read, as no bytes.
#[verifier::external_body]
fn from_base64(text: &[u8]) -> (bytes: Result<Vec<u8>, base64::DecodeError>)
    ensures
        bytes is Ok <==> base64_bytes(text@) is Some,
        bytes matches Ok(read) ==> base64_bytes(text@) == Some(read@),
        bytes is Ok || text@.len() > 0,
        bytes matches Ok(read) ==> (text@.len() == 0 ==> read@.len() == 0),
{
    base64::engine::general_purpose::STANDARD.decode(text)
}

/// A decoded frame.
#[derive(Clone, Debug, PartialEq, Eq)]
pub struct Frame {
    /// The command that the frame names
    pub command: Commands,
    /// The payload as it was before it was put in base64: the text of a
    /// JSON document where the command expects one
    pub payload: Vec<u8>,
}

/// Why a frame was not read, or not built.
#[derive(Clone, Copy, Debug, PartialEq, Eq, Structural)]
pub enum FrameError {
    /// The frame is, or would be, longer than `FRAME_CEILING`
    TooLong,
    /// The frame has no `!`
    MissingDelimiter,
    /// What follows the `!` is no base64
    InvalidBase64,
    /// The command expects a payload and the payload is no JSON
    InvalidJson,
}

/// Whether a request with `command` carries a JSON document. `SETUP` and
/// `EXIT` carry none, and what an unknown command carries is not looked at.
pub open spec fn expects_payload(command: Commands) -> bool {
    match command {
        Commands::INPUT => true,
        Commands::RENAME => true,
        Commands::AdminRename => true,
        Commands::REMOVE => true,
        Commands::LIST => true,
        Commands::UpdateServer => true,
        Commands::SETUP => false,
        Commands::EXIT => false,
        Commands::ERROR => false,
    }
}

/// Whether a request with `command` carries a JSON document.
pub fn carries_payload(command: Commands) -> (carries: bool)
    ensures
        carries == expects_payload(command),
{
    match command {
        Commands::INPUT => true,
        Commands::RENAME => true,
        Commands::AdminRename => true,
        Commands::REMOVE => true,
        Commands::LIST => true,
        Commands::UpdateServer => true,
        Commands::SETUP => false,
        Commands::EXIT => false,
        Commands::ERROR => false,
    }
}

/// The frame of `command` with a payload whose base64 text is `text`.
pub open spec fn framed(command: Commands, text: Seq<u8>) -> Seq<u8> {
    command.token_bytes().push(DELIMITER) + text
}

/// The frame of `command` and `payload`.
pub open spec fn frame_of(command: Commands, payload: Seq<u8>) -> Seq<u8> {
    framed(command, base64_text(payload))
}

/// Length of the frame of `command` with a payload of `n` bytes.
pub open spec fn frame_len(command: Commands, n: nat) -> nat {
    command.token().len() + 1 + base64_len(n)
}

/// Whether the first delimiter of `frame` stands at `at`.
pub open spec fn is_first_delimiter(frame: Seq<u8>, at: int) -> bool {
    &&& 0 <= at < frame.len()
    &&& frame[at] == DELIMITER
    &&& forall|j: int| 0 <= j < at ==> #[trigger] frame[j] != DELIMITER
}

/// Where the first delimiter of `frame` stands.
pub open spec fn delimiter_at(frame: Seq<u8>) -> int {
    choose|at: int| is_first_delimiter(frame, at)
}

/// `body` without the NUL bytes at its end, which a read into a buffer of
/// fixed size leaves there.
pub open spec fn strip_padding(body: Seq<u8>) -> Seq<u8>
    decreases body.len(),
{
    if body.len() > 0 && body.last() == 0 {
        strip_padding(body.drop_last())
    } else {
        body
    }
}

/// What stands before the first delimiter of `frame`.
pub open spec fn token_of(frame: Seq<u8>) -> Seq<u8> {
    frame.subrange(0, delimiter_at(frame))
}

/// What follows the first delimiter of `frame`, without the NUL bytes at
/// its end.
pub open spec fn body_of(frame: Seq<u8>) -> Seq<u8> {
    strip_padding(frame.subrange(delimiter_at(frame) + 1, frame.len() as int))
}

/// Whether `frame` is a bare command: within the ceiling, with nothing but
/// padding after its first delimiter, and naming a command that carries no
/// payload. The frame `SETUP!` of a new device is one.
pub open spec fn is_bare(frame: Seq<u8>) -> bool {
    &&& frame.len() <= FRAME_CEILING
    &&& frame.contains(DELIMITER)
    &&& body_of(frame).len() == 0
    &&& !expects_payload(command_of(token_of(frame)))
}

/// What a frame decodes to. The command is what stands before the first
/// `!`; the payload is what the rest, without the NUL bytes at its end,
/// renders in base64.
pub open spec fn decoded(frame: Seq<u8>) -> Result<(Commands, Seq<u8>), FrameError> {
    if frame.len() > FRAME_CEILING {
        Err(FrameError::TooLong)
    } else if !frame.contains(DELIMITER) {
        Err(FrameError::MissingDelimiter)
    } else {
        let command = command_of(token_of(frame));
        match base64_bytes(body_of(frame)) {
            None => Err(FrameError::InvalidBase64),
            Some(payload) => if expects_payload(command) && json_parsed(payload) is None {
                Err(FrameError::InvalidJson)
            } else {
                Ok((command, payload))
            },
        }
    }
}

/// Whether `read` is the outcome `model`.
pub open spec fn decodes_as(
    read: Result<Frame, FrameError>,
    model: Result<(Commands, Seq<u8>), FrameError>,
) -> bool {
    match model {
        Ok((command, payload)) => read matches Ok(frame) && frame.command == command
            && frame.payload@ == payload,
        Err(error) => read matches Err(found) && found == error,
    }
}

/// Reading inverts framing: a frame built from `command` and a base64 text
/// of `payload` decodes to `command` and `payload`, where the frame fits
/// the ceiling and the payload is a JSON document if the command expects
/// one.
pub proof fn lemma_decode_inverts_framing(command: Commands, payload: Seq<u8>, text: Seq<u8>)
    requires
        base64_bytes(text) == Some(payload),
        forall|i: int| 0 <= i < text.len() ==> is_base64_symbol(#[trigger] text[i]),
        command.token().len() + 1 + text.len() <= FRAME_CEILING,
        expects_payload(command) ==> json_parsed(payload) is Some,
    ensures
        decoded(framed(command, text)) == Ok::<(Commands, Seq<u8>), FrameError>(
            (command, payload),
        ),
{
    let frame = framed(command, text);
    let at = command.token_bytes().len() as int;
    lemma_tokens(command);
    lemma_command_of_token(command);
    lemma_delimiter_follows_token(command, text);
    assert(frame.subrange(at + 1, frame.len() as int) =~= text);
    if text.len() > 0 {
        assert(is_base64_symbol(text[text.len() - 1]));
    }
    assert(strip_padding(text) == text);
}

/// Padding alone strips to nothing.
proof fn lemma_strip_padding_of_nuls(padding: Seq<u8>)
    requires
        forall|i: int| 0 <= i < padding.len() ==> #[trigger] padding[i] == 0,
    ensures
        strip_padding(padding).len() == 0,
    decreases padding.len(),
{
    if padding.len() > 0 {
        lemma_strip_padding_of_nuls(padding.drop_last());
    }
}

/// Where the delimiter stands in a frame that begins with a command's name.
proof fn lemma_delimiter_follows_token(command: Commands, rest: Seq<u8>)
    ensures
        framed(command, rest).contains(DELIMITER),
        delimiter_at(framed(command, rest)) == command.token_bytes().len(),
        token_of(framed(command, rest)) == command.token_bytes(),
{
    let frame = framed(command, rest);
    let at = command.token_bytes().len() as int;
    lemma_tokens(command);
    assert(frame[at] == DELIMITER);
    assert(is_first_delimiter(frame, at)) by {
        assert forall|j: int| 0 <= j < at implies #[trigger] frame[j] != DELIMITER by {
            assert(frame[j] == command.token_bytes()[j]);
        }
    }
    let chosen = delimiter_at(frame);
    assert(is_first_delimiter(frame, chosen));
    if chosen < at {
        assert(frame[chosen] != DELIMITER);
    }
    if at < chosen {
        assert(frame[at] != DELIMITER);
    }
    assert(frame.subrange(0, at) =~= command.token_bytes());
}

/// The name of a command that carries no payload, the delimiter, and
/// nothing but padding after it make a bare command, which names that
/// command: so the frame `SETUP!` stands for `SETUP`, read from a buffer
/// of any size up to the ceiling.
pub proof fn lemma_bare_command(command: Commands, padding: Seq<u8>)
    requires
        !expects_payload(command),
        forall|i: int| 0 <= i < padding.len() ==> #[trigger] padding[i] == 0,
        command.token().len() + 1 + padding.len() <= FRAME_CEILING,
    ensures
        is_bare(framed(command, padding)),
        command_of(token_of(framed(command, padding))) == command,
{
    let frame = framed(command, padding);
    lemma_tokens(command);
    lemma_command_of_token(command);
    lemma_delimiter_follows_token(command, padding);
    lemma_strip_padding_of_nuls(padding);
    assert(frame.subrange(command.token_bytes().len() as int + 1, frame.len() as int) =~= padding);
}

/// Builds the frame of `command` and `payload`, unless it would exceed the
/// ceiling. The frame decodes to what it was built from.
pub fn encode(command: Commands, payload: &[u8]) -> (built: Result<Vec<u8>, FrameError>)
    ensures
        built is Ok <==> frame_len(command, payload@.len()) <= FRAME_CEILING,
        built matches Err(error) ==> error == FrameError::TooLong,
        built matches Ok(frame) ==> frame@ == frame_of(command, payload@),
        built matches Ok(frame) ==> frame@.len() == frame_len(command, payload@.len()),
        built matches Ok(frame) ==> (expects_payload(command) ==> json_parsed(payload@) is Some)
            ==> decoded(frame@) == Ok::<(Commands, Seq<u8>), FrameError>((command, payload@)),
{
    let head = command.to_string().as_bytes();
    proof {
        let text = command.token().push('!');
        lemma_tokens(command);
        is_ascii_chars_encode_utf8(text);
        assert(head@ =~= command.token_bytes().push(DELIMITER)) by {
            assert(head@.len() == command.token().len() + 1);
            assert forall|i: int| 0 <= i < head@.len() implies head@[i]
                == #[trigger] command.token_bytes().push(DELIMITER)[i] by {
                assert(head@[i] == text[i] as u8);
            }
        }
    }
    if payload.len() > FRAME_CEILING {
        return Err(FrameError::TooLong);
    }
    let body_len: usize = 4 * ((payload.len() + 2) / 3);
    if head.len() + body_len > FRAME_CEILING {
        return Err(FrameError::TooLong);
    }
    let body = to_base64(payload);
    let mut frame: Vec<u8> = Vec::new();
    frame.extend_from_slice(head);
    frame.extend_from_slice(body.as_slice());
    proof {
        assert(frame@ =~= frame_of(command, payload@));
        if expects_payload(command) ==> json_parsed(payload@) is Some {
            lemma_decode_inverts_framing(command, payload@, body@);
        }
    }
    Ok(frame)
}

/// Builds the frame of `command` with the compact text of `payload` as its
/// payload, unless the frame would exceed the ceiling. The frame decodes
/// to the command and that text, as the text is a JSON document.
pub fn encode_json(command: Commands, payload: &Value) -> (built: Result<Vec<u8>, FrameError>)
    ensures
        built is Ok <==> frame_len(command, json_rendered(*payload).len()) <= FRAME_CEILING,
        built matches Err(error) ==> error == FrameError::TooLong,
        built matches Ok(frame) ==> frame@ == frame_of(command, json_rendered(*payload)),
        built matches Ok(frame) ==> frame@.len() == frame_len(
            command,
            json_rendered(*payload).len(),
        ),
        built matches Ok(frame) ==> json_parsed(json_rendered(*payload)) is Some ==> decoded(
            frame@,
        ) == Ok::<(Commands, Seq<u8>), FrameError>((command, json_rendered(*payload))),
{
    let text = render(payload);
    encode(command, text.as_slice())
}

/// Reads a frame: the command before the first `!`, and the payload that
/// the rest renders in base64 once the NUL bytes at its end are dropped.
/// A payload that is no JSON is an error where the command expects one. A
/// bare command, as a new device sends it, is read as the command without a
/// payload.
pub fn decode(frame: &[u8]) -> (read: Result<Frame, FrameError>)
    ensures
        decodes_as(read, decoded(frame@)),
        is_bare(frame@) ==> decoded(frame@) == Ok::<(Commands, Seq<u8>), FrameError>(
            (command_of(token_of(frame@)), Seq::empty()),
        ),
{
    if frame.len() > FRAME_CEILING {
        return Err(FrameError::TooLong);
    }
    let mut at: usize = 0;
    while at < frame.len() && frame[at] != DELIMITER
        invariant
            at <= frame.len(),
            forall|j: int| 0 <= j < at ==> #[trigger] frame@[j] != DELIMITER,
        decreases frame.len() - at,
    {
        at = at + 1;
    }
    if at == frame.len() {
        return Err(FrameError::MissingDelimiter);
    }
    proof {
        assert(is_first_delimiter(frame@, at as int));
        assert(frame@.contains(DELIMITER));
        let chosen = delimiter_at(frame@);
        assert(is_first_delimiter(frame@, chosen));
        if chosen < at {
            assert(frame@[chosen] != DELIMITER);
        }
        if at < chosen {
            assert(frame@[at as int] != DELIMITER);
        }
        assert(chosen == at);
    }
    let command = to_command_bytes(slice_subrange(frame, 0, at));
    let mut end: usize = frame.len();
    while end > at + 1 && frame[end - 1] == 0
        invariant
            at + 1 <= end <= frame.len(),
            strip_padding(frame@.subrange(at + 1, frame.len() as int)) == strip_padding(
                frame@.subrange(at + 1, end as int),
            ),
        decreases end,
    {
        proof {
            assert(frame@.subrange(at + 1, end as int).drop_last() =~= frame@.subrange(
                at + 1,
                end - 1,
            ));
        }
        end = end - 1;
    }
    let body = slice_subrange(frame, at + 1, end);
    assert(strip_padding(body@) == body@);
    match from_base64(body) {
        Err(_) => Err(FrameError::InvalidBase64),
        Ok(payload) => {
            proof {
                if body@.len() == 0 {
                    assert(payload@ =~= Seq::<u8>::empty());
                }
            }
            if carries_payload(command) {
                match parse(payload.as_slice()) {
                    Err(_) => Err(FrameError::InvalidJson),
                    Ok(_) => Ok(Frame { command, payload }),
                }
            } else {
                Ok(Frame { command, payload })
            }
        },
    }
}

} // verus!
