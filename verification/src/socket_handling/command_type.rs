//! The closed vocabulary of commands and their tokens on the wire.

use vstd::prelude::*;
use vstd::slice::slice_subrange;
use vstd::string::StringSliceAdditionalSpecFns;
use vstd::utf8::{encode_utf8, is_ascii_chars, is_ascii_chars_encode_utf8};

verus! {

/// Commands that a frame can carry.
#[derive(Clone, Copy, Debug, PartialEq, Eq, Structural)]
pub enum Commands {
    /// Add a sample to the stored metrics
    INPUT,
    /// Rename the sending device
    RENAME,
    /// Rename another device, as an admin
    AdminRename,
    /// Ask for a new device id
    SETUP,
    /// Remove a device, as an admin
    REMOVE,
    /// List the devices on the server, as an admin
    LIST,
    /// Update the server, as an admin
    UpdateServer,
    /// Stop the server
    EXIT,
    /// What an unknown token decodes to; never sent on purpose
    ERROR,
}

/// The byte that ends a command's name in a frame: `!`.
pub const DELIMITER: u8 = 33;

/// The bytes of a text of ASCII characters.
pub open spec fn ascii(text: Seq<char>) -> Seq<u8> {
    Seq::new(text.len(), |i: int| text[i] as u8)
}

impl Commands {
    /// The command's name on the wire, without the delimiter.
    pub open spec fn token(self) -> Seq<char> {
        match self {
            Commands::INPUT => "INPUT"@,
            Commands::RENAME => "RENAME"@,
            Commands::AdminRename => "AdminRename"@,
            Commands::SETUP => "SETUP"@,
            Commands::REMOVE => "REMOVE"@,
            Commands::LIST => "LIST"@,
            Commands::UpdateServer => "UpdateServer"@,
            Commands::EXIT => "EXIT"@,
            Commands::ERROR => "ERROR"@,
        }
    }

    /// The command's name followed by the delimiter `!`, as a frame begins.
    pub fn to_string(self) -> (text: &'static str)
        ensures
            text@ == self.token().push('!'),
    {
        proof {
            reveal_strlit("INPUT");
            reveal_strlit("INPUT!");
            reveal_strlit("RENAME");
            reveal_strlit("RENAME!");
            reveal_strlit("AdminRename");
            reveal_strlit("AdminRename!");
            reveal_strlit("SETUP");
            reveal_strlit("SETUP!");
            reveal_strlit("REMOVE");
            reveal_strlit("REMOVE!");
            reveal_strlit("LIST");
            reveal_strlit("LIST!");
            reveal_strlit("UpdateServer");
            reveal_strlit("UpdateServer!");
            reveal_strlit("EXIT");
            reveal_strlit("EXIT!");
            reveal_strlit("ERROR");
            reveal_strlit("ERROR!");
        }
        let text = match self {
            Commands::INPUT => "INPUT!",
            Commands::RENAME => "RENAME!",
            Commands::AdminRename => "AdminRename!",
            Commands::SETUP => "SETUP!",
            Commands::REMOVE => "REMOVE!",
            Commands::LIST => "LIST!",
            Commands::UpdateServer => "UpdateServer!",
            Commands::EXIT => "EXIT!",
            Commands::ERROR => "ERROR!",
        };
        assert(text@ =~= self.token().push('!'));
        text
    }

    /// The command's name on the wire as bytes.
    pub open spec fn token_bytes(self) -> Seq<u8> {
        ascii(self.token())
    }

    /// Whether `token` is this command's name.
    pub fn is_token(self, token: &[u8]) -> (same: bool)
        ensures
            same == (token@ == self.token_bytes()),
    {
        let text = self.to_string();
        let bytes = text.as_bytes();
        proof {
            lemma_tokens(self);
            assert(is_ascii_chars(text@));
            is_ascii_chars_encode_utf8(text@);
            assert(bytes@.len() == self.token().len() + 1);
            assert forall|i: int| 0 <= i < self.token().len() implies bytes@[i]
                == #[trigger] self.token_bytes()[i] by {
                assert(text@[i] == self.token()[i]);
            }
        }
        if token.len() != bytes.len() - 1 {
            return false;
        }
        let mut i: usize = 0;
        while i < token.len()
            invariant
                i <= token.len(),
                token.len() + 1 == bytes.len(),
                token.len() == self.token_bytes().len(),
                forall|j: int| 0 <= j < token.len() ==> bytes@[j] == #[trigger] self.token_bytes()[j],
                forall|j: int| 0 <= j < i ==> token@[j] == #[trigger] self.token_bytes()[j],
            decreases token.len() - i,
        {
            if token[i] != bytes[i] {
                return false;
            }
            i = i + 1;
        }
        assert(token@ =~= self.token_bytes());
        true
    }
}

/// The token that `token` names, `ERROR` where it names none. The match is
/// exact: case counts, and nothing may stand before or after the name.
pub open spec fn command_of(token: Seq<u8>) -> Commands {
    if token == Commands::INPUT.token_bytes() {
        Commands::INPUT
    } else if token == Commands::RENAME.token_bytes() {
        Commands::RENAME
    } else if token == Commands::AdminRename.token_bytes() {
        Commands::AdminRename
    } else if token == Commands::SETUP.token_bytes() {
        Commands::SETUP
    } else if token == Commands::REMOVE.token_bytes() {
        Commands::REMOVE
    } else if token == Commands::LIST.token_bytes() {
        Commands::LIST
    } else if token == Commands::UpdateServer.token_bytes() {
        Commands::UpdateServer
    } else if token == Commands::EXIT.token_bytes() {
        Commands::EXIT
    } else {
        Commands::ERROR
    }
}

/// `bytes` without the delimiter at its end, where one stands there: the
/// one that ends a command's name in a frame.
pub open spec fn without_final_delimiter(bytes: Seq<u8>) -> Seq<u8> {
    if bytes.len() > 0 && bytes.last() == DELIMITER {
        bytes.drop_last()
    } else {
        bytes
    }
}

/// What the tokens are made of: ASCII characters, none of them the
/// delimiter, between four and twelve of them.
pub proof fn lemma_tokens(command: Commands)
    ensures
        is_ascii_chars(command.token()),
        is_ascii_chars(command.token().push('!')),
        4 <= command.token().len() <= 12,
        command.token_bytes().len() == command.token().len(),
        forall|i: int|
            0 <= i < command.token().len() ==> #[trigger] command.token_bytes()[i] != DELIMITER,
        forall|i: int|
            0 <= i < command.token().len() ==> #[trigger] command.token_bytes()[i] != 0,
{
    reveal_strlit("INPUT");
    reveal_strlit("RENAME");
    reveal_strlit("AdminRename");
    reveal_strlit("SETUP");
    reveal_strlit("REMOVE");
    reveal_strlit("LIST");
    reveal_strlit("UpdateServer");
    reveal_strlit("EXIT");
    reveal_strlit("ERROR");
}

/// Every command is the one that its own token names.
pub proof fn lemma_command_of_token(command: Commands)
    ensures
        command_of(command.token_bytes()) == command,
{
    reveal_strlit("INPUT");
    reveal_strlit("RENAME");
    reveal_strlit("AdminRename");
    reveal_strlit("SETUP");
    reveal_strlit("REMOVE");
    reveal_strlit("LIST");
    reveal_strlit("UpdateServer");
    reveal_strlit("EXIT");
    reveal_strlit("ERROR");
    let token = command.token_bytes();
    // Tokens of the same length differ in their first or second byte.
    assert(Commands::INPUT.token_bytes()[0] == 73);
    assert(Commands::SETUP.token_bytes()[0] == 83);
    assert(Commands::ERROR.token_bytes()[0] == 69);
    assert(Commands::RENAME.token_bytes()[2] == 78);
    assert(Commands::REMOVE.token_bytes()[2] == 77);
    assert(Commands::LIST.token_bytes()[0] == 76);
    assert(Commands::EXIT.token_bytes()[0] == 69);
    assert(Commands::INPUT.token_bytes().len() == 5);
    assert(Commands::SETUP.token_bytes().len() == 5);
    assert(Commands::ERROR.token_bytes().len() == 5);
    assert(Commands::RENAME.token_bytes().len() == 6);
    assert(Commands::REMOVE.token_bytes().len() == 6);
    assert(Commands::LIST.token_bytes().len() == 4);
    assert(Commands::EXIT.token_bytes().len() == 4);
    assert(Commands::AdminRename.token_bytes().len() == 11);
    assert(Commands::UpdateServer.token_bytes().len() == 12);
}

/// Reads a command from a token of the wire.
pub fn to_command_bytes(token: &[u8]) -> (command: Commands)
    ensures
        command == command_of(token@),
{
    if Commands::INPUT.is_token(token) {
        Commands::INPUT
    } else if Commands::RENAME.is_token(token) {
        Commands::RENAME
    } else if Commands::AdminRename.is_token(token) {
        Commands::AdminRename
    } else if Commands::SETUP.is_token(token) {
        Commands::SETUP
    } else if Commands::REMOVE.is_token(token) {
        Commands::REMOVE
    } else if Commands::LIST.is_token(token) {
        Commands::LIST
    } else if Commands::UpdateServer.is_token(token) {
        Commands::UpdateServer
    } else if Commands::EXIT.is_token(token) {
        Commands::EXIT
    } else {
        Commands::ERROR
    }
}

/// Reads a command from a text that may end with the delimiter.
fn to_command_text(bytes: &[u8]) -> (command: Commands)
    ensures
        command == command_of(without_final_delimiter(bytes@)),
{
    let n: usize = bytes.len();
    if n > 0 && bytes[n - 1] == DELIMITER {
        let token = slice_subrange(bytes, 0, n - 1);
        assert(token@ =~= bytes@.drop_last());
        to_command_bytes(token)
    } else {
        to_command_bytes(bytes)
    }
}

/// Texts that name a command.
pub trait CommandTraits {
    /// The bytes of the text.
    spec fn wire_bytes(&self) -> Seq<u8>;

    /// The command that the text names: the text is the command's name as
    /// it is, or the name with the one delimiter that ends it in a frame.
    /// Any other text, one with a delimiter elsewhere included, names
    /// `ERROR`.
    fn to_command(&self) -> (command: Commands)
        ensures
            command == command_of(without_final_delimiter(self.wire_bytes())),
    ;
}

impl CommandTraits for str {
    open spec fn wire_bytes(&self) -> Seq<u8> {
        self.spec_bytes()
    }

    fn to_command(&self) -> (command: Commands) {
        to_command_text(self.as_bytes())
    }
}

impl CommandTraits for String {
    open spec fn wire_bytes(&self) -> Seq<u8> {
        encode_utf8(self@)
    }

    fn to_command(&self) -> (command: Commands) {
        to_command_text(self.as_str().as_bytes())
    }
}

/// A text with a delimiter before its end names no command.
pub proof fn lemma_inner_delimiter_names_none(bytes: Seq<u8>, at: int)
    requires
        0 <= at < bytes.len() - 1,
        bytes[at] == DELIMITER,
    ensures
        command_of(without_final_delimiter(bytes)) == Commands::ERROR,
{
    let token = without_final_delimiter(bytes);
    assert(token[at] == DELIMITER);
    assert forall|command: Commands| token != command.token_bytes() by {
        lemma_tokens(command);
        if token == command.token_bytes() {
            assert(command.token_bytes()[at] != DELIMITER);
        }
    }
}

} // verus!
