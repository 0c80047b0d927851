//! Command sub-protocol: messages that begin with the `/` sigil are
//! whitespace-delimited `/verb arg...` invocations. Parsing yields a closed
//! set of typed invocations; anything else is rejected at parse time.
use crate::text::{bytes_eq, copy_bytes, join_spaces, spec_join_spaces, spec_tokens, tokenize};
use vstd::prelude::*;
use vstd::string::StrSliceExecFns;
use vstd::string::StringSliceAdditionalSpecFns;

verus! {

/// The command sigil `/`.
pub const SIGIL: u8 = 0x2f;

/// A parsed command invocation.
pub enum Command {
    Login { username: Vec<u8>, password: Vec<u8> },
    Create { username: Vec<u8>, password: Vec<u8> },
    Whisper { target: Vec<u8>, message: Vec<u8> },
    ListAll,
    Ping,
    AboutMe,
    Stop,
}

/// Ghost shape of a parsed command.
pub enum CommandView {
    Login { username: Seq<u8>, password: Seq<u8> },
    Create { username: Seq<u8>, password: Seq<u8> },
    Whisper { target: Seq<u8>, message: Seq<u8> },
    ListAll,
    Ping,
    AboutMe,
    Stop,
}

impl View for Command {
    type V = CommandView;

    open spec fn view(&self) -> CommandView {
        match self {
            Command::Login { username, password } => CommandView::Login {
                username: username@,
                password: password@,
            },
            Command::Create { username, password } => CommandView::Create {
                username: username@,
                password: password@,
            },
            Command::Whisper { target, message } => CommandView::Whisper {
                target: target@,
                message: message@,
            },
            Command::ListAll => CommandView::ListAll,
            Command::Ping => CommandView::Ping,
            Command::AboutMe => CommandView::AboutMe,
            Command::Stop => CommandView::Stop,
        }
    }
}

/// Why a message failed to parse as a command: the verb is not in the
/// closed set, or a known verb came with too few arguments.
#[derive(Clone, Copy, Debug, PartialEq, Eq, Structural)]
pub enum ParseError {
    UnknownVerb,
    IncompleteLogin,
    IncompleteCreate,
    IncompleteWhisper,
}

/// What parsing a payload yields. `/login` and `/create` take exactly a
/// username and a password (extra tokens are ignored); `/whisper` takes a
/// target and the rest of the tokens as the message; the remaining verbs
/// take no arguments.
pub open spec fn spec_parse(payload: Seq<u8>) -> Result<CommandView, ParseError> {
    let ts = spec_tokens(payload);
    if ts.len() == 0 {
        Err(ParseError::UnknownVerb)
    } else if ts[0] == "/login".spec_bytes() {
        if ts.len() >= 3 {
            Ok(CommandView::Login { username: ts[1], password: ts[2] })
        } else {
            Err(ParseError::IncompleteLogin)
        }
    } else if ts[0] == "/create".spec_bytes() {
        if ts.len() >= 3 {
            Ok(CommandView::Create { username: ts[1], password: ts[2] })
        } else {
            Err(ParseError::IncompleteCreate)
        }
    } else if ts[0] == "/whisper".spec_bytes() {
        if ts.len() >= 2 {
            Ok(CommandView::Whisper { target: ts[1], message: spec_join_spaces(ts.skip(2)) })
        } else {
            Err(ParseError::IncompleteWhisper)
        }
    } else if ts[0] == "/listall".spec_bytes() {
        Ok(CommandView::ListAll)
    } else if ts[0] == "/ping".spec_bytes() {
        Ok(CommandView::Ping)
    } else if ts[0] == "/aboutme".spec_bytes() {
        Ok(CommandView::AboutMe)
    } else if ts[0] == "/stop".spec_bytes() {
        Ok(CommandView::Stop)
    } else {
        Err(ParseError::UnknownVerb)
    }
}

/// Parse one command payload.
pub fn parse_command(payload: &Vec<u8>) -> (r: Result<Command, ParseError>)
    ensures
        r is Ok <==> spec_parse(payload@) is Ok,
        r is Ok ==> spec_parse(payload@) == Ok::<CommandView, ParseError>(r->Ok_0@),
        r is Err ==> spec_parse(payload@) == Err::<CommandView, ParseError>(r->Err_0),
{
    let ts = tokenize(payload);
    let ghost tsv = spec_tokens(payload@);
    if ts.len() == 0 {
        return Err(ParseError::UnknownVerb);
    }
    proof {
        assert(ts.deep_view()[0] == ts@[0]@);
        if ts@.len() >= 2 {
            assert(ts.deep_view()[1] == ts@[1]@);
        }
        if ts@.len() >= 3 {
            assert(ts.deep_view()[2] == ts@[2]@);
        }
    }
    let v_login = "/login".as_bytes_vec();
    let v_create = "/create".as_bytes_vec();
    let v_whisper = "/whisper".as_bytes_vec();
    let v_listall = "/listall".as_bytes_vec();
    let v_ping = "/ping".as_bytes_vec();
    let v_aboutme = "/aboutme".as_bytes_vec();
    let v_stop = "/stop".as_bytes_vec();
    if bytes_eq(&ts[0], &v_login) {
        if ts.len() >= 3 {
            Ok(Command::Login { username: copy_bytes(&ts[1]), password: copy_bytes(&ts[2]) })
        } else {
            Err(ParseError::IncompleteLogin)
        }
    } else if bytes_eq(&ts[0], &v_create) {
        if ts.len() >= 3 {
            Ok(Command::Create { username: copy_bytes(&ts[1]), password: copy_bytes(&ts[2]) })
        } else {
            Err(ParseError::IncompleteCreate)
        }
    } else if bytes_eq(&ts[0], &v_whisper) {
        if ts.len() >= 2 {
            let message = join_spaces(&ts, 2);
            Ok(Command::Whisper { target: copy_bytes(&ts[1]), message })
        } else {
            Err(ParseError::IncompleteWhisper)
        }
    } else if bytes_eq(&ts[0], &v_listall) {
        Ok(Command::ListAll)
    } else if bytes_eq(&ts[0], &v_ping) {
        Ok(Command::Ping)
    } else if bytes_eq(&ts[0], &v_aboutme) {
        Ok(Command::AboutMe)
    } else if bytes_eq(&ts[0], &v_stop) {
        Ok(Command::Stop)
    } else {
        Err(ParseError::UnknownVerb)
    }
}

/// Whether an operator console line is a recognized server command; the
/// only one is `stop`.
pub fn is_command(command: &Vec<u8>) -> (r: bool)
    ensures
        r == (command@ == "stop".spec_bytes()),
{
    let v = "stop".as_bytes_vec();
    bytes_eq(command, &v)
}

/// Client-side verdict on an outgoing `/`-message: forward it to the
/// server, prompt the user for credentials first, or reject it locally.
#[derive(Clone, Copy, Debug, PartialEq, Eq, Structural)]
pub enum ClientCheck {
    Forward,
    AskLogin,
    AskCreate,
    Rejected,
}

/// Client-side validation: `/whisper` needs a target and a message;
/// `/login` and `/create` need exactly a username and a password, and
/// prompt otherwise; the argument-free verbs pass as they are; anything
/// else is rejected locally.
pub open spec fn spec_check_command(message: Seq<u8>) -> ClientCheck {
    let ts = spec_tokens(message);
    if ts.len() == 0 {
        ClientCheck::Rejected
    } else if ts[0] == "/whisper".spec_bytes() {
        if ts.len() >= 3 {
            ClientCheck::Forward
        } else {
            ClientCheck::Rejected
        }
    } else if ts[0] == "/login".spec_bytes() {
        if ts.len() == 3 {
            ClientCheck::Forward
        } else {
            ClientCheck::AskLogin
        }
    } else if ts[0] == "/create".spec_bytes() {
        if ts.len() == 3 {
            ClientCheck::Forward
        } else {
            ClientCheck::AskCreate
        }
    } else if ts[0] == "/ping".spec_bytes() || ts[0] == "/aboutme".spec_bytes() || ts[0]
        == "/listall".spec_bytes() {
        ClientCheck::Forward
    } else {
        ClientCheck::Rejected
    }
}

/// Validate an outgoing command on the client before it is sent.
pub fn check_command(message: &Vec<u8>) -> (r: ClientCheck)
    ensures
        r == spec_check_command(message@),
{
    let ts = tokenize(message);
    if ts.len() == 0 {
        return ClientCheck::Rejected;
    }
    proof {
        assert(ts.deep_view()[0] == ts@[0]@);
    }
    let v_login = "/login".as_bytes_vec();
    let v_create = "/create".as_bytes_vec();
    let v_whisper = "/whisper".as_bytes_vec();
    let v_listall = "/listall".as_bytes_vec();
    let v_ping = "/ping".as_bytes_vec();
    let v_aboutme = "/aboutme".as_bytes_vec();
    if bytes_eq(&ts[0], &v_whisper) {
        if ts.len() >= 3 {
            ClientCheck::Forward
        } else {
            ClientCheck::Rejected
        }
    } else if bytes_eq(&ts[0], &v_login) {
        if ts.len() == 3 {
            ClientCheck::Forward
        } else {
            ClientCheck::AskLogin
        }
    } else if bytes_eq(&ts[0], &v_create) {
        if ts.len() == 3 {
            ClientCheck::Forward
        } else {
            ClientCheck::AskCreate
        }
    } else if bytes_eq(&ts[0], &v_ping) || bytes_eq(&ts[0], &v_aboutme) || bytes_eq(
        &ts[0],
        &v_listall,
    ) {
        ClientCheck::Forward
    } else {
        ClientCheck::Rejected
    }
}

} // verus!
