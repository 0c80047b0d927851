use chatcore::command::{
    check_command, is_command, parse_command, ClientCheck, Command, ParseError,
};

fn bytes(s: &str) -> Vec<u8> {
    s.as_bytes().to_vec()
}

#[test]
fn parse_login_with_both_arguments() {
    match parse_command(&bytes("/login alice secret")) {
        Ok(Command::Login { username, password }) => {
            assert_eq!(username, bytes("alice"));
            assert_eq!(password, bytes("secret"));
        }
        _ => panic!("expected a login command"),
    }
}

#[test]
fn parse_login_missing_arguments() {
    assert!(matches!(
        parse_command(&bytes("/login alice")),
        Err(ParseError::IncompleteLogin)
    ));
    assert!(matches!(
        parse_command(&bytes("/create")),
        Err(ParseError::IncompleteCreate)
    ));
    assert!(matches!(
        parse_command(&bytes("/whisper")),
        Err(ParseError::IncompleteWhisper)
    ));
}

#[test]
fn parse_whisper_joins_message_tokens() {
    match parse_command(&bytes("/whisper bob hello over there")) {
        Ok(Command::Whisper { target, message }) => {
            assert_eq!(target, bytes("bob"));
            assert_eq!(message, bytes("hello over there"));
        }
        _ => panic!("expected a whisper command"),
    }
}

#[test]
fn parse_whisper_collapses_extra_whitespace() {
    match parse_command(&bytes("/whisper  bob   hi \t you")) {
        Ok(Command::Whisper { target, message }) => {
            assert_eq!(target, bytes("bob"));
            assert_eq!(message, bytes("hi you"));
        }
        _ => panic!("expected a whisper command"),
    }
}

#[test]
fn parse_whisper_with_no_message_is_empty() {
    match parse_command(&bytes("/whisper bob")) {
        Ok(Command::Whisper { target, message }) => {
            assert_eq!(target, bytes("bob"));
            assert_eq!(message, bytes(""));
        }
        _ => panic!("expected a whisper command"),
    }
}

#[test]
fn parse_argument_free_verbs() {
    assert!(matches!(parse_command(&bytes("/ping")), Ok(Command::Ping)));
    assert!(matches!(parse_command(&bytes("/listall")), Ok(Command::ListAll)));
    assert!(matches!(parse_command(&bytes("/aboutme")), Ok(Command::AboutMe)));
    assert!(matches!(parse_command(&bytes("/stop")), Ok(Command::Stop)));
    // extra tokens are ignored
    assert!(matches!(parse_command(&bytes("/ping now")), Ok(Command::Ping)));
}

#[test]
fn parse_rejects_unknown_verbs() {
    assert!(matches!(
        parse_command(&bytes("/dance")),
        Err(ParseError::UnknownVerb)
    ));
    assert!(matches!(parse_command(&bytes("/")), Err(ParseError::UnknownVerb)));
    assert!(matches!(parse_command(&bytes("")), Err(ParseError::UnknownVerb)));
}

#[test]
fn is_command_accepts_only_stop() {
    assert!(is_command(&bytes("stop")));
    assert!(!is_command(&bytes("Stop")));
    assert!(!is_command(&bytes("stop ")));
    assert!(!is_command(&bytes("quit")));
    assert!(!is_command(&bytes("")));
}

#[test]
fn check_command_validates_whisper_arity() {
    assert_eq!(check_command(&bytes("/whisper bob hi")), ClientCheck::Forward);
    assert_eq!(check_command(&bytes("/whisper bob")), ClientCheck::Rejected);
}

#[test]
fn check_command_prompts_for_credentials() {
    assert_eq!(check_command(&bytes("/login alice secret")), ClientCheck::Forward);
    assert_eq!(check_command(&bytes("/login")), ClientCheck::AskLogin);
    assert_eq!(check_command(&bytes("/create")), ClientCheck::AskCreate);
    assert_eq!(
        check_command(&bytes("/create alice secret extra")),
        ClientCheck::AskCreate
    );
}

#[test]
fn check_command_forwards_argument_free_verbs() {
    assert_eq!(check_command(&bytes("/ping")), ClientCheck::Forward);
    assert_eq!(check_command(&bytes("/aboutme")), ClientCheck::Forward);
    assert_eq!(check_command(&bytes("/listall")), ClientCheck::Forward);
}

#[test]
fn check_command_rejects_unknown_and_stop() {
    assert_eq!(check_command(&bytes("/quit")), ClientCheck::Rejected);
    // clients may not stop the server
    assert_eq!(check_command(&bytes("/stop")), ClientCheck::Rejected);
}
