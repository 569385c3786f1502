use vonal::command::{Command, CommandParseError, CommandParseResult};

fn words(ws: &[&str]) -> Vec<String> {
    ws.iter().map(|w| w.to_string()).collect()
}

#[test]
fn parses_commands_in_order() {
    let r = CommandParseResult::from_tokens(&words(&["show", "set_query", "fire fox", "toggle", "hide"]));
    let commands = match r.0 {
        Ok(c) => c.0,
        Err(_) => panic!("expected commands"),
    };
    assert_eq!(commands.len(), 4);
    assert!(matches!(commands[0], Command::Show));
    assert!(matches!(&commands[1], Command::SetQuery { query } if query == "fire fox"));
    assert!(matches!(commands[2], Command::Toggle));
    assert!(matches!(commands[3], Command::Hide));
}

#[test]
fn no_words_no_commands() {
    let r = CommandParseResult::from_tokens(&vec![]);
    assert!(matches!(r.0, Ok(c) if c.0.is_empty()));
}

#[test]
fn unknown_command_is_reported() {
    let r = CommandParseResult::from_tokens(&words(&["show", "jump", "hide"]));
    assert!(matches!(r.0, Err(CommandParseError::UnknownCommand { command }) if command == "jump"));
}

#[test]
fn set_query_without_argument() {
    let r = CommandParseResult::from_tokens(&words(&["show", "set_query"]));
    assert!(matches!(r.0, Err(CommandParseError::EmptyArgument)));
}
