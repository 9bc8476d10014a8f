use rshell::parse::CommandPart;
use rshell::parse::ExecutionSource;
use rshell::parse::ParseError;
use rshell::parse::PipeEndpoint;
use rshell::parse::parse_command_chain;
use rshell::token::Token;

fn word(s: &str) -> Token {
    Token::Word(s.to_string())
}

#[test]
fn empty_token_sequence_yields_empty_plan() {
    let parts = parse_command_chain(Vec::new()).unwrap();
    assert!(parts.is_empty());
}

#[test]
fn trailing_pipe_is_an_error_with_no_units() {
    let res = parse_command_chain(vec![word("echo"), word("hi"), Token::Pipe]);
    assert_eq!(res.unwrap_err(), ParseError::MissingCommand);
}

#[test]
fn redirect_without_filename_is_an_error() {
    let res = parse_command_chain(vec![word("echo"), Token::RedirectOut]);
    assert_eq!(res.unwrap_err(), ParseError::MissingRedirectTarget);
    let res = parse_command_chain(vec![word("echo"), Token::RedirectOut, Token::Pipe, word("x")]);
    assert_eq!(res.unwrap_err(), ParseError::MissingRedirectTarget);
    let res = parse_command_chain(vec![word("cat"), Token::RedirectIn]);
    assert_eq!(res.unwrap_err(), ParseError::MissingRedirectTarget);
    let res = parse_command_chain(vec![word("cat"), Token::RedirectAppend]);
    assert_eq!(res.unwrap_err(), ParseError::MissingRedirectTarget);
}

#[test]
fn operator_before_any_command_is_an_error() {
    let res = parse_command_chain(vec![Token::Pipe, word("cat")]);
    assert_eq!(res.unwrap_err(), ParseError::MissingCommand);
    let res = parse_command_chain(vec![Token::RedirectOut, word("f"), word("cmd")]);
    assert_eq!(res.unwrap_err(), ParseError::MissingCommand);
}

#[test]
fn lone_pipe_is_an_error() {
    let res = parse_command_chain(vec![Token::Pipe]);
    assert_eq!(res.unwrap_err(), ParseError::MissingCommand);
}

#[test]
fn error_messages_name_the_cause() {
    assert_eq!(
        ParseError::MissingCommand.message(),
        "command expected next to an operator"
    );
    assert_eq!(
        ParseError::MissingRedirectTarget.message(),
        "redirection must be followed by a filename"
    );
}

#[test]
fn redirections_attach_to_current_command_and_last_wins() {
    let parts = parse_command_chain(vec![
        word("sort"),
        Token::RedirectOut,
        word("first.txt"),
        Token::RedirectAppend,
        word("second.txt"),
        Token::RedirectIn,
        word("input.txt"),
        word("-r"),
    ])
    .unwrap();
    assert_eq!(parts.len(), 1);
    let CommandPart::Execute { name, args, stdin, stdout } = &parts[0];
    assert_eq!(name, "sort");
    assert_eq!(args, &vec!["-r".to_string()]);
    assert_eq!(*stdin, ExecutionSource::File("input.txt".to_string(), false));
    assert_eq!(*stdout, ExecutionSource::File("second.txt".to_string(), true));
}

#[test]
fn three_stage_chain_pairs_both_pipe_boundaries() {
    let parts = parse_command_chain(vec![
        word("cat"),
        word("f"),
        Token::Pipe,
        word("grep"),
        word("x"),
        Token::Pipe,
        word("wc"),
    ])
    .unwrap();
    assert_eq!(parts.len(), 3);
    let mut inherit_stdin = 0;
    let mut inherit_stdout = 0;
    let mut write_ends = 0;
    let mut read_ends = 0;
    for part in &parts {
        let CommandPart::Execute { stdin, stdout, .. } = part;
        if *stdin == ExecutionSource::Inherit {
            inherit_stdin += 1;
        }
        if *stdout == ExecutionSource::Inherit {
            inherit_stdout += 1;
        }
        if *stdout == ExecutionSource::Pipe(PipeEndpoint::Write) {
            write_ends += 1;
        }
        if *stdin == ExecutionSource::Pipe(PipeEndpoint::Read) {
            read_ends += 1;
        }
    }
    assert_eq!((inherit_stdin, inherit_stdout), (1, 1));
    assert_eq!((write_ends, read_ends), (2, 2));
    let CommandPart::Execute { stdin, .. } = &parts[0];
    assert_eq!(*stdin, ExecutionSource::Inherit);
    let CommandPart::Execute { stdout, .. } = &parts[2];
    assert_eq!(*stdout, ExecutionSource::Inherit);
    let CommandPart::Execute { stdout, .. } = &parts[0];
    assert_eq!(*stdout, ExecutionSource::Pipe(PipeEndpoint::Write));
    let CommandPart::Execute { stdin, stdout, .. } = &parts[1];
    assert_eq!(*stdin, ExecutionSource::Pipe(PipeEndpoint::Read));
    assert_eq!(*stdout, ExecutionSource::Pipe(PipeEndpoint::Write));
    let CommandPart::Execute { stdin, .. } = &parts[2];
    assert_eq!(*stdin, ExecutionSource::Pipe(PipeEndpoint::Read));
}

#[test]
fn redirect_may_overwrite_a_pipe_read_end() {
    let parts = parse_command_chain(vec![
        word("a"),
        Token::Pipe,
        word("b"),
        Token::RedirectIn,
        word("f"),
    ])
    .unwrap();
    assert_eq!(parts.len(), 2);
    let CommandPart::Execute { stdin, .. } = &parts[1];
    assert_eq!(*stdin, ExecutionSource::File("f".to_string(), false));
}
