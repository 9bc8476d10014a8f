use rshell::shellenv::ShellEnv;
use rshell::token::Token;
use rshell::token::tokenize;
use rshell::parse::CommandPart;
use rshell::parse::ExecutionSource;
use rshell::parse::PipeEndpoint;
use rshell::parse::parse_command_chain;

fn empty_env() -> ShellEnv {
    ShellEnv { vars: Vec::new(), pid: 1, shell_name: String::new() }
}

fn env_with(pairs: &[(&str, &str)]) -> ShellEnv {
    ShellEnv {
        vars: pairs.iter().map(|(k, v)| (k.to_string(), v.to_string())).collect(),
        pid: 1,
        shell_name: String::new(),
    }
}

#[test]
fn test_token_redir() {
    let input = "echo 123 >> a.txt ";
    let tokens = tokenize(input, &empty_env());
    let expected_tokens = vec![
        Token::Word("echo".to_string()),
        Token::Word("123".to_string()),
        Token::RedirectAppend,
        Token::Word("a.txt".to_string()),
    ];
    assert_eq!(tokens, expected_tokens);
    let parts = parse_command_chain(tokens).unwrap();
    assert_eq!(parts.len(), 1);
    let CommandPart::Execute { name, args, stdin, stdout } = &parts[0];
    assert_eq!(name, "echo");
    assert_eq!(args, &vec!["123".to_string()]);
    assert_eq!(*stdin, ExecutionSource::Inherit);
    assert_eq!(*stdout, ExecutionSource::File("a.txt".to_string(), true));
}

#[test]
fn test_token_pipe() {
    let input = "echo 123 | cat";
    let tokens = tokenize(input, &empty_env());
    let expected_tokens = vec![
        Token::Word("echo".to_string()),
        Token::Word("123".to_string()),
        Token::Pipe,
        Token::Word("cat".to_string()),
    ];
    assert_eq!(tokens, expected_tokens);
    let parts = parse_command_chain(tokens).unwrap();
    assert_eq!(parts.len(), 2);
    let CommandPart::Execute { name, args, stdin, stdout } = &parts[0];
    assert_eq!(name, "echo");
    assert_eq!(args, &vec!["123".to_string()]);
    assert_eq!(*stdin, ExecutionSource::Inherit);
    assert_eq!(*stdout, ExecutionSource::Pipe(PipeEndpoint::Write));
    let CommandPart::Execute { name, args, stdin, stdout } = &parts[1];
    assert_eq!(name, "cat");
    assert!(args.is_empty());
    assert_eq!(*stdin, ExecutionSource::Pipe(PipeEndpoint::Read));
    assert_eq!(*stdout, ExecutionSource::Inherit);
}

#[test]
fn test_env_expand_basic() {
    let env = env_with(&[("FOO_TEST", "hello")]);
    let input = "echo $FOO_TEST";
    let tokens = tokenize(input, &env);
    let expected_tokens = vec![
        Token::Word("echo".to_string()),
        Token::Word("hello".to_string()),
    ];
    assert_eq!(tokens, expected_tokens);
}

#[test]
fn test_env_expand_braced_and_escape() {
    let env = env_with(&[("BAR_TEST", "world")]);
    let input = "echo ${BAR_TEST} \\$BAR_TEST \\$$BAR_TEST";
    let tokens = tokenize(input, &env);
    let expected_tokens = vec![
        Token::Word("echo".to_string()),
        Token::Word("world".to_string()),
        Token::Word("$BAR_TEST".to_string()),
        Token::Word("$world".to_string()),
    ];
    assert_eq!(tokens, expected_tokens);
}

#[test]
fn words_only_one_per_whitespace_run() {
    let tokens = tokenize("  one  two   three ", &empty_env());
    let expected = vec![
        Token::Word("one".to_string()),
        Token::Word("two".to_string()),
        Token::Word("three".to_string()),
    ];
    assert_eq!(tokens, expected);
}

#[test]
fn quoted_word_keeps_spaces_and_operators() {
    let tokens = tokenize("echo \"a b | c > d\" tail", &empty_env());
    let expected = vec![
        Token::Word("echo".to_string()),
        Token::Word("a b | c > d".to_string()),
        Token::Word("tail".to_string()),
    ];
    assert_eq!(tokens, expected);
}

#[test]
fn operators_split_without_whitespace() {
    let tokens = tokenize("a|b<c>d", &empty_env());
    let expected = vec![
        Token::Word("a".to_string()),
        Token::Pipe,
        Token::Word("b".to_string()),
        Token::RedirectIn,
        Token::Word("c".to_string()),
        Token::RedirectOut,
        Token::Word("d".to_string()),
    ];
    assert_eq!(tokens, expected);
}

#[test]
fn double_greater_is_one_append_token() {
    let tokens = tokenize("a >>b", &empty_env());
    let expected = vec![
        Token::Word("a".to_string()),
        Token::RedirectAppend,
        Token::Word("b".to_string()),
    ];
    assert_eq!(tokens, expected);
}

#[test]
fn expanded_value_is_not_reinterpreted() {
    let env = env_with(&[("WITH_PIPE", "x|y"), ("WITH_SPACE", "a b")]);
    let tokens = tokenize("echo $WITH_PIPE $WITH_SPACE", &env);
    let expected = vec![
        Token::Word("echo".to_string()),
        Token::Word("x|y".to_string()),
        Token::Word("a b".to_string()),
    ];
    assert_eq!(tokens, expected);
}

#[test]
fn pid_and_shell_name_expand() {
    let env = ShellEnv { vars: Vec::new(), pid: 42, shell_name: "sh".to_string() };
    let tokens = tokenize("echo $$ $0", &env);
    let expected = vec![
        Token::Word("echo".to_string()),
        Token::Word("42".to_string()),
        Token::Word("sh".to_string()),
    ];
    assert_eq!(tokens, expected);
}

#[test]
fn unrecognized_dollar_forms_stay_literal() {
    let tokens = tokenize("echo $5 $-x $", &empty_env());
    let expected = vec![
        Token::Word("echo".to_string()),
        Token::Word("$5".to_string()),
        Token::Word("$-x".to_string()),
        Token::Word("$".to_string()),
    ];
    assert_eq!(tokens, expected);
}

#[test]
fn unset_variable_expands_to_nothing() {
    let tokens = tokenize("echo ${NOT_SET_ANYWHERE}", &empty_env());
    let expected = vec![Token::Word("echo".to_string())];
    assert_eq!(tokens, expected);
}

#[test]
fn unclosed_brace_consumes_to_end_of_line() {
    let env = env_with(&[("TAIL", "rest of line")]);
    let tokens = tokenize("echo ${TAIL", &env);
    let expected = vec![
        Token::Word("echo".to_string()),
        Token::Word("rest of line".to_string()),
    ];
    assert_eq!(tokens, expected);
    let tokens = tokenize("echo ${TAIL_UNSET x y", &empty_env());
    let expected = vec![Token::Word("echo".to_string())];
    assert_eq!(tokens, expected);
}

#[test]
fn retokenizing_plain_word_is_identity() {
    let env = env_with(&[("X", "plain_word.txt")]);
    let tokens = tokenize("echo $X", &env);
    assert_eq!(tokens.len(), 2);
    let Token::Word(text) = &tokens[1] else {
        panic!("expected a word");
    };
    let again = tokenize(text, &empty_env());
    assert_eq!(again, vec![Token::Word(text.clone())]);
}

#[test]
fn empty_and_blank_lines_yield_no_tokens() {
    assert_eq!(tokenize("", &empty_env()), Vec::<Token>::new());
    assert_eq!(tokenize("   ", &empty_env()), Vec::<Token>::new());
}

#[test]
fn backslash_without_dollar_is_literal() {
    let tokens = tokenize("a\\b \\", &empty_env());
    let expected = vec![
        Token::Word("a\\b".to_string()),
        Token::Word("\\".to_string()),
    ];
    assert_eq!(tokens, expected);
}

#[test]
fn expand_env_vars_returns_expanded_text() {
    let env = env_with(&[("GREET", "hi")]);
    let out = rshell::expand_env_vars("say $GREET now", &env);
    assert_eq!(out, "say hi now");
}

#[test]
fn dec_string_exact_values() {
    assert_eq!(rshell::strutil::dec_string(0), "0");
    assert_eq!(rshell::strutil::dec_string(7), "7");
    assert_eq!(rshell::strutil::dec_string(1234567890), "1234567890");
    assert_eq!(rshell::strutil::dec_string(u64::MAX), "18446744073709551615");
}
