use klntsky_shell::command::{command_parser, commands_parser, Command, ExpandedShellToken};
use klntsky_shell::command::ExpandedShellToken::{Assign, Pipe, StringToken};

fn s(x: &str) -> ExpandedShellToken {
    StringToken(x.to_string())
}

fn strings(v: &[&str]) -> Vec<String> {
    v.iter().map(|x| x.to_string()).collect()
}

#[test]
fn test_command_parser() {
    assert_eq!(
        command_parser(&vec![s("cat"), s("foo"), s("bar")]).unwrap(),
        Command::CAT(vec!["foo".to_string(), "bar".to_string()])
    );
    assert_eq!(
        command_parser(&vec![s("time"), s("ls")]).unwrap(),
        Command::EXTERNAL(vec!["time".to_string(), "ls".to_string()])
    );
}

#[test]
fn pipe_alone_does_not_parse() {
    assert!(commands_parser(&vec![Pipe]).is_err());
    assert!(commands_parser(&vec![]).is_err());
    assert!(commands_parser(&vec![s("echo"), Pipe]).is_err());
    assert!(commands_parser(&vec![Pipe, s("echo")]).is_err());
    assert!(commands_parser(&vec![s("echo"), Pipe, Pipe, s("wc")]).is_err());
}

#[test]
fn echo_piped_to_wc() {
    assert_eq!(
        commands_parser(&vec![s("echo"), s("a"), Pipe, s("wc")]).unwrap(),
        vec![Command::ECHO(strings(&["a"])), Command::WC(vec![])]
    );
}

#[test]
fn assignment_comes_first() {
    assert_eq!(
        commands_parser(&vec![s("FOO"), Assign, s("bar")]).unwrap(),
        vec![Command::SET("FOO".to_string(), "bar".to_string())]
    );
    assert_eq!(
        commands_parser(&vec![s("cat"), Assign, s("x")]).unwrap(),
        vec![Command::SET("cat".to_string(), "x".to_string())]
    );
    assert!(commands_parser(&vec![s("a"), Assign, s("b"), s("c")]).is_err());
    assert!(commands_parser(&vec![Assign, s("b")]).is_err());
}

#[test]
fn builtin_arguments() {
    assert!(commands_parser(&vec![s("cat")]).is_err());
    assert!(commands_parser(&vec![s("grep")]).is_err());
    assert!(commands_parser(&vec![s("pwd"), s("x")]).is_err());
    assert!(commands_parser(&vec![s("exit"), s("x")]).is_err());
    assert_eq!(commands_parser(&vec![s("pwd")]).unwrap(), vec![Command::PWD]);
    assert_eq!(commands_parser(&vec![s("exit")]).unwrap(), vec![Command::EXIT]);
    assert_eq!(commands_parser(&vec![s("echo")]).unwrap(), vec![Command::ECHO(vec![])]);
    assert_eq!(
        commands_parser(&vec![s("grep"), s("-i"), s("x")]).unwrap(),
        vec![Command::GREP(strings(&["-i", "x"]))]
    );
    assert_eq!(commands_parser(&vec![s("Cat"), s("f")]).unwrap(), vec![Command::EXTERNAL(strings(&["Cat", "f"]))]);
}
