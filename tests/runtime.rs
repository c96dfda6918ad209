use klntsky_shell::builtins::{decimal_bytes, get_stats, child_environment, FileRead};
use klntsky_shell::command::Command;
use klntsky_shell::environment::Env;
use klntsky_shell::grep::grep_select;
use klntsky_shell::runtime::{StageInput, StageRequest};
use klntsky_shell::runtime_mock::RuntimeMock;
use klntsky_shell::shell::ShellString::WithInterpolation;
use klntsky_shell::shell::StringComponent::{StringLiteral, VariableName};

fn strings(v: &[&str]) -> Vec<String> {
    v.iter().map(|x| x.to_string()).collect()
}

fn run(rt: &mut RuntimeMock, line: &str) -> Option<String> {
    let (out, exit) = rt.run_line(line);
    assert!(!exit);
    out
}

fn with_file(name: &str, text: &str) -> RuntimeMock {
    let mut rt = RuntimeMock::new();
    rt.add_file(name.to_string(), text.to_string());
    rt
}

#[test]
fn test_runtime_string_interpolation() {
    let mut env = Env::new();
    env.declare("foo".to_string(), "bar".to_string());
    let tmp = env.expand_string(WithInterpolation(vec![
        StringLiteral("bar".to_string()),
        VariableName("foo".to_string()),
        StringLiteral("bruh".to_string()),
        VariableName("blah".to_string()),
    ]));
    assert_eq!(tmp, "barbarbruh");
}

#[test]
fn test_runtime_echo_wc() {
    let mut env = Env::new();
    env.interpret_command(&Command::ECHO(strings(&["a", "a"])), StageInput::Nothing);
    assert_eq!(env.stdin.len(), 3);
    env.interpret_command(&Command::WC(vec![]), StageInput::Nothing);
    assert_eq!(String::from_utf8(env.stdin.clone()).unwrap(), "\t1\t2\t3\n".to_string());
    env.interpret_command(&Command::ECHO(strings(&["a\n b"])), StageInput::Nothing);
    env.interpret_command(&Command::WC(vec![]), StageInput::Nothing);
    assert_eq!(String::from_utf8(env.stdin.clone()).unwrap(), "\t2\t2\t4\n".to_string());
}

#[test]
fn test_args() {
    let mut args = dia_args::parse_strings(["foo", "-i"].iter()).unwrap();
    match args.take::<bool>(&["-i"]) {
        Ok(Some(true)) => {}
        _ => panic!("fail"),
    }
    let mut args = dia_args::parse_strings(["foo"].iter()).unwrap();
    match args.take::<bool>(&["-i"]) {
        Ok(None) => {}
        _ => panic!("fail"),
    }
}

#[test]
fn variables_expand_in_lines() {
    let mut rt = RuntimeMock::new();
    rt.env.declare("foo".to_string(), "bar".to_string());
    assert_eq!(run(&mut rt, "echo \"$foo\""), Some("bar".to_string()));
    assert_eq!(run(&mut rt, "echo \"bar$foo bruh$blah\""), Some("barbar bruh".to_string()));
    assert_eq!(run(&mut rt, "echo $nothing"), Some("".to_string()));
    assert_eq!(run(&mut rt, "echo '$foo'"), Some("$foo".to_string()));
}

#[test]
fn echo_pipelines_print_last_words() {
    let mut rt = RuntimeMock::new();
    assert_eq!(run(&mut rt, "echo a b | echo c   d"), Some("c d".to_string()));
    assert_eq!(run(&mut rt, "echo"), Some("".to_string()));
    assert_eq!(run(&mut rt, "echo x|echo|echo y z"), Some("y z".to_string()));
}

#[test]
fn wc_counts() {
    let s = get_stats(&b"a a".to_vec());
    assert_eq!((s.lines, s.words, s.bytes), (1, 2, 3));
    let s = get_stats(&vec![]);
    assert_eq!((s.lines, s.words, s.bytes), (1, 0, 0));
    let s = get_stats(&b"  a".to_vec());
    assert_eq!((s.lines, s.words, s.bytes), (1, 2, 3));
    let s = get_stats(&b"a   b".to_vec());
    assert_eq!((s.lines, s.words, s.bytes), (1, 3, 5));
    let s = get_stats(&b" a".to_vec());
    assert_eq!((s.lines, s.words, s.bytes), (1, 2, 2));
    assert_eq!(decimal_bytes(120), b"120".to_vec());
    assert_eq!(decimal_bytes(0), b"0".to_vec());
    let mut rt = RuntimeMock::new();
    assert_eq!(run(&mut rt, "echo a a | wc"), Some("\t1\t2\t3\n".to_string()));
    assert_eq!(run(&mut rt, "echo \"a\n b\" | wc"), Some("\t2\t2\t4\n".to_string()));
}

#[test]
fn wc_on_files() {
    let mut rt = with_file("a.txt", "hello\n");
    assert_eq!(run(&mut rt, "wc a.txt"), Some("\t2\t1\t6\n".to_string()));
    assert_eq!(
        run(&mut rt, "wc a.txt b.txt"),
        Some("\t2\t1\t6\ta.txt\nwc: No such file: b.txt\n".to_string())
    );
}

#[test]
fn cat_missing_file() {
    let mut rt = with_file("a.txt", "hello\n");
    assert_eq!(run(&mut rt, "cat nope"), Some("No such file: nope\n".to_string()));
    assert_eq!(run(&mut rt, "cat a.txt nope a.txt"), Some("hello\nNo such file: nope\nhello\n".to_string()));
}

#[test]
fn assignments_reach_later_lines() {
    let mut rt = RuntimeMock::new();
    assert_eq!(run(&mut rt, "X=1"), Some("".to_string()));
    assert_eq!(run(&mut rt, "echo $X"), Some("1".to_string()));
    assert_eq!(run(&mut rt, "X=2 | echo $X"), Some("1".to_string()));
    assert_eq!(run(&mut rt, "echo $X"), Some("2".to_string()));
    assert_eq!(rt.env.lookup_variable("X".to_string()), Some("2".to_string()));
    assert_eq!(rt.env.lookup_variable("Y".to_string()), None);
}

#[test]
fn other_stages() {
    let mut rt = RuntimeMock::new();
    assert_eq!(run(&mut rt, "pwd"), Some("/".to_string()));
    assert_eq!(run(&mut rt, "ls -l"), Some("No such command: ls".to_string()));
    assert_eq!(run(&mut rt, "echo \"a"), Some("No parse!".to_string()));
    assert_eq!(run(&mut rt, "echo a |"), Some("No parse!".to_string()));
    assert_eq!(run(&mut rt, "echo \"a\"\"b\""), Some("No parse!".to_string()));
    assert_eq!(run(&mut rt, "FOO = bar"), Some("".to_string()));
    assert_eq!(run(&mut rt, "echo $FOO"), Some("bar".to_string()));
    assert_eq!(run(&mut rt, "echo = x"), Some("".to_string()));
    assert_eq!(run(&mut rt, "echo $echo"), Some("x".to_string()));
    assert_eq!(rt.run_line("echo a | exit"), (None, true));
}

#[test]
fn grep_stages() {
    let mut rt = with_file("f", "foo\nbar\nFoo bar\nbaz\n");
    assert_eq!(run(&mut rt, "cat f | grep foo"), Some("foo\n".to_string()));
    assert_eq!(run(&mut rt, "grep -i foo f"), Some("foo\nFoo bar\n".to_string()));
    assert_eq!(run(&mut rt, "grep -A 2 foo f"), Some("foo\nbar\n".to_string()));
    assert_eq!(run(&mut rt, "grep -w ba f"), Some("".to_string()));
    assert_eq!(run(&mut rt, "grep -w bar f"), Some("bar\nFoo bar\n".to_string()));
    assert_eq!(run(&mut rt, "grep foo missing"), Some("grep: No such file: missing\n".to_string()));
    assert_eq!(run(&mut rt, "echo ab | grep a"), Some("ab".to_string()));
    assert_eq!(run(&mut rt, "echo a b | grep -w b"), Some("a b".to_string()));
    assert_eq!(run(&mut rt, "grep a b c"), Some("grep: incorrect arguments!".to_string()));
    assert_eq!(
        run(&mut rt, "grep \"(\" f"),
        Some("grep: incorrect regexp! see https://docs.rs/regex/1.3.4/regex/#syntax".to_string())
    );
}

#[test]
fn grep_selection() {
    let h = "ab\ncd\nef".to_string();
    assert_eq!(grep_select(&h, &vec![(3, 4)], false, 1), b"cd\n".to_vec());
    assert_eq!(grep_select(&h, &vec![(3, 4)], false, 2), b"cd\nef".to_vec());
    assert_eq!(grep_select(&h, &vec![(3, 4)], true, 1), b"".to_vec());
    assert_eq!(grep_select(&h, &vec![(3, 5)], true, 1), b"cd\n".to_vec());
    assert_eq!(grep_select(&h, &vec![], false, 1), b"".to_vec());
    let accented = "caf\u{e9} x\nabc".to_string();
    assert_eq!(grep_select(&accented, &vec![(0, 3)], true, 1), b"".to_vec());
    assert_eq!(grep_select(&accented, &vec![(0, 5)], true, 1), "caf\u{e9} x\n".as_bytes().to_vec());
}

#[test]
fn stage_requests() {
    let mut env = Env::new();
    env.declare("A".to_string(), "1".to_string());
    env.stdin = b"in".to_vec();
    match env.stage_request(&Command::EXTERNAL(strings(&["prog", "x"]))) {
        StageRequest::Spawn { program, args, overrides, input } => {
            assert_eq!(program, "prog");
            assert_eq!(args, strings(&["x"]));
            assert_eq!(overrides, vec![("A".to_string(), "1".to_string())]);
            assert_eq!(input, b"in".to_vec());
        }
        other => panic!("{:?}", other),
    }
    assert_eq!(env.stage_request(&Command::PWD), StageRequest::CurrentDir);
    assert_eq!(env.stage_request(&Command::ECHO(vec![])), StageRequest::Nothing);
    let exit = env.interpret_command(
        &Command::EXTERNAL(strings(&["prog"])),
        StageInput::Output(Some(strings(&["x", "y"]))),
    );
    assert!(!exit);
    assert_eq!(env.stdin, b"x\ny\n".to_vec());
    assert!(!env.should_print);
    env.interpret_command(&Command::CAT(strings(&["a", "b"])), StageInput::Files(vec![FileRead::Unreadable]));
    assert_eq!(env.stdin, b"Can't read file\nCan't read file\n".to_vec());
    assert!(env.should_print);
}

#[test]
fn environment_and_text_helpers() {
    let inherited = vec![("A".to_string(), "0".to_string()), ("B".to_string(), "0".to_string())];
    let shell = vec![("A".to_string(), "1".to_string())];
    let merged = child_environment(&inherited, &shell);
    let last_a = merged.iter().rev().find(|(k, _)| k == "A").unwrap();
    assert_eq!(last_a.1, "1");
    let mut env = Env::new();
    env.stdin = vec![0xff];
    assert_eq!(env.take_output(), Some("Output can't be decoded as utf-8.".to_string()));
    assert!(env.stdin.is_empty());
    env.stdin = "h\u{e9}".as_bytes().to_vec();
    assert_eq!(env.take_output(), Some("h\u{e9}".to_string()));
    env.should_print = false;
    env.stdin = b"x".to_vec();
    assert_eq!(env.take_output(), None);
}
