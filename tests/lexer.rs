use klntsky_shell::shell::{shell_string, shell_token_parser, shell_token_parser_impl, ShellString, ShellToken, StringComponent};
use klntsky_shell::shell::ShellString::{WithInterpolation, WithoutInterpolation};
use klntsky_shell::shell::StringComponent::{StringLiteral, VariableName};
use klntsky_shell::shell::ShellToken::{Assign, Pipe, StringToken};

fn check_string(input: &str, expected: ShellString, expected_remaining: &str) {
    let (val, remaining) = shell_string(input).unwrap();
    assert_eq!(remaining, expected_remaining);
    assert_eq!(val, expected);
}

fn check_tokens(input: &str, expected: Vec<ShellToken>, expected_remaining: &str) {
    let (val, remaining) = shell_token_parser_impl(input).unwrap();
    assert_eq!(remaining, expected_remaining);
    assert_eq!(val, expected);
}

fn word(s: &str) -> ShellToken {
    StringToken(WithInterpolation(vec![StringLiteral(s.to_string())]))
}

#[test]
fn test_shell_string_parser() {
    check_string("''", WithoutInterpolation("".to_string()), "");
    check_string("\"\"", WithInterpolation(vec![]), "");
    check_string("\"asd bsd\"", WithInterpolation(vec![StringLiteral("asd bsd".to_string())]), "");
    check_string("\"\\\"\"", WithInterpolation(vec![StringLiteral("\"".to_string())]), "");
    check_string("\"\\$foo\"", WithInterpolation(vec![StringLiteral("$foo".to_string())]), "");
    check_string(
        "\"$foo$bar\"",
        WithInterpolation(vec![VariableName("foo".to_string()), VariableName("bar".to_string())]),
        "",
    );
    check_string(
        "\"$foo $bar\"",
        WithInterpolation(vec![
            VariableName("foo".to_string()),
            StringLiteral(" ".to_string()),
            VariableName("bar".to_string()),
        ]),
        "",
    );
}

#[test]
fn test_token_parser() {
    check_tokens("|", vec![Pipe], "");
    check_tokens("| |", vec![Pipe, Pipe], "");
    check_tokens("FILE=example.txt", vec![word("FILE"), Assign, word("example.txt")], "");
    check_tokens("echo echo", vec![word("echo"), word("echo")], "");
    check_tokens("echo \"asd\" | wc", vec![word("echo"), word("asd"), Pipe, word("wc")], "");
}

#[test]
fn lexer_leaves_trailing_text_unread() {
    check_tokens("echo >", vec![word("echo")], " >");
    check_string("abc def", WithInterpolation(vec![StringLiteral("abc".to_string())]), " def");
}

#[test]
fn single_quotes_keep_backslashes_and_dollars() {
    check_string("'a\\b $x'", WithoutInterpolation("a\\b $x".to_string()), "");
    check_string("'it\\'s'", WithoutInterpolation("it's".to_string()), "");
}

#[test]
fn unquoted_word_mixes_text_and_variables() {
    check_string(
        "a$b.c$d1-e",
        WithInterpolation(vec![
            StringLiteral("a".to_string()),
            VariableName("b".to_string()),
            StringLiteral(".c".to_string()),
            VariableName("d1".to_string()),
            StringLiteral("-e".to_string()),
        ]),
        "",
    );
}

#[test]
fn malformed_strings_fail() {
    assert!(shell_string("\"abc").is_err());
    assert!(shell_string("\"\\n\"").is_err());
    assert!(shell_string("\"$\"").is_err());
    assert!(shell_string("'abc").is_err());
    assert!(shell_string("|").is_err());
}

#[test]
fn whole_line_lexing() {
    assert_eq!(shell_token_parser("").unwrap(), vec![]);
    assert_eq!(shell_token_parser("   ").unwrap(), vec![]);
    assert_eq!(shell_token_parser("echo a   ").unwrap(), vec![word("echo"), word("a")]);
    assert_eq!(shell_token_parser("a|b").unwrap(), vec![word("a"), Pipe, word("b")]);
    assert!(shell_token_parser("echo >").is_err());
    assert!(shell_token_parser("echo \"a").is_err());
    let comp: StringComponent = VariableName("x".to_string());
    assert_eq!(
        shell_token_parser("cat $x").unwrap(),
        vec![word("cat"), StringToken(WithInterpolation(vec![comp]))]
    );
}

#[test]
fn unicode_whitespace_separates_tokens() {
    assert_eq!(shell_token_parser("echo\u{a0}a\u{3000}").unwrap(), vec![word("echo"), word("a")]);
    assert_eq!(shell_token_parser("echo\ta").unwrap(), vec![word("echo"), word("a")]);
}

#[test]
fn adjacent_tokens_need_whitespace() {
    assert!(shell_token_parser("echo \"a\"\"b\"").is_err());
    assert!(shell_token_parser("echo a'b'").is_err());
    assert!(shell_token_parser_impl("\"a\"b").is_err());
    assert_eq!(shell_token_parser("\"a\"|b").unwrap().len(), 3);
    assert_eq!(shell_token_parser("x='y'").unwrap().len(), 3);
}
