use vault::cmdline::{advance_while, parse_lp_cmd_line};

fn parse(s: &str) -> Vec<String> {
    parse_lp_cmd_line(&s.to_string())
}

fn args(v: &[&str]) -> Vec<String> {
    v.iter().map(|s| s.to_string()).collect()
}

#[test]
fn parse_plain_arguments() {
    assert_eq!(parse("scan"), args(&["", "scan"]));
    assert_eq!(parse("search --tags cat"), args(&["", "search", "--tags", "cat"]));
}

#[test]
fn parse_empty_and_blank_lines() {
    assert_eq!(parse(""), args(&[""]));
    assert_eq!(parse("   \t "), args(&[""]));
    assert_eq!(parse("  a"), args(&["", "a"]));
    assert_eq!(parse("a  "), args(&["", "a"]));
}

#[test]
fn parse_collapses_separators() {
    assert_eq!(parse("a \t b"), args(&["", "a", "b"]));
    assert_eq!(parse("a\t\t\tb"), args(&["", "a", "b"]));
}

#[test]
fn parse_quoted_spans_keep_blanks() {
    assert_eq!(parse("\"a b\""), args(&["", "a b"]));
    assert_eq!(parse("x \"a\tb\" y"), args(&["", "x", "a\tb", "y"]));
}

#[test]
fn parse_quote_toggles_inside_token() {
    assert_eq!(parse("a\"b c\"d"), args(&["", "ab cd"]));
    assert_eq!(parse("a\"\"b"), args(&["", "ab"]));
}

#[test]
fn parse_doubled_quote_inside_quotes() {
    assert_eq!(parse("\"a\"\"b\""), args(&["", "a\"b"]));
}

#[test]
fn parse_empty_quoted_argument() {
    assert_eq!(parse("\"\""), args(&["", ""]));
    assert_eq!(parse("\"\" x"), args(&["", "", "x"]));
}

#[test]
fn parse_unterminated_quote_emits_argument() {
    assert_eq!(parse("\"ab"), args(&["", "ab"]));
    assert_eq!(parse("a\""), args(&["", "a"]));
}

#[test]
fn parse_backslashes_before_quote_halve() {
    // One backslash escapes the quote.
    assert_eq!(parse("\\\""), args(&["", "\""]));
    // Two backslashes become one; the quote acts (and stays unclosed).
    assert_eq!(parse("\\\\\""), args(&["", "\\"]));
    // Three become one plus a literal quote.
    assert_eq!(parse("\\\\\\\""), args(&["", "\\\""]));
}

#[test]
fn parse_backslashes_without_quote_are_literal() {
    assert_eq!(parse("a\\b"), args(&["", "a\\b"]));
    assert_eq!(parse("a\\\\b"), args(&["", "a\\\\b"]));
    assert_eq!(parse("tail\\\\"), args(&["", "tail\\\\"]));
    assert_eq!(parse("\\ x"), args(&["", "\\", "x"]));
}

#[test]
fn advance_while_counts_prefix() {
    let s = "   abc";
    assert_eq!(advance_while(s, 0, |c: char| c == ' '), 3);
    assert_eq!(advance_while(s, 3, |c: char| c == ' '), 0);
    assert_eq!(advance_while("aaa", 0, |c: char| c == 'a'), 3);
    assert_eq!(advance_while("", 0, |c: char| c == 'a'), 0);
}
