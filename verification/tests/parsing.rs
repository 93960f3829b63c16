use ws_s::utils::{
    parse_arguments, replace_full_width_spaces_to_half_width_spaces_if_not_in_quotes,
};

fn args(input: &str) -> Vec<String> {
    parse_arguments(input).unwrap()
}

#[test]
fn arguments_are_separated_by_spaces() {
    assert_eq!(args("/list socket"), vec!["/list", "socket"]);
    assert_eq!(args("  a   b  "), vec!["a", "b"]);
    assert_eq!(args(""), Vec::<String>::new());
    assert_eq!(args("   "), Vec::<String>::new());
    assert_eq!(args("one"), vec!["one"]);
}

#[test]
fn quotes_keep_spaces_and_are_dropped() {
    assert_eq!(args("say \"hello world\""), vec!["say", "hello world"]);
    assert_eq!(args("say 'hello world' now"), vec!["say", "hello world", "now"]);
    assert_eq!(args("a\"b c\"d"), vec!["ab cd"]);
}

#[test]
fn a_quote_of_the_other_kind_is_part_of_the_argument() {
    assert_eq!(args("\"it's\""), vec!["it's"]);
    assert_eq!(args("'say \"hi\"'"), vec!["say \"hi\""]);
}

#[test]
fn an_empty_quoted_stretch_is_no_argument() {
    assert_eq!(args("a \"\" b"), vec!["a", "b"]);
    assert_eq!(args("''"), Vec::<String>::new());
}

#[test]
fn tabs_and_wide_spaces_do_not_separate() {
    assert_eq!(args("a\tb"), vec!["a\tb"]);
    assert_eq!(args("a\u{3000}b"), vec!["a\u{3000}b"]);
}

#[test]
fn an_unclosed_quote_is_an_error() {
    let expected =
        "\u{30af}\u{30a9}\u{30fc}\u{30c8}\u{304c}\u{9589}\u{3058}\u{3089}\u{308c}\u{3066}\u{3044}\u{307e}\u{305b}\u{3093}";
    assert_eq!(parse_arguments("say \"hello").unwrap_err(), expected);
    assert_eq!(parse_arguments("'").unwrap_err(), expected);
    assert_eq!(parse_arguments("\"a'").unwrap_err(), expected);
}

fn clean(input: &str) -> String {
    replace_full_width_spaces_to_half_width_spaces_if_not_in_quotes(input)
}

#[test]
fn wide_spaces_become_narrow_ones() {
    assert_eq!(clean("a\u{3000}b"), "a b");
    assert_eq!(clean("/list\u{3000}socket"), "/list socket");
}

#[test]
fn runs_of_spaces_are_squeezed() {
    assert_eq!(clean("a   b"), "a b");
    assert_eq!(clean("a \u{3000} \u{3000}b"), "a b");
}

#[test]
fn spaces_at_the_start_and_the_end_are_dropped() {
    assert_eq!(clean("   a b   "), "a b");
    assert_eq!(clean("\u{3000}a"), "a");
    assert_eq!(clean("a\n"), "a");
    assert_eq!(clean(""), "");
    assert_eq!(clean("  \u{3000} "), "");
}

#[test]
fn spaces_inside_quotes_are_kept() {
    assert_eq!(clean("say \"a\u{3000}\u{3000}b  c\" d"), "say \"a\u{3000}\u{3000}b  c\" d");
    assert_eq!(clean("'a  b'   c"), "'a  b' c");
    assert_eq!(clean("\"it's  ok\"  x"), "\"it's  ok\" x");
}

#[test]
fn an_open_quote_keeps_the_end_as_it_is() {
    assert_eq!(clean("say \"a  "), "say \"a  ");
    assert_eq!(clean("a 'b\n"), "a 'b\n");
}

#[test]
fn a_space_after_a_quote_is_kept_once() {
    assert_eq!(clean("\"a\"  b"), "\"a\" b");
    assert_eq!(clean("a \"b\""), "a \"b\"");
}
