use polzat::robots::{disallow_patterns, is_space_char, key_and_value, pattern_for};
use polzat::text::{chars_of, copy_range, find_char, spells, starts_with, string_of};

fn chars(s: &str) -> Vec<char> {
    s.chars().collect()
}

fn fields(line: &str) -> Option<(String, String)> {
    key_and_value(&chars(line)).map(|(k, v)| (k.into_iter().collect(), v.into_iter().collect()))
}

#[test]
fn chars_and_strings_convert_both_ways() {
    assert_eq!(chars_of("héllo"), vec!['h', 'é', 'l', 'l', 'o']);
    assert_eq!(chars_of(""), Vec::<char>::new());
    let v = chars("robots");
    assert_eq!(string_of(&v, 1, 4), "obo");
    assert_eq!(string_of(&v, 0, 6), "robots");
    assert_eq!(string_of(&v, 3, 3), "");
    assert_eq!(copy_range(&v, 2, 5), vec!['b', 'o', 't']);
}

#[test]
fn find_char_stops_at_the_first_hit_or_the_end() {
    let v = chars("a/b/c");
    assert_eq!(find_char(&v, '/', 0), 1);
    assert_eq!(find_char(&v, '/', 1), 1);
    assert_eq!(find_char(&v, '/', 2), 3);
    assert_eq!(find_char(&v, '/', 4), 5);
    assert_eq!(find_char(&v, '/', 5), 5);
    assert_eq!(find_char(&v, 'x', 0), 5);
}

#[test]
fn spelling_and_prefixes() {
    assert!(spells(&chars("Disallow:"), "Disallow:"));
    assert!(!spells(&chars("Disallow"), "Disallow:"));
    assert!(!spells(&chars("disallow:"), "Disallow:"));
    assert!(spells(&chars(""), ""));
    assert!(starts_with(&chars("http://a"), "http://"));
    assert!(starts_with(&chars("http://"), "http://"));
    assert!(!starts_with(&chars("http:/"), "http://"));
    assert!(!starts_with(&chars("xhttp://"), "http://"));
    assert!(starts_with(&chars("abc"), ""));
}

#[test]
fn whitespace_is_what_unicode_says() {
    for c in [' ', '\t', '\n', '\r', '\u{0B}', '\u{0C}', '\u{85}', '\u{A0}', '\u{1680}',
        '\u{2000}', '\u{200A}', '\u{2028}', '\u{2029}', '\u{202F}', '\u{205F}', '\u{3000}']
    {
        assert!(is_space_char(c));
    }
    for c in ['a', '*', '/', ':', '\u{200B}', '\u{08}', '\u{0E}', '\u{1F}', '!'] {
        assert!(!is_space_char(c));
    }
    let mut code = 0u32;
    while code < 0x11000 {
        if let Some(c) = char::from_u32(code) {
            assert_eq!(is_space_char(c), c.is_whitespace());
        }
        code += 1;
    }
}

#[test]
fn key_and_value_are_the_first_two_fields() {
    assert_eq!(fields("Disallow: /private"), Some(("Disallow:".to_owned(), "/private".to_owned())));
    assert_eq!(fields("  \tUser-agent:   *  "), Some(("User-agent:".to_owned(), "*".to_owned())));
    assert_eq!(fields("a b c d"), Some(("a".to_owned(), "b".to_owned())));
    assert_eq!(fields("Disallow: /x\r"), Some(("Disallow:".to_owned(), "/x".to_owned())));
    assert_eq!(fields("Disallow:"), None);
    assert_eq!(fields("Disallow:   "), None);
    assert_eq!(fields(""), None);
    assert_eq!(fields("   "), None);
}

#[test]
fn patterns_escape_question_marks_and_widen_stars() {
    assert_eq!(pattern_for(&chars("/private")), "^(?:/private).*");
    assert_eq!(pattern_for(&chars("/a?b")), "^(?:/a\\?b).*");
    assert_eq!(pattern_for(&chars("/a*b")), "^(?:/a.*b).*");
    assert_eq!(pattern_for(&chars("/*?")), "^(?:/.*\\?).*");
    assert_eq!(pattern_for(&chars("")), "^(?:).*");
    assert_eq!(pattern_for(&chars("/index.html")), "^(?:/index.html).*");
    assert_eq!(pattern_for(&chars("/a|/b")), "^(?:/a|/b).*");
}

#[test]
fn wildcard_agent_rules_are_collected() {
    assert_eq!(disallow_patterns("User-agent: *\nDisallow: /private"), vec!["^(?:/private).*"]);
    assert_eq!(
        disallow_patterns("User-agent: *\nDisallow: /a\nDisallow: /b?c\nDisallow: /d*\n"),
        vec!["^(?:/a).*", "^(?:/b\\?c).*", "^(?:/d.*).*"]
    );
}

#[test]
fn other_agents_rules_are_ignored() {
    assert_eq!(disallow_patterns("User-agent: googlebot\nDisallow: /private"), Vec::<String>::new());
    assert_eq!(
        disallow_patterns(
            "User-agent: *\nDisallow: /a\nUser-agent: bot\nDisallow: /b\nUser-agent: *\nDisallow: /c"
        ),
        vec!["^(?:/a).*", "^(?:/c).*"]
    );
}

#[test]
fn rules_before_any_agent_line_are_ignored() {
    assert_eq!(disallow_patterns("Disallow: /early\nUser-agent: *\nDisallow: /late"), vec!["^(?:/late).*"]);
}

#[test]
fn lines_that_do_not_parse_are_passed_over() {
    let body = "# comment\n\nUser-agent: *\nDisallow:\nAllow: /x\nUser-agent:\nDisallow: /kept\ngarbage\n\u{1}\u{2}\nDisallow /nokey\nUser-agent:*\nDisallow: /also";
    assert_eq!(disallow_patterns(body), vec!["^(?:/kept).*", "^(?:/also).*"]);
}

#[test]
fn keys_are_matched_exactly() {
    assert_eq!(disallow_patterns("user-agent: *\nDisallow: /a"), Vec::<String>::new());
    assert_eq!(disallow_patterns("User-agent: *\ndisallow: /a"), Vec::<String>::new());
    assert_eq!(disallow_patterns("User-agent: **\nDisallow: /a"), Vec::<String>::new());
}

#[test]
fn carriage_returns_and_blank_files() {
    assert_eq!(disallow_patterns("User-agent: *\r\nDisallow: /a\r\nDisallow: /b\r\n"), vec!["^(?:/a).*", "^(?:/b).*"]);
    assert_eq!(disallow_patterns(""), Vec::<String>::new());
    assert_eq!(disallow_patterns("\n\n\n"), Vec::<String>::new());
}

#[test]
fn only_the_first_value_of_a_line_counts() {
    assert_eq!(disallow_patterns("User-agent: * extra\nDisallow: /a /b"), vec!["^(?:/a).*"]);
}
