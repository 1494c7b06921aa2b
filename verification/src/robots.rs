//! Reading a robots exclusion file.
//!
//! Only the rules for the wildcard user agent are honoured. The file is read
//! line by line; a line counts when its first two whitespace-separated
//! fields are a key and a value, and every other line is passed over. A
//! `User-agent:` line switches the wildcard section on when its value is
//! exactly `*` and off for any other value. A `Disallow:` line inside the
//! wildcard section records its value as a pattern for the paths that begin
//! with it.

use vstd::prelude::*;
use crate::text::{chars_of, copy_range, find_char, lemma_position_bounds, position_of, spells};

verus! {

/// The characters that Unicode classes as white space.
pub open spec fn is_space(c: char) -> bool {
    let n = c as u32;
    ||| 0x09 <= n <= 0x0D
    ||| n == 0x20
    ||| n == 0x85
    ||| n == 0xA0
    ||| n == 0x1680
    ||| 0x2000 <= n <= 0x200A
    ||| n == 0x2028
    ||| n == 0x2029
    ||| n == 0x202F
    ||| n == 0x205F
    ||| n == 0x3000
}

/// The first position at or after `from` that holds no whitespace, or the
/// length of `s` if there is none.
pub open spec fn skip_spaces(s: Seq<char>, from: int) -> int
    decreases s.len() - from,
{
    if 0 <= from < s.len() && is_space(s[from]) {
        skip_spaces(s, from + 1)
    } else {
        from
    }
}

/// The first position at or after `from` that holds whitespace, or the
/// length of `s` if there is none.
pub open spec fn skip_word(s: Seq<char>, from: int) -> int
    decreases s.len() - from,
{
    if 0 <= from < s.len() && !is_space(s[from]) {
        skip_word(s, from + 1)
    } else {
        from
    }
}

/// The first whitespace-separated field that starts at or after `from`, with
/// the position behind it.
pub open spec fn field_from(line: Seq<char>, from: int) -> Option<(Seq<char>, int)> {
    let start = skip_spaces(line, from);
    let end = skip_word(line, start);
    if start < line.len() {
        Some((line.subrange(start, end), end))
    } else {
        None
    }
}

/// The first field of a line: its key.
pub open spec fn key_of(line: Seq<char>) -> Option<Seq<char>> {
    match field_from(line, 0) {
        Some((key, _)) => Some(key),
        None => None,
    }
}

/// The second field of a line: its value.
pub open spec fn value_of(line: Seq<char>) -> Option<Seq<char>> {
    match field_from(line, 0) {
        Some((_, end)) => match field_from(line, end) {
            Some((value, _)) => Some(value),
            None => None,
        },
        None => None,
    }
}

/// The key that names a user agent.
pub open spec fn agent_key() -> Seq<char> {
    "User-agent:"@
}

/// The key that excludes a path.
pub open spec fn disallow_key() -> Seq<char> {
    "Disallow:"@
}

/// The value that stands for every user agent.
pub open spec fn wildcard() -> Seq<char> {
    "*"@
}

/// Whether the wildcard section is open after `line`, given whether it was
/// open before.
pub open spec fn active_after(line: Seq<char>, active: bool) -> bool {
    if key_of(line) == Some(agent_key()) && value_of(line) is Some {
        value_of(line) == Some(wildcard())
    } else {
        active
    }
}

/// What one character of a disallow value becomes in a regular expression:
/// `?` stands for itself, `*` for any run of characters, and every other
/// character is handed on as it is.
pub open spec fn translate_char(c: char) -> Seq<char> {
    if c == '?' {
        seq!['\\', '?']
    } else if c == '*' {
        seq!['.', '*']
    } else {
        seq![c]
    }
}

/// The characters of `value`, each translated.
pub open spec fn translate_chars(value: Seq<char>) -> Seq<char>
    decreases value.len(),
{
    if value.len() == 0 {
        Seq::empty()
    } else {
        translate_chars(value.drop_last()) + translate_char(value.last())
    }
}

/// What opens the regular expression of a rule: the anchor at the start of
/// the path and the opening of the group that holds the translated value.
pub open spec fn rule_opening() -> Seq<char> {
    seq!['^', '(', '?', ':']
}

/// What closes the regular expression of a rule: the end of the group,
/// followed by "anything".
pub open spec fn rule_closing() -> Seq<char> {
    seq![')', '.', '*']
}

/// The regular expression for a disallow value, `^(?:value).*` with the
/// value translated. The anchor makes the rule a prefix: it excludes the
/// paths that begin with the value, and no path that merely holds the value
/// further on. The group keeps the anchor in force for the whole value.
pub open spec fn translate(value: Seq<char>) -> Seq<char> {
    rule_opening() + translate_chars(value) + rule_closing()
}

/// The pattern that `line` records, given whether the wildcard section was
/// open before it.
pub open spec fn rule_of(line: Seq<char>, active: bool) -> Option<Seq<char>> {
    if active && key_of(line) == Some(disallow_key()) && value_of(line) is Some {
        Some(translate(value_of(line).unwrap()))
    } else {
        None
    }
}

/// The patterns recorded by the lines of `body` that start at or after
/// `from`, given whether the wildcard section is open at `from`. Lines end
/// at a line feed.
pub open spec fn rules_from(body: Seq<char>, from: int, active: bool) -> Seq<Seq<char>>
    decreases body.len() - from,
    via lines_get_shorter
{
    if 0 <= from < body.len() {
        let end = position_of(body, '\n', from);
        let line = body.subrange(from, end);
        let rest = if end < body.len() {
            rules_from(body, end + 1, active_after(line, active))
        } else {
            Seq::empty()
        };
        match rule_of(line, active) {
            Some(rule) => seq![rule] + rest,
            None => rest,
        }
    } else {
        Seq::empty()
    }
}

#[via_fn]
proof fn lines_get_shorter(body: Seq<char>, from: int, active: bool) {
    if 0 <= from < body.len() {
        lemma_position_bounds(body, '\n', from);
    }
}

/// The disallow patterns that a robots exclusion file holds for the
/// wildcard user agent, in the order of the file.
pub open spec fn disallowed(body: Seq<char>) -> Seq<Seq<char>> {
    rules_from(body, 0, false)
}

pub fn is_space_char(c: char) -> (b: bool)
    ensures
        b == is_space(c),
{
    let n: u32 = c as u32;
    (0x09 <= n && n <= 0x0D) || n == 0x20 || n == 0x85 || n == 0xA0 || n == 0x1680 || (0x2000 <= n
        && n <= 0x200A) || n == 0x2028 || n == 0x2029 || n == 0x202F || n == 0x205F || n == 0x3000
}

fn spaces_end(s: &Vec<char>, from: usize) -> (at: usize)
    requires
        from <= s@.len(),
    ensures
        at == skip_spaces(s@, from as int),
        from <= at <= s@.len(),
{
    let mut i: usize = from;
    while i < s.len() && is_space_char(s[i])
        invariant
            from <= i <= s@.len(),
            skip_spaces(s@, from as int) == skip_spaces(s@, i as int),
        decreases s@.len() - i,
    {
        i = i + 1;
    }
    i
}

fn word_end(s: &Vec<char>, from: usize) -> (at: usize)
    requires
        from <= s@.len(),
    ensures
        at == skip_word(s@, from as int),
        from <= at <= s@.len(),
{
    let mut i: usize = from;
    while i < s.len() && !is_space_char(s[i])
        invariant
            from <= i <= s@.len(),
            skip_word(s@, from as int) == skip_word(s@, i as int),
        decreases s@.len() - i,
    {
        i = i + 1;
    }
    i
}

/// The key and the value of a line, where it has both.
pub fn key_and_value(line: &Vec<char>) -> (fields: Option<(Vec<char>, Vec<char>)>)
    ensures
        match fields {
            Some((key, value)) => key_of(line@) == Some(key@) && value_of(line@) == Some(value@),
            None => key_of(line@) is None || value_of(line@) is None,
        },
{
    let start = spaces_end(line, 0);
    if start >= line.len() {
        return None;
    }
    let end = word_end(line, start);
    let from = spaces_end(line, end);
    if from >= line.len() {
        return None;
    }
    let to = word_end(line, from);
    Some((copy_range(line, start, end), copy_range(line, from, to)))
}

/// Writes a disallow value as a regular expression.
pub fn pattern_for(value: &Vec<char>) -> (pattern: String)
    ensures
        pattern@ == translate(value@),
{
    let mut pattern = String::new();
    pattern.push('^');
    pattern.push('(');
    pattern.push('?');
    pattern.push(':');
    assert(pattern@ =~= rule_opening() + translate_chars(value@.take(0)));
    let mut i: usize = 0;
    while i < value.len()
        invariant
            i <= value@.len(),
            pattern@ == rule_opening() + translate_chars(value@.take(i as int)),
        decreases value@.len() - i,
    {
        let c = value[i];
        proof {
            assert(value@.take(i + 1).drop_last() =~= value@.take(i as int));
        }
        if c == '?' {
            pattern.push('\\');
            pattern.push('?');
        } else if c == '*' {
            pattern.push('.');
            pattern.push('*');
        } else {
            pattern.push(c);
        }
        assert(pattern@ =~= rule_opening() + (translate_chars(value@.take(i as int))
            + translate_char(c)));
        i = i + 1;
    }
    assert(value@.take(value@.len() as int) =~= value@);
    pattern.push(')');
    pattern.push('.');
    pattern.push('*');
    assert(pattern@ =~= translate(value@));
    pattern
}

/// The views of the strings of `v`.
pub open spec fn texts(v: Seq<String>) -> Seq<Seq<char>> {
    v.map_values(|s: String| s@)
}

/// Reads a robots exclusion file and returns the patterns it disallows for
/// the wildcard user agent.
pub fn disallow_patterns(body: &str) -> (patterns: Vec<String>)
    ensures
        texts(patterns@) == disallowed(body@),
{
    let chars = chars_of(body);
    let mut patterns: Vec<String> = Vec::new();
    let mut active = false;
    let mut from: usize = 0;
    assert(texts(patterns@) =~= Seq::<Seq<char>>::empty());
    while from < chars.len()
        invariant
            chars@ == body@,
            from <= chars@.len(),
            disallowed(body@) == texts(patterns@) + rules_from(chars@, from as int, active),
        decreases chars@.len() - from,
    {
        let end = find_char(&chars, '\n', from);
        let line = copy_range(&chars, from, end);
        let ghost before = patterns@;
        let ghost was_active = active;
        let ghost rest = if end < chars@.len() {
            rules_from(chars@, end + 1, active_after(line@, was_active))
        } else {
            Seq::empty()
        };
        proof {
            reveal_strlit("User-agent:");
            reveal_strlit("Disallow:");
            reveal_strlit("*");
            assert(agent_key().len() == 11 && disallow_key().len() == 9);
        }
        match key_and_value(&line) {
            Some((key, value)) => {
                if spells(&key, "User-agent:") {
                    active = spells(&value, "*");
                    assert(rule_of(line@, was_active) is None);
                } else if active && spells(&key, "Disallow:") {
                    let pattern = pattern_for(&value);
                    patterns.push(pattern);
                    assert(rule_of(line@, was_active) == Some(translate(value@)));
                    assert(texts(patterns@) =~= texts(before) + seq![translate(value@)]);
                    assert(texts(patterns@) + rest =~= texts(before) + (seq![translate(value@)]
                        + rest));
                } else {
                    assert(rule_of(line@, was_active) is None);
                }
            },
            None => {
                assert(rule_of(line@, was_active) is None);
            },
        }
        proof {
            assert(active == active_after(line@, was_active));
            assert(disallowed(body@) =~= texts(patterns@) + rest);
            if end == chars@.len() {
                assert(rest =~= rules_from(chars@, end as int, active));
            }
        }
        if end < chars.len() {
            from = end + 1;
        } else {
            from = end;
        }
    }
    assert(texts(patterns@) + Seq::<Seq<char>>::empty() =~= texts(patterns@));
    patterns
}

} // verus!
