//! Strings as sequences of characters.
//!
//! The parsers of this crate work on the characters of a string by position.
//! This module moves between `str` and `Vec<char>` and holds the searches
//! and comparisons by position that the parsers share.

use vstd::prelude::*;

verus! {

/// `String::push` appends one character to the end of a string.
pub assume_specification[ String::push ](s: &mut String, c: char)
    ensures
        final(s)@ == old(s)@.push(c),
;

/// The characters of `s`, in order.
pub fn chars_of(s: &str) -> (v: Vec<char>)
    ensures
        v@ == s@,
{
    let mut v: Vec<char> = Vec::new();
    for c in it: s.chars()
        invariant
            it.seq() == s@,
            v@ == s@.take(it.index() as int),
    {
        v.push(c);
    }
    v
}

/// The string made of the characters of `chars` from position `from` up to,
/// but not including, position `to`.
pub fn string_of(chars: &Vec<char>, from: usize, to: usize) -> (s: String)
    requires
        from <= to <= chars@.len(),
    ensures
        s@ == chars@.subrange(from as int, to as int),
{
    let mut s = String::new();
    let mut i: usize = from;
    while i < to
        invariant
            from <= i <= to <= chars@.len(),
            s@ == chars@.subrange(from as int, i as int),
        decreases to - i,
    {
        s.push(chars[i]);
        i = i + 1;
    }
    s
}

/// The first position at or after `from` that holds `stop`, or the length
/// of `s` if there is none.
pub open spec fn position_of(s: Seq<char>, stop: char, from: int) -> int
    decreases s.len() - from,
{
    if 0 <= from < s.len() && s[from] != stop {
        position_of(s, stop, from + 1)
    } else {
        from
    }
}

/// `position_of` stays within the sequence and stops at the first `stop`.
pub proof fn lemma_position_bounds(s: Seq<char>, stop: char, from: int)
    requires
        0 <= from <= s.len(),
    ensures
        from <= position_of(s, stop, from) <= s.len(),
        position_of(s, stop, from) < s.len() ==> s[position_of(s, stop, from)] == stop,
        forall|i: int| from <= i < position_of(s, stop, from) ==> s[i] != stop,
    decreases s.len() - from,
{
    if from < s.len() && s[from] != stop {
        lemma_position_bounds(s, stop, from + 1);
    }
}

/// Finds the first `stop` at or after `from`.
pub fn find_char(s: &Vec<char>, stop: char, from: usize) -> (at: usize)
    requires
        from <= s@.len(),
    ensures
        at == position_of(s@, stop, from as int),
        from <= at <= s@.len(),
{
    let mut i: usize = from;
    while i < s.len() && s[i] != stop
        invariant
            from <= i <= s@.len(),
            position_of(s@, stop, from as int) == position_of(s@, stop, i as int),
        decreases s@.len() - i,
    {
        i = i + 1;
    }
    i
}

/// The characters of `s` from `from` up to, but not including, `to`.
pub fn copy_range(s: &Vec<char>, from: usize, to: usize) -> (part: Vec<char>)
    requires
        from <= to <= s@.len(),
    ensures
        part@ == s@.subrange(from as int, to as int),
{
    let mut part: Vec<char> = Vec::new();
    let mut i: usize = from;
    while i < to
        invariant
            from <= i <= to <= s@.len(),
            part@ == s@.subrange(from as int, i as int),
        decreases to - i,
    {
        part.push(s[i]);
        i = i + 1;
    }
    part
}

/// Whether `word` spells `text`.
pub fn spells(word: &Vec<char>, text: &str) -> (same: bool)
    ensures
        same == (word@ == text@),
{
    let other = chars_of(text);
    if word.len() != other.len() {
        return false;
    }
    let mut i: usize = 0;
    while i < word.len()
        invariant
            i <= word@.len() == other@.len(),
            other@ == text@,
            forall|j: int| 0 <= j < i ==> word@[j] == other@[j],
        decreases word@.len() - i,
    {
        if word[i] != other[i] {
            return false;
        }
        i = i + 1;
    }
    assert(word@ =~= text@);
    true
}

/// Whether `word` begins with `text`.
pub fn starts_with(word: &Vec<char>, text: &str) -> (yes: bool)
    ensures
        yes == text@.is_prefix_of(word@),
{
    let other = chars_of(text);
    if word.len() < other.len() {
        return false;
    }
    let mut i: usize = 0;
    while i < other.len()
        invariant
            i <= other@.len() <= word@.len(),
            other@ == text@,
            forall|j: int| 0 <= j < i ==> word@[j] == other@[j],
        decreases other@.len() - i,
    {
        if word[i] != other[i] {
            assert(word@.subrange(0, other@.len() as int)[i as int] != other@[i as int]);
            return false;
        }
        i = i + 1;
    }
    assert(text@ =~= word@.subrange(0, text@.len() as int));
    true
}

} // verus!
