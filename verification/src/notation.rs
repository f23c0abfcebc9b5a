//! The dice-notation grammar and the meaning of one rewriting pass.
//!
//! A notation token is `[[`, a sign marker fixed by the variant (absent,
//! `+`, or `-`), a body, and `]]`. A body is an optional run of decimal
//! digits, one uppercase ASCII letter, a lazily matched run of non-newline
//! characters, and a final run of digits. Each pass scans its input left
//! to right for the tokens of one variant and replaces every
//! non-overlapping match by a span fragment carrying that variant's class.

use vstd::prelude::*;

verus! {

/// One dice expression variant, selected by the sign marker after `[[`.
#[derive(Clone, Copy, PartialEq, Eq, Structural, Debug)]
pub enum Variant {
    Plain,
    Advantage,
    Disadvantage,
}

/// An ASCII decimal digit, `0` through `9`.
pub open spec fn spec_is_digit(c: char) -> bool {
    '0' <= c && c <= '9'
}

/// An uppercase ASCII letter, `A` through `Z`.
pub open spec fn spec_is_upper(c: char) -> bool {
    'A' <= c && c <= 'Z'
}

/// How many characters the opening delimiter of a variant takes:
/// `[[` alone, or `[[` with a sign character.
pub open spec fn prefix_len(v: Variant) -> int {
    match v {
        Variant::Plain => 2,
        Variant::Advantage => 3,
        Variant::Disadvantage => 3,
    }
}

/// The opening delimiter of variant `v` stands at position `i` of `s`.
pub open spec fn prefix_ok(s: Seq<char>, v: Variant, i: int) -> bool {
    &&& 0 <= i
    &&& i + prefix_len(v) <= s.len()
    &&& s[i] == '['
    &&& s[i + 1] == '['
    &&& match v {
        Variant::Plain => true,
        Variant::Advantage => s[i + 2] == '+',
        Variant::Disadvantage => s[i + 2] == '-',
    }
}

/// Index just past the maximal run of digits that starts at `i`.
pub open spec fn digit_run_end(s: Seq<char>, i: int) -> int
    decreases s.len() - i,
{
    if 0 <= i < s.len() && spec_is_digit(s[i]) {
        digit_run_end(s, i + 1)
    } else {
        i
    }
}

/// A closing `]]` stands right at position `e` of `s`.
pub open spec fn close_at(s: Seq<char>, e: int) -> bool {
    &&& 0 <= e
    &&& e + 2 <= s.len()
    &&& s[e] == ']'
    &&& s[e + 1] == ']'
}

/// The lazy scan for the tail of a body. Starting at `q`, it looks for the
/// first position whose maximal digit run is followed directly by `]]`,
/// passing over one non-newline character at a time; a newline or the end
/// of the text stops it. On success the result is the index just past
/// that digit run, so the closing `]]` stands at the returned index.
pub open spec fn tail_end(s: Seq<char>, q: int) -> Option<int>
    decreases s.len() - q,
{
    if !(0 <= q < s.len()) {
        None
    } else if spec_is_digit(s[q]) && close_at(s, digit_run_end(s, q)) {
        Some(digit_run_end(s, q))
    } else if s[q] == '\n' {
        None
    } else {
        tail_end(s, q + 1)
    }
}

/// The match of variant `v`'s token at position `i` of `s`, if there is
/// one: the opening delimiter, then an optional digit run, one uppercase
/// letter, and the lazy tail. The result is the index just past the body;
/// the whole token ends two characters later, after the closing `]]`.
pub open spec fn match_end_at(s: Seq<char>, v: Variant, i: int) -> Option<int> {
    if prefix_ok(s, v, i) {
        let d = digit_run_end(s, i + prefix_len(v));
        if d < s.len() && spec_is_upper(s[d]) {
            tail_end(s, d + 1)
        } else {
            None
        }
    } else {
        None
    }
}

/// The opening tag a variant's matches are rewritten with.
pub open spec fn open_tag_seq(v: Variant) -> Seq<char> {
    match v {
        Variant::Plain => "<span class='dice-roll'>"@,
        Variant::Advantage => "<span class='dice-roll advantage'>"@,
        Variant::Disadvantage => "<span class='dice-roll disadvantage'>"@,
    }
}

/// The closing tag every match is rewritten with.
pub open spec fn close_tag_seq() -> Seq<char> {
    "</span>"@
}

/// The fragment a match of variant `v` with the given body becomes.
pub open spec fn replacement(v: Variant, body: Seq<char>) -> Seq<char> {
    open_tag_seq(v) + body + close_tag_seq()
}

pub proof fn lemma_digit_run_end_bounds(s: Seq<char>, i: int)
    requires
        0 <= i <= s.len(),
    ensures
        i <= digit_run_end(s, i) <= s.len(),
        forall|j: int| i <= j < digit_run_end(s, i) ==> spec_is_digit(s[j]),
        digit_run_end(s, i) < s.len() ==> !spec_is_digit(s[digit_run_end(s, i)]),
    decreases s.len() - i,
{
    if i < s.len() && spec_is_digit(s[i]) {
        lemma_digit_run_end_bounds(s, i + 1);
    }
}

pub proof fn lemma_tail_end_bounds(s: Seq<char>, q: int)
    requires
        0 <= q,
    ensures
        match tail_end(s, q) {
            Some(e) => q < e && close_at(s, e) && spec_is_digit(s[e - 1]),
            None => true,
        },
    decreases s.len() - q,
{
    if 0 <= q < s.len() {
        if spec_is_digit(s[q]) && close_at(s, digit_run_end(s, q)) {
            lemma_digit_run_end_bounds(s, q);
            lemma_digit_run_end_bounds(s, q + 1);
        } else if s[q] == '\n' {
        } else {
            lemma_tail_end_bounds(s, q + 1);
        }
    }
}

pub proof fn lemma_match_end_bounds(s: Seq<char>, v: Variant, i: int)
    ensures
        match match_end_at(s, v, i) {
            Some(e) => i + prefix_len(v) < e && e + 2 <= s.len() && 0 <= i,
            None => true,
        },
{
    if prefix_ok(s, v, i) {
        let d = digit_run_end(s, i + prefix_len(v));
        lemma_digit_run_end_bounds(s, i + prefix_len(v));
        if d < s.len() && spec_is_upper(s[d]) {
            lemma_tail_end_bounds(s, d + 1);
        }
    }
}

/// One pass over `s` for variant `v`, from position `i` on: the leftmost
/// match is replaced, the scan resumes after its closing `]]`, and every
/// unmatched character is kept as it stands.
pub open spec fn spec_pass_from(s: Seq<char>, v: Variant, i: int) -> Seq<char>
    decreases s.len() - i,
    via spec_pass_from_decreases
{
    if !(0 <= i < s.len()) {
        Seq::empty()
    } else {
        match match_end_at(s, v, i) {
            Some(e) => replacement(v, s.subrange(i + prefix_len(v), e))
                + spec_pass_from(s, v, e + 2),
            None => seq![s[i]] + spec_pass_from(s, v, i + 1),
        }
    }
}

#[via_fn]
proof fn spec_pass_from_decreases(s: Seq<char>, v: Variant, i: int) {
    lemma_match_end_bounds(s, v, i);
}

/// One whole pass over `s` for variant `v`.
pub open spec fn spec_pass(s: Seq<char>, v: Variant) -> Seq<char> {
    spec_pass_from(s, v, 0)
}

/// The whole rewrite: the plain pass first, then advantage, then
/// disadvantage, each pass running over the previous pass's output.
pub open spec fn spec_rewrite(s: Seq<char>) -> Seq<char> {
    spec_pass(spec_pass(spec_pass(s, Variant::Plain), Variant::Advantage), Variant::Disadvantage)
}

pub fn is_digit(c: char) -> (b: bool)
    ensures
        b == spec_is_digit(c),
{
    '0' <= c && c <= '9'
}

pub fn is_upper(c: char) -> (b: bool)
    ensures
        b == spec_is_upper(c),
{
    'A' <= c && c <= 'Z'
}

} // verus!
