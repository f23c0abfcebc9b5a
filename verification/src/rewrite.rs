//! The executable rewriter: one scanning pass per variant, and the full
//! three-pass rewrite, each proved to produce exactly what the
//! specification in [`crate::notation`] describes.

use vstd::prelude::*;

use crate::notation::{
    digit_run_end, is_digit, is_upper, lemma_digit_run_end_bounds, lemma_match_end_bounds,
    match_end_at, open_tag_seq, prefix_len, replacement, spec_pass, spec_pass_from, spec_rewrite,
    tail_end, Variant,
};

verus! {

/// Index just past the maximal digit run of `s` that starts at `i`.
fn digit_run_scan(s: &str, i: usize, n: usize) -> (e: usize)
    requires
        n == s@.len(),
        i <= n,
    ensures
        e as int == digit_run_end(s@, i as int),
        i <= e <= n,
{
    let mut j = i;
    while j < n && is_digit(s.get_char(j))
        invariant
            n == s@.len(),
            i <= j <= n,
            digit_run_end(s@, i as int) == digit_run_end(s@, j as int),
        decreases n - j,
    {
        j = j + 1;
    }
    proof {
        lemma_digit_run_end_bounds(s@, i as int);
    }
    j
}

/// The lazy tail scan of a body, exactly as [`tail_end`] describes it.
fn tail_scan(s: &str, q: usize, n: usize) -> (r: Option<usize>)
    requires
        n == s@.len(),
        q <= n,
    ensures
        match r {
            Some(e) => tail_end(s@, q as int) == Some(e as int),
            None => tail_end(s@, q as int) is None,
        },
{
    let mut p = q;
    loop
        invariant
            n == s@.len(),
            q <= p <= n,
            tail_end(s@, q as int) == tail_end(s@, p as int),
        decreases n - p,
    {
        if p >= n {
            return None;
        }
        let c = s.get_char(p);
        if is_digit(c) {
            let e = digit_run_scan(s, p, n);
            if n - e >= 2 && s.get_char(e) == ']' && s.get_char(e + 1) == ']' {
                return Some(e);
            }
        }
        if c == '\n' {
            return None;
        }
        p = p + 1;
    }
}

/// How many characters the opening delimiter of `v` takes.
fn prefix_len_x(v: Variant) -> (pl: usize)
    ensures
        pl as int == prefix_len(v),
{
    match v {
        Variant::Plain => 2,
        Variant::Advantage => 3,
        Variant::Disadvantage => 3,
    }
}

/// The match of variant `v`'s token at position `i`, exactly as
/// [`match_end_at`] describes it.
fn match_scan(s: &str, v: Variant, i: usize, n: usize) -> (r: Option<usize>)
    requires
        n == s@.len(),
        i <= n,
    ensures
        match r {
            Some(e) => {
                &&& match_end_at(s@, v, i as int) == Some(e as int)
                &&& i + prefix_len(v) < e
                &&& e + 2 <= n
            },
            None => match_end_at(s@, v, i as int) is None,
        },
{
    proof {
        lemma_match_end_bounds(s@, v, i as int);
    }
    let pl = prefix_len_x(v);
    if n - i < pl {
        return None;
    }
    if !(s.get_char(i) == '[' && s.get_char(i + 1) == '[') {
        return None;
    }
    let sign_ok = match v {
        Variant::Plain => true,
        Variant::Advantage => s.get_char(i + 2) == '+',
        Variant::Disadvantage => s.get_char(i + 2) == '-',
    };
    if !sign_ok {
        return None;
    }
    let d = digit_run_scan(s, i + pl, n);
    if d >= n {
        return None;
    }
    if !is_upper(s.get_char(d)) {
        return None;
    }
    tail_scan(s, d + 1, n)
}

/// The opening tag a variant's matches are rewritten with.
fn open_tag(v: Variant) -> (t: &'static str)
    ensures
        t@ == open_tag_seq(v),
{
    match v {
        Variant::Plain => "<span class='dice-roll'>",
        Variant::Advantage => "<span class='dice-roll advantage'>",
        Variant::Disadvantage => "<span class='dice-roll disadvantage'>",
    }
}

/// One whole pass over `text` for variant `v`: every match of the
/// variant's token is replaced by its span fragment, left to right and
/// without overlap; everything else is kept as it stands.
pub fn run_pass(text: &str, v: Variant) -> (out: String)
    ensures
        out@ == spec_pass(text@, v),
{
    let n = text.unicode_len();
    let mut out = String::new();
    let mut i: usize = 0;
    while i < n
        invariant
            n == text@.len(),
            i <= n,
            out@ + spec_pass_from(text@, v, i as int) == spec_pass(text@, v),
        decreases n - i,
    {
        let ghost out_before = out@;
        match match_scan(text, v, i, n) {
            Some(e) => {
                let pl = prefix_len_x(v);
                out.append(open_tag(v));
                let body = text.substring_char(i + pl, e);
                out.append(body);
                out.append("</span>");
                proof {
                    let s = text@;
                    let ghost b = s.subrange(i + prefix_len(v), e as int);
                    assert(out@ =~= out_before + replacement(v, b));
                    assert(spec_pass_from(s, v, i as int) == replacement(v, b)
                        + spec_pass_from(s, v, e + 2));
                    assert(out_before + (replacement(v, b) + spec_pass_from(s, v, e + 2))
                        =~= (out_before + replacement(v, b)) + spec_pass_from(s, v, e + 2));
                }
                i = e + 2;
            }
            None => {
                let piece = text.substring_char(i, i + 1);
                out.append(piece);
                proof {
                    let s = text@;
                    assert(piece@ =~= seq![s[i as int]]);
                    assert(spec_pass_from(s, v, i as int) == seq![s[i as int]]
                        + spec_pass_from(s, v, i + 1));
                    assert(out_before + (seq![s[i as int]] + spec_pass_from(s, v, i + 1))
                        =~= (out_before + seq![s[i as int]]) + spec_pass_from(s, v, i + 1));
                }
                i = i + 1;
            }
        }
    }
    proof {
        assert(spec_pass_from(text@, v, i as int) == Seq::<char>::empty());
        assert(out@ + Seq::<char>::empty() =~= out@);
    }
    out
}

/// Rewrite every dice notation token in `text`: first the plain tokens,
/// then the advantage tokens, then the disadvantage tokens, each pass
/// scanning the previous pass's output. Text without tokens comes back
/// unchanged.
pub fn rewrite(text: &str) -> (out: String)
    ensures
        out@ == spec_rewrite(text@),
{
    let first = run_pass(text, Variant::Plain);
    let second = run_pass(first.as_str(), Variant::Advantage);
    let third = run_pass(second.as_str(), Variant::Disadvantage);
    third
}

} // verus!
