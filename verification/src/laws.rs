//! Laws of the rewriter, proved against the specification: texts without
//! notation come back unchanged, a lone token of each variant becomes
//! exactly its span fragment, and a produced fragment is never rewritten
//! again.

use vstd::prelude::*;

use crate::notation::{
    close_at, close_tag_seq, digit_run_end, lemma_digit_run_end_bounds, match_end_at,
    open_tag_seq, prefix_len, prefix_ok, replacement, spec_is_digit, spec_is_upper, spec_pass,
    spec_pass_from, spec_rewrite, tail_end, Variant,
};

verus! {

/// No token of variant `v` matches anywhere in `s` at or after `i`.
pub open spec fn no_match_from(s: Seq<char>, v: Variant, i: int) -> bool {
    forall|j: int| i <= j < s.len() ==> match_end_at(s, v, j) is None
}

/// No token of variant `v` matches anywhere in `s`.
pub open spec fn no_match(s: Seq<char>, v: Variant) -> bool {
    no_match_from(s, v, 0)
}

proof fn lemma_pass_from_identity(s: Seq<char>, v: Variant, i: int)
    requires
        0 <= i <= s.len(),
        no_match_from(s, v, i),
    ensures
        spec_pass_from(s, v, i) == s.subrange(i, s.len() as int),
    decreases s.len() - i,
{
    if i < s.len() {
        lemma_pass_from_identity(s, v, i + 1);
        assert(seq![s[i]] + s.subrange(i + 1, s.len() as int) =~= s.subrange(
            i,
            s.len() as int,
        ));
    } else {
        assert(s.subrange(i, s.len() as int) =~= Seq::<char>::empty());
    }
}

/// A pass leaves text in which its token matches nowhere unchanged.
pub proof fn lemma_pass_identity(s: Seq<char>, v: Variant)
    requires
        no_match(s, v),
    ensures
        spec_pass(s, v) == s,
{
    lemma_pass_from_identity(s, v, 0);
    assert(s.subrange(0, s.len() as int) =~= s);
}

/// Over a stretch in which its token matches nowhere, a pass copies the
/// text and goes on from the stretch's end.
proof fn lemma_pass_from_segment(s: Seq<char>, v: Variant, i: int, m: int)
    requires
        0 <= i <= m <= s.len(),
        forall|j: int| i <= j < m ==> match_end_at(s, v, j) is None,
    ensures
        spec_pass_from(s, v, i) == s.subrange(i, m) + spec_pass_from(s, v, m),
    decreases m - i,
{
    if i < m {
        lemma_pass_from_segment(s, v, i + 1, m);
        assert(seq![s[i]] + (s.subrange(i + 1, m) + spec_pass_from(s, v, m)) =~= s.subrange(i, m)
            + spec_pass_from(s, v, m));
    } else {
        assert(s.subrange(i, i) + spec_pass_from(s, v, i) =~= spec_pass_from(s, v, i));
    }
}

/// Every character of `s` is free of brackets and digits.
pub open spec fn tag_ok(s: Seq<char>) -> bool {
    forall|j: int| 0 <= j < s.len() ==> s[j] != '[' && s[j] != ']' && !spec_is_digit(s[j])
}

proof fn lemma_tags_ok(v: Variant)
    ensures
        tag_ok(open_tag_seq(v)),
        tag_ok(close_tag_seq()),
{
    reveal_strlit("<span class='dice-roll'>");
    reveal_strlit("<span class='dice-roll advantage'>");
    reveal_strlit("<span class='dice-roll disadvantage'>");
    reveal_strlit("</span>");
}

/// No closing `]]` stands directly after a digit anywhere in `s`.
pub open spec fn no_close_after_digit(s: Seq<char>) -> bool {
    forall|e: int|
        1 <= e && e + 1 < s.len() ==> !(spec_is_digit(s[e - 1]) && (#[trigger] s[e]) == ']'
            && s[e + 1] == ']')
}

proof fn lemma_tail_none_no_close(s: Seq<char>, q: int)
    requires
        no_close_after_digit(s),
        0 <= q,
    ensures
        tail_end(s, q) is None,
    decreases s.len() - q,
{
    if 0 <= q < s.len() {
        if spec_is_digit(s[q]) && close_at(s, digit_run_end(s, q)) {
            let e = digit_run_end(s, q);
            lemma_digit_run_end_bounds(s, q);
            assert(e > q);
            assert(spec_is_digit(s[e - 1]) && s[e] == ']' && s[e + 1] == ']');
            assert(false);
        } else if s[q] == '\n' {
        } else {
            lemma_tail_none_no_close(s, q + 1);
        }
    }
}

/// A pass cannot touch text that holds no digit followed by `]]`: without
/// such a close no token can end, so the text comes back unchanged.
pub proof fn lemma_pass_identity_no_close(s: Seq<char>, v: Variant)
    requires
        no_close_after_digit(s),
    ensures
        spec_pass(s, v) == s,
{
    assert forall|j: int| 0 <= j < s.len() implies match_end_at(s, v, j) is None by {
        if prefix_ok(s, v, j) {
            let d = digit_run_end(s, j + prefix_len(v));
            lemma_digit_run_end_bounds(s, j + prefix_len(v));
            if d < s.len() && spec_is_upper(s[d]) {
                lemma_tail_none_no_close(s, d + 1);
            }
        }
    }
    lemma_pass_identity(s, v);
}

/// `b` holds no digit followed directly by `]]` strictly inside it.
/// Bodies that break this close a token early: the lazy tail scan stops
/// at the first digit run followed by `]]`.
pub open spec fn no_inner_close(b: Seq<char>) -> bool {
    forall|k: int|
        1 <= k && k + 1 < b.len() ==> !(spec_is_digit(b[k - 1]) && (#[trigger] b[k]) == ']'
            && b[k + 1] == ']')
}

/// A span fragment holds no digit-close at all, wherever its body has none.
proof fn lemma_replacement_no_close(v: Variant, b: Seq<char>)
    requires
        no_inner_close(b),
    ensures
        no_close_after_digit(replacement(v, b)),
{
    lemma_tags_ok(v);
    let t1 = open_tag_seq(v);
    let t2 = close_tag_seq();
    let r = replacement(v, b);
    let l1 = t1.len() as int;
    let lb = b.len() as int;
    assert forall|e: int|
        1 <= e && e + 1 < r.len() && (spec_is_digit(r[e - 1]) && (#[trigger] r[e]) == ']'
            && r[e + 1] == ']') implies false by {
        assert(r.len() == l1 + lb + t2.len());
        assert(e < l1 + lb);
        assert(e >= l1 + 1);
        assert(e + 1 < l1 + lb);
    }
}

proof fn lemma_digit_run_end_from_charac(s: Seq<char>, i: int, e: int)
    requires
        0 <= i <= e <= s.len(),
        forall|j: int| i <= j < e ==> spec_is_digit(s[j]),
        e == s.len() || !spec_is_digit(s[e]),
    ensures
        digit_run_end(s, i) == e,
    decreases e - i,
{
    if i < e {
        lemma_digit_run_end_from_charac(s, i + 1, e);
    }
}

/// The sign marker of a variant, as the characters it adds after `[[`.
pub open spec fn sign_seq(v: Variant) -> Seq<char> {
    match v {
        Variant::Plain => Seq::empty(),
        Variant::Advantage => seq!['+'],
        Variant::Disadvantage => seq!['-'],
    }
}

/// The text of a lone token of variant `v` with body `b`:
/// `[[`, the sign marker, the body, and `]]`.
pub open spec fn wrap(v: Variant, b: Seq<char>) -> Seq<char> {
    seq!['[', '['] + sign_seq(v) + b + seq![']', ']']
}

/// `b` fits the body grammar: an optional run of digits, one uppercase
/// ASCII letter, non-newline characters, and a final digit.
pub open spec fn body_shape(b: Seq<char>) -> bool {
    let d = digit_run_end(b, 0);
    &&& d < b.len()
    &&& spec_is_upper(b[d])
    &&& spec_is_digit(b[b.len() - 1])
    &&& forall|j: int| d < j < b.len() ==> b[j] != '\n'
}

/// The characters of a wrapped token, one by one.
proof fn lemma_wrap_chars(v: Variant, b: Seq<char>)
    ensures
        wrap(v, b).len() == prefix_len(v) + b.len() + 2,
        wrap(v, b)[0] == '[',
        wrap(v, b)[1] == '[',
        v is Advantage ==> wrap(v, b)[2] == '+',
        v is Disadvantage ==> wrap(v, b)[2] == '-',
        forall|k: int| 0 <= k < b.len() ==> wrap(v, b)[prefix_len(v) + k] == b[k],
        wrap(v, b)[prefix_len(v) + b.len()] == ']',
        wrap(v, b)[prefix_len(v) + b.len() + 1] == ']',
{
    let pl = prefix_len(v);
    let lb = b.len() as int;
    assert(sign_seq(v).len() == pl - 2);
    assert forall|k: int| 0 <= k < lb implies wrap(v, b)[pl + k] == b[k] by {
        assert(wrap(v, b)[pl + k] == (seq!['[', '['] + sign_seq(v) + b + seq![']', ']'])[pl + k]);
    }
    assert(wrap(v, b)[pl + lb] == seq![']', ']'][0]);
    assert(wrap(v, b)[pl + lb + 1] == seq![']', ']'][1]);
}

/// The characters of `wrap(v, b)` stand in `t` from position `i` on.
pub open spec fn token_at(t: Seq<char>, v: Variant, b: Seq<char>, i: int) -> bool {
    &&& 0 <= i
    &&& i + prefix_len(v) + b.len() + 2 <= t.len()
    &&& forall|k: int|
        0 <= k < wrap(v, b).len() ==> t[i + k] == wrap(v, b)[k]
}

/// The lazy tail scan over a token's body runs to the token's own
/// closing `]]`, wherever the body hides no earlier digit-close. Here
/// `off` is the position of the body in `t`.
proof fn lemma_token_tail_scan(t: Seq<char>, b: Seq<char>, off: int, q: int)
    requires
        0 <= off,
        off + b.len() + 2 <= t.len(),
        forall|k: int| 0 <= k < b.len() ==> t[off + k] == b[k],
        t[off + b.len()] == ']',
        t[off + b.len() + 1] == ']',
        no_inner_close(b),
        b.len() >= 1,
        spec_is_digit(b[b.len() - 1]),
        forall|j: int| q - off <= j < b.len() ==> b[j] != '\n',
        off + 1 <= q <= off + b.len() - 1,
    ensures
        tail_end(t, q) == Some(off + b.len()),
    decreases off + b.len() - q,
{
    let lb = b.len() as int;
    if forall|j: int| q <= j < off + lb ==> spec_is_digit(#[trigger] t[j]) {
        lemma_digit_run_end_from_charac(t, q, off + lb);
        assert(close_at(t, off + lb));
    } else {
        lemma_digit_run_end_bounds(t, q);
        let e = digit_run_end(t, q);
        if spec_is_digit(t[q]) {
            // The run from `q` stops inside the body, and what follows it
            // is not a digit-close, so the scan steps past one character.
            assert(e <= off + lb) by {
                if e > off + lb {
                    assert(spec_is_digit(t[off + lb]));
                }
            }
            assert(e < off + lb) by {
                if e == off + lb {
                    assert(forall|j: int| q <= j < off + lb ==> spec_is_digit(#[trigger] t[j]));
                }
            }
            assert(!close_at(t, e)) by {
                if close_at(t, e) {
                    assert(e > q);
                    assert(spec_is_digit(t[e - 1]));
                    if e + 1 < off + lb {
                        let k = e - off;
                        assert(spec_is_digit(b[k - 1]) && b[k] == ']' && b[k + 1] == ']');
                    } else {
                        // The second `]` would be the token's own first `]`,
                        // but then the body's last character is both `]`
                        // and a digit.
                        assert(b[lb - 1] == ']');
                    }
                }
            }
            assert(q < off + lb - 1) by {
                if q == off + lb - 1 {
                    lemma_digit_run_end_from_charac(t, q, off + lb);
                }
            }
            lemma_token_tail_scan(t, b, off, q + 1);
        } else {
            assert(t[q] == b[q - off]);
            assert(q < off + lb - 1);
            lemma_token_tail_scan(t, b, off, q + 1);
        }
    }
}

/// A token of variant `v` standing at position `i` matches there, and
/// the match captures exactly its body.
proof fn lemma_token_match(t: Seq<char>, v: Variant, b: Seq<char>, i: int)
    requires
        body_shape(b),
        no_inner_close(b),
        token_at(t, v, b, i),
    ensures
        match_end_at(t, v, i) == Some(i + prefix_len(v) + b.len()),
{
    let pl = prefix_len(v);
    let lb = b.len() as int;
    let off = i + pl;
    let d = digit_run_end(b, 0);
    lemma_wrap_chars(v, b);
    assert(forall|k: int| 0 <= k < lb ==> t[off + k] == b[k]);
    assert(t[off + lb] == ']' && t[off + lb + 1] == ']');
    assert(t[i] == '[' && t[i + 1] == '[');
    assert(prefix_ok(t, v, i));
    lemma_digit_run_end_bounds(b, 0);
    assert forall|j: int| off <= j < off + d implies spec_is_digit(t[j]) by {
        assert(t[j] == b[j - off]);
    }
    assert(t[off + d] == b[d] && !spec_is_digit(t[off + d]));
    lemma_digit_run_end_from_charac(t, off, off + d);
    assert(digit_run_end(t, off) == off + d);
    assert(spec_is_upper(t[off + d]));
    assert(d < lb - 1) by {
        assert(spec_is_digit(b[lb - 1]));
    }
    lemma_token_tail_scan(t, b, off, off + d + 1);
    assert(tail_end(t, off + d + 1) == Some(off + lb));
}

/// A lone wrapped token of variant `v` matches at position zero, and the
/// match captures exactly its body.
proof fn lemma_wrap_match(v: Variant, b: Seq<char>)
    requires
        body_shape(b),
        no_inner_close(b),
    ensures
        match_end_at(wrap(v, b), v, 0) == Some(prefix_len(v) + b.len()),
{
    assert(token_at(wrap(v, b), v, b, 0));
    lemma_token_match(wrap(v, b), v, b, 0);
}

/// One pass over a lone wrapped token of its own variant yields exactly
/// the span fragment of its body.
proof fn lemma_pass_wrap(v: Variant, b: Seq<char>)
    requires
        body_shape(b),
        no_inner_close(b),
    ensures
        spec_pass(wrap(v, b), v) == replacement(v, b),
{
    lemma_wrap_match(v, b);
    let t = wrap(v, b);
    let pl = prefix_len(v);
    let e = pl + b.len() as int;
    assert(t.subrange(pl, e) =~= b);
    assert(spec_pass_from(t, v, e + 2) == Seq::<char>::empty());
    assert(replacement(v, b) + Seq::<char>::empty() =~= replacement(v, b));
}

/// Rewriting a produced span fragment leaves it unchanged: the fragment
/// is not bracket-delimited, so no pass matches inside it again.
pub proof fn lemma_rewrite_stable_on_fragment(v: Variant, b: Seq<char>)
    requires
        no_inner_close(b),
    ensures
        spec_rewrite(replacement(v, b)) == replacement(v, b),
{
    lemma_replacement_no_close(v, b);
    lemma_pass_identity_no_close(replacement(v, b), Variant::Plain);
    lemma_pass_identity_no_close(replacement(v, b), Variant::Advantage);
    lemma_pass_identity_no_close(replacement(v, b), Variant::Disadvantage);
}

/// `s` holds no `[[` anywhere.
pub open spec fn no_double_bracket(s: Seq<char>) -> bool {
    forall|j: int| 0 <= j && j + 1 < s.len() ==> !((#[trigger] s[j]) == '[' && s[j + 1] == '[')
}

/// Text in which no variant's token matches comes back from the whole
/// rewrite unchanged.
pub proof fn lemma_rewrite_identity(s: Seq<char>)
    requires
        no_match(s, Variant::Plain),
        no_match(s, Variant::Advantage),
        no_match(s, Variant::Disadvantage),
    ensures
        spec_rewrite(s) == s,
{
    lemma_pass_identity(s, Variant::Plain);
    lemma_pass_identity(s, Variant::Advantage);
    lemma_pass_identity(s, Variant::Disadvantage);
}

/// Text without bracket notation is returned as it stands: every token
/// opens with `[[`, so text free of `[[` cannot match anywhere.
pub proof fn lemma_no_notation_identity(s: Seq<char>)
    requires
        no_double_bracket(s),
    ensures
        spec_rewrite(s) == s,
{
    assert forall|j: int, v: Variant| 0 <= j < s.len() implies match_end_at(s, v, j) is None by {
        assert(!prefix_ok(s, v, j));
    }
    lemma_rewrite_identity(s);
}

/// A lone plain token is rewritten to the plain span fragment holding its
/// body verbatim, for every body of the grammar that hides no earlier
/// digit-close.
pub proof fn lemma_plain_token(b: Seq<char>)
    requires
        body_shape(b),
        no_inner_close(b),
    ensures
        spec_rewrite(wrap(Variant::Plain, b)) == replacement(Variant::Plain, b),
{
    lemma_pass_wrap(Variant::Plain, b);
    lemma_replacement_no_close(Variant::Plain, b);
    lemma_pass_identity_no_close(replacement(Variant::Plain, b), Variant::Advantage);
    lemma_pass_identity_no_close(replacement(Variant::Plain, b), Variant::Disadvantage);
}

/// A lone advantage token is rewritten to the advantage span fragment,
/// wherever the plain pass, which runs first, matches nowhere in it.
pub proof fn lemma_advantage_token(b: Seq<char>)
    requires
        body_shape(b),
        no_inner_close(b),
        no_match(wrap(Variant::Advantage, b), Variant::Plain),
    ensures
        spec_rewrite(wrap(Variant::Advantage, b)) == replacement(Variant::Advantage, b),
{
    lemma_pass_identity(wrap(Variant::Advantage, b), Variant::Plain);
    lemma_pass_wrap(Variant::Advantage, b);
    lemma_replacement_no_close(Variant::Advantage, b);
    lemma_pass_identity_no_close(replacement(Variant::Advantage, b), Variant::Disadvantage);
}

/// A lone disadvantage token is rewritten to the disadvantage span
/// fragment, wherever neither earlier pass matches anywhere in it.
pub proof fn lemma_disadvantage_token(b: Seq<char>)
    requires
        body_shape(b),
        no_inner_close(b),
        no_match(wrap(Variant::Disadvantage, b), Variant::Plain),
        no_match(wrap(Variant::Disadvantage, b), Variant::Advantage),
    ensures
        spec_rewrite(wrap(Variant::Disadvantage, b)) == replacement(Variant::Disadvantage, b),
{
    lemma_pass_identity(wrap(Variant::Disadvantage, b), Variant::Plain);
    lemma_pass_identity(wrap(Variant::Disadvantage, b), Variant::Advantage);
    lemma_pass_wrap(Variant::Disadvantage, b);
    lemma_replacement_no_close(Variant::Disadvantage, b);
}

/// `b` holds no `[` anywhere.
pub open spec fn bracket_free(b: Seq<char>) -> bool {
    forall|j: int| 0 <= j < b.len() ==> b[j] != '['
}

/// In a lone signed token whose body holds no `[`, an earlier pass with
/// a different opening delimiter matches nowhere: the sign after `[[`
/// stops a match at the front, and no other `[[` stands anywhere.
proof fn lemma_signed_wrap_no_match(v: Variant, w: Variant, b: Seq<char>)
    requires
        v != Variant::Plain,
        w != v,
        bracket_free(b),
    ensures
        no_match(wrap(v, b), w),
{
    let t = wrap(v, b);
    let lb = b.len() as int;
    assert(t[2] == '+' || t[2] == '-');
    assert forall|j: int| 0 <= j < t.len() implies match_end_at(t, w, j) is None by {
        if j == 0 {
            if prefix_ok(t, w, 0) {
                // Only the plain pattern gets past the sign, and the sign
                // is neither a digit nor an uppercase letter.
                assert(w is Plain);
                assert(digit_run_end(t, 2) == 2);
                assert(!spec_is_upper(t[2]));
            }
        } else {
            assert(!prefix_ok(t, w, j)) by {
                if prefix_ok(t, w, j) {
                    assert(t[j] == '[' && t[j + 1] == '[');
                    assert(j != 1);
                    assert(2 <= j && t[j] == '[');
                    if 3 <= j < 3 + lb {
                        assert(t[j] == b[j - 3]);
                    }
                    assert(false);
                }
            }
        }
    }
}

/// A lone advantage token whose body holds no `[` is rewritten to the
/// advantage span fragment: nothing in it feeds the plain pass.
pub proof fn lemma_advantage_token_bracket_free(b: Seq<char>)
    requires
        body_shape(b),
        no_inner_close(b),
        bracket_free(b),
    ensures
        spec_rewrite(wrap(Variant::Advantage, b)) == replacement(Variant::Advantage, b),
{
    lemma_signed_wrap_no_match(Variant::Advantage, Variant::Plain, b);
    lemma_advantage_token(b);
}

/// A lone disadvantage token whose body holds no `[` is rewritten to the
/// disadvantage span fragment: nothing in it feeds the earlier passes.
pub proof fn lemma_disadvantage_token_bracket_free(b: Seq<char>)
    requires
        body_shape(b),
        no_inner_close(b),
        bracket_free(b),
    ensures
        spec_rewrite(wrap(Variant::Disadvantage, b)) == replacement(Variant::Disadvantage, b),
{
    lemma_signed_wrap_no_match(Variant::Disadvantage, Variant::Plain, b);
    lemma_signed_wrap_no_match(Variant::Disadvantage, Variant::Advantage, b);
    lemma_disadvantage_token(b);
}

/// Text without `[` cannot open a token: a pass keeps it as it stands.
proof fn lemma_pass_identity_bracket_free(s: Seq<char>, v: Variant)
    requires
        bracket_free(s),
    ensures
        spec_pass(s, v) == s,
{
    assert forall|j: int| 0 <= j < s.len() implies match_end_at(s, v, j) is None by {
        assert(!prefix_ok(s, v, j));
    }
    lemma_pass_identity(s, v);
}

proof fn lemma_bracket_free_concat(x: Seq<char>, y: Seq<char>)
    requires
        bracket_free(x),
        bracket_free(y),
    ensures
        bracket_free(x + y),
{
    assert forall|j: int| 0 <= j < (x + y).len() implies (x + y)[j] != '[' by {
        if j < x.len() {
            assert((x + y)[j] == x[j]);
        } else {
            assert((x + y)[j] == y[j - x.len()]);
        }
    }
}

proof fn lemma_replacement_bracket_free(v: Variant, b: Seq<char>)
    requires
        bracket_free(b),
    ensures
        bracket_free(replacement(v, b)),
{
    lemma_tags_ok(v);
    lemma_bracket_free_concat(open_tag_seq(v), b);
    lemma_bracket_free_concat(open_tag_seq(v) + b, close_tag_seq());
}

/// Several tokens in one text unit are each rewritten independently and
/// in place, left to right: around a plain token and an advantage token,
/// separated by text without `[`, everything is kept as it stands and
/// each token becomes exactly its own span fragment.
#[verifier::rlimit(100)]
#[verifier::spinoff_prover]
pub proof fn lemma_two_tokens_left_to_right(
    u0: Seq<char>,
    b1: Seq<char>,
    u1: Seq<char>,
    b2: Seq<char>,
    u2: Seq<char>,
)
    requires
        body_shape(b1),
        no_inner_close(b1),
        bracket_free(b1),
        body_shape(b2),
        no_inner_close(b2),
        bracket_free(b2),
        bracket_free(u0),
        bracket_free(u1),
        bracket_free(u2),
    ensures
        spec_rewrite(u0 + wrap(Variant::Plain, b1) + u1 + wrap(Variant::Advantage, b2) + u2)
            == u0 + replacement(Variant::Plain, b1) + u1 + replacement(Variant::Advantage, b2)
            + u2,
{
    let w1 = wrap(Variant::Plain, b1);
    let w2 = wrap(Variant::Advantage, b2);
    let r1 = replacement(Variant::Plain, b1);
    let r2 = replacement(Variant::Advantage, b2);
    let s0 = u0 + w1 + u1 + w2 + u2;
    let s1 = u0 + r1 + u1 + w2 + u2;
    let s2 = u0 + r1 + u1 + r2 + u2;
    lemma_wrap_chars(Variant::Plain, b1);
    lemma_wrap_chars(Variant::Advantage, b2);
    let lb1 = b1.len() as int;
    let lb2 = b2.len() as int;
    let l0 = u0.len() as int;
    let n1 = l0 + w1.len() as int;
    let n2 = n1 + u1.len() as int;
    let n3 = n2 + w2.len() as int;
    let n = s0.len() as int;
    assert(n == n3 + u2.len());

    // Where each character of the original text comes from.
    assert(forall|j: int| 0 <= j < l0 ==> s0[j] == u0[j]);
    assert(forall|k: int| 0 <= k < w1.len() ==> s0[l0 + k] == w1[k]);
    assert(forall|k: int| 0 <= k < u1.len() ==> s0[n1 + k] == u1[k]);
    assert(forall|k: int| 0 <= k < w2.len() ==> s0[n2 + k] == w2[k]);
    assert(forall|k: int| 0 <= k < u2.len() ==> s0[n3 + k] == u2[k]);

    // The plain pass finds the first token and nothing else.
    assert(token_at(s0, Variant::Plain, b1, l0));
    lemma_token_match(s0, Variant::Plain, b1, l0);
    assert forall|j: int| 0 <= j < l0 implies match_end_at(s0, Variant::Plain, j) is None by {
        assert(s0[j] == u0[j]);
        assert(!prefix_ok(s0, Variant::Plain, j));
    }
    assert forall|j: int| n1 <= j < n implies match_end_at(s0, Variant::Plain, j) is None by {
        if j < n2 {
            assert(s0[j] == u1[j - n1]);
            assert(!prefix_ok(s0, Variant::Plain, j));
        } else if j == n2 {
            // The second token opens here, but its sign is neither a
            // digit nor an uppercase letter, so the plain pattern fails.
            assert(s0[n2 + 2] == '+');
            lemma_digit_run_end_from_charac(s0, n2 + 2, n2 + 2);
            assert(!spec_is_upper(s0[n2 + 2]));
        } else if j == n2 + 1 {
            assert(s0[j + 1] == '+');
            assert(!prefix_ok(s0, Variant::Plain, j));
        } else if j < n3 {
            assert(s0[j] == w2[j - n2]);
            assert(s0[j] != '[') by {
                let k = j - n2;
                if 3 <= k < 3 + lb2 {
                    assert(w2[k] == b2[k - 3]);
                }
            }
            assert(!prefix_ok(s0, Variant::Plain, j));
        } else {
            assert(s0[j] == u2[j - n3]);
            assert(!prefix_ok(s0, Variant::Plain, j));
        }
    }
    lemma_pass_from_segment(s0, Variant::Plain, 0, l0);
    assert(match_end_at(s0, Variant::Plain, l0) == Some(l0 + 2 + lb1));
    assert(s0.subrange(l0 + 2, l0 + 2 + lb1) =~= b1) by {
        assert(forall|k: int| 0 <= k < lb1 ==> s0[l0 + 2 + k] == #[trigger] w1[2 + k]);
    }
    assert(spec_pass_from(s0, Variant::Plain, l0) == r1 + spec_pass_from(
        s0,
        Variant::Plain,
        n1,
    ));
    lemma_pass_from_segment(s0, Variant::Plain, n1, n);
    assert(spec_pass_from(s0, Variant::Plain, n) == Seq::<char>::empty());
    assert(s0.subrange(0, l0) =~= u0);
    assert(spec_pass(s0, Variant::Plain) =~= s1);

    // The advantage pass finds the second token and nothing else.
    let m2 = l0 + r1.len() as int + u1.len() as int;
    let m3 = m2 + w2.len() as int;
    let m = s1.len() as int;
    assert(m == m3 + u2.len());
    lemma_replacement_bracket_free(Variant::Plain, b1);
    assert(forall|j: int| 0 <= j < l0 ==> s1[j] == u0[j]);
    assert(forall|k: int| 0 <= k < r1.len() ==> s1[l0 + k] == r1[k]);
    assert(forall|k: int| 0 <= k < u1.len() ==> s1[l0 + r1.len() + k] == u1[k]);
    assert(forall|k: int| 0 <= k < w2.len() ==> s1[m2 + k] == w2[k]);
    assert(forall|k: int| 0 <= k < u2.len() ==> s1[m3 + k] == u2[k]);
    assert(token_at(s1, Variant::Advantage, b2, m2));
    lemma_token_match(s1, Variant::Advantage, b2, m2);
    assert forall|j: int| 0 <= j < m2 implies match_end_at(s1, Variant::Advantage, j) is None by {
        assert(s1[j] != '[') by {
            if j < l0 {
                assert(s1[j] == u0[j]);
            } else if j < l0 + r1.len() {
                assert(s1[j] == r1[j - l0]);
            } else {
                assert(s1[j] == u1[j - l0 - r1.len()]);
            }
        }
        assert(!prefix_ok(s1, Variant::Advantage, j));
    }
    assert forall|j: int| m3 <= j < m implies match_end_at(s1, Variant::Advantage, j) is None by {
        assert(s1[j] == u2[j - m3]);
        assert(!prefix_ok(s1, Variant::Advantage, j));
    }
    lemma_pass_from_segment(s1, Variant::Advantage, 0, m2);
    assert(match_end_at(s1, Variant::Advantage, m2) == Some(m2 + 3 + lb2));
    assert(s1.subrange(m2 + 3, m2 + 3 + lb2) =~= b2) by {
        assert(forall|k: int| 0 <= k < lb2 ==> s1[m2 + 3 + k] == #[trigger] w2[3 + k]);
    }
    assert(spec_pass_from(s1, Variant::Advantage, m2) == r2 + spec_pass_from(
        s1,
        Variant::Advantage,
        m3,
    ));
    lemma_pass_from_segment(s1, Variant::Advantage, m3, m);
    assert(spec_pass_from(s1, Variant::Advantage, m) == Seq::<char>::empty());
    assert(s1.subrange(0, m2) =~= u0 + r1 + u1);
    assert(spec_pass(s1, Variant::Advantage) =~= s2);

    // The disadvantage pass has nothing left to match.
    lemma_replacement_bracket_free(Variant::Advantage, b2);
    lemma_bracket_free_concat(u0, r1);
    lemma_bracket_free_concat(u0 + r1, u1);
    lemma_bracket_free_concat(u0 + r1 + u1, r2);
    lemma_bracket_free_concat(u0 + r1 + u1 + r2, u2);
    lemma_pass_identity_bracket_free(s2, Variant::Disadvantage);
}

/// Running the rewrite twice over a lone plain token is the same as
/// running it once: the produced fragment is not matched again.
pub proof fn lemma_rewrite_not_doubled(b: Seq<char>)
    requires
        body_shape(b),
        no_inner_close(b),
    ensures
        spec_rewrite(spec_rewrite(wrap(Variant::Plain, b))) == spec_rewrite(
            wrap(Variant::Plain, b),
        ),
{
    lemma_plain_token(b);
    lemma_rewrite_stable_on_fragment(Variant::Plain, b);
}

} // verus!
