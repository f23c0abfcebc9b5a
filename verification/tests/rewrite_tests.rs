//! The rewrite over plain text: one token of each variant, malformed
//! tokens, several tokens in one text unit, and stability of the output.

use mdbook_dice::notation::Variant;
use mdbook_dice::rewrite::{rewrite, run_pass};

#[test]
fn plain_text_unchanged() {
    assert_eq!(rewrite("no dice here"), "no dice here");
    assert_eq!(rewrite(""), "");
    assert_eq!(rewrite("a [single] bracket ]] pair [["), "a [single] bracket ]] pair [[");
}

#[test]
fn plain_token_rewritten() {
    assert_eq!(rewrite("[[2D6]]"), "<span class='dice-roll'>2D6</span>");
    assert_eq!(rewrite("[[D20]]"), "<span class='dice-roll'>D20</span>");
    assert_eq!(rewrite("[[1D8+3]]"), "<span class='dice-roll'>1D8+3</span>");
}

#[test]
fn advantage_token_rewritten() {
    assert_eq!(rewrite("[[+1D20]]"), "<span class='dice-roll advantage'>1D20</span>");
}

#[test]
fn disadvantage_token_rewritten() {
    assert_eq!(rewrite("[[-1D20]]"), "<span class='dice-roll disadvantage'>1D20</span>");
}

#[test]
fn rewriting_twice_is_rewriting_once() {
    let once = rewrite("[[2D6]]");
    assert_eq!(rewrite(&once), once);
    let mixed = rewrite("roll [[1D20]] then [[+2D6]] or [[-1D4]]");
    assert_eq!(rewrite(&mixed), mixed);
}

#[test]
fn several_tokens_left_to_right() {
    assert_eq!(
        rewrite("roll [[1D20]] then [[+2D6]]"),
        "roll <span class='dice-roll'>1D20</span> then <span class='dice-roll advantage'>2D6</span>"
    );
}

#[test]
fn malformed_tokens_unchanged() {
    assert_eq!(rewrite("[[d20]]"), "[[d20]]");
    assert_eq!(rewrite("[[ABC]]"), "[[ABC]]");
    assert_eq!(rewrite("[[2d6]]"), "[[2d6]]");
    assert_eq!(rewrite("[[D]]"), "[[D]]");
}

#[test]
fn newline_stops_a_body() {
    assert_eq!(rewrite("[[A\n2]]"), "[[A\n2]]");
}

#[test]
fn lazy_body_stops_at_first_close() {
    // The body runs only to the first digit run followed by `]]`.
    assert_eq!(rewrite("[[A1]]B2]]"), "<span class='dice-roll'>A1</span>B2]]");
    assert_eq!(rewrite("[[A[[2D6]]"), "<span class='dice-roll'>A[[2D6</span>");
}

#[test]
fn adjacent_tokens_rewritten_independently() {
    assert_eq!(
        rewrite("[[1D4]][[+1D6]]"),
        "<span class='dice-roll'>1D4</span><span class='dice-roll advantage'>1D6</span>"
    );
}

#[test]
fn single_pass_touches_only_its_variant() {
    assert_eq!(run_pass("[[1D4]] and [[+1D6]]", Variant::Plain),
        "<span class='dice-roll'>1D4</span> and [[+1D6]]");
    assert_eq!(run_pass("[[1D4]] and [[+1D6]]", Variant::Advantage),
        "[[1D4]] and <span class='dice-roll advantage'>1D6</span>");
    assert_eq!(run_pass("[[1D4]] and [[-1D6]]", Variant::Disadvantage),
        "[[1D4]] and <span class='dice-roll disadvantage'>1D6</span>");
}

#[test]
fn body_content_passes_through_unescaped() {
    assert_eq!(rewrite("[[2D6<b>8]]"), "<span class='dice-roll'>2D6<b>8</span>");
}
