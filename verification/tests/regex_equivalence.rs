//! The rewriter against the three regular-expression passes it stands
//! for: both are run over a corpus of plain, tricky and malformed inputs
//! and must agree exactly.

use mdbook_dice::rewrite::rewrite;
use regex::Regex;

fn regex_rewrite(text: &str) -> String {
    let re_normal = Regex::new(r"\[\[((\d+)?[A-Z].*?\d+)\]\]").unwrap();
    let re_advantage = Regex::new(r"\[\[\+((\d+)?[A-Z].*?\d+)\]\]").unwrap();
    let re_disadvantage = Regex::new(r"\[\[\-((\d+)?[A-Z].*?\d+)\]\]").unwrap();
    let step = re_normal.replace_all(text, "<span class='dice-roll'>$1</span>").to_string();
    let step = re_advantage
        .replace_all(&step, "<span class='dice-roll advantage'>$1</span>")
        .to_string();
    re_disadvantage
        .replace_all(&step, "<span class='dice-roll disadvantage'>$1</span>")
        .to_string()
}

#[test]
fn agrees_with_the_regex_passes() {
    let corpus = [
        "",
        "plain text without notation",
        "[[2D6]]",
        "[[D20]]",
        "[[+1D20]]",
        "[[-1D20]]",
        "[[1D8+3]]",
        "roll [[1D20]] then [[+2D6]]",
        "[[d20]]",
        "[[ABC]]",
        "[[D]]",
        "[[12X34]]",
        "[[A[[2D6]]1]]",
        "[[ABC]] x [[2D6]]",
        "[[A1]]B2]]",
        "[[A[[2D6]]",
        "[[1D4]][[+1D6]]",
        "[[+A[[B2]]",
        "[[-A[[+B2]]",
        "[[A\n2]]",
        "line one [[1D6]]\nline two [[-2D8]]",
        "[[2D6<b>8]]",
        "[[ [[2D6]]",
        "[[+2D6]] and [[-3D8]] and [[4D10]]",
        "[[9999999D9999999]]",
        "unclosed [[2D6",
        "[[2D6]] trailing [[",
        "nested [[A[[+1D4]]2]] end",
        "[[A+1]]",
        "[[A-1]]",
        "[[+A-1]]",
        "[[Z0]]",
        "[[0Z0]]",
        "text ]] before [[1D2]] after",
    ];
    for text in corpus {
        assert_eq!(rewrite(text), regex_rewrite(text), "input: {:?}", text);
    }
}

#[test]
fn agrees_on_already_rewritten_output() {
    let corpus = ["[[2D6]]", "roll [[1D20]] then [[+2D6]]", "[[-1D4]] x"];
    for text in corpus {
        let once = rewrite(text);
        assert_eq!(rewrite(&once), regex_rewrite(&once), "input: {:?}", text);
    }
}
