//! The plugin's face toward the host: its name, the renderer answer, and
//! a whole preprocessing run.

use mdbook_dice::book::{Book, BookItem, Chapter};
use mdbook_dice::plugin::{preprocess, preprocessor_name, supports_renderer, PreprocessError};

#[test]
fn every_renderer_supported() {
    assert!(supports_renderer("html"));
    assert!(supports_renderer("nonexistent-renderer"));
    assert!(supports_renderer(""));
}

#[test]
fn the_plugin_names_itself() {
    assert_eq!(preprocessor_name(), "mdbook-dice");
}

fn one_chapter_book(content: &str) -> Book {
    Book {
        sections: vec![BookItem::Chapter(Chapter {
            name: String::from("C"),
            content: String::from(content),
            sub_items: vec![],
        })],
    }
}

#[test]
fn preprocess_rewrites_without_warning() {
    let (out, warn) = preprocess("0.4.37", "0.4.40", one_chapter_book("[[2D6]]")).unwrap();
    assert!(!warn);
    match &out.sections[0] {
        BookItem::Chapter(c) => assert_eq!(c.content, "<span class='dice-roll'>2D6</span>"),
        _ => panic!("expected a chapter"),
    }
}

#[test]
fn preprocess_warns_on_mismatch_and_still_rewrites() {
    let (out, warn) = preprocess("0.4.37", "0.5.0", one_chapter_book("[[+2D6]]")).unwrap();
    assert!(warn);
    match &out.sections[0] {
        BookItem::Chapter(c) => {
            assert_eq!(c.content, "<span class='dice-roll advantage'>2D6</span>")
        }
        _ => panic!("expected a chapter"),
    }
}

#[test]
fn preprocess_fails_on_version_text_that_is_no_version() {
    let r = preprocess("0.4.37", "not a version", one_chapter_book("x"));
    assert_eq!(r.unwrap_err(), PreprocessError::SuppliedVersionUnparsable);
    let r = preprocess("not a version", "0.4.40", one_chapter_book("x"));
    assert_eq!(r.unwrap_err(), PreprocessError::ExpectedVersionUnparsable);
}
