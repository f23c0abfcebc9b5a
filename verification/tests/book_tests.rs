//! The rewrite over a document tree: chapter text is rewritten, nested
//! chapters are reached, and structural items pass through untouched.

use mdbook_dice::book::{rewrite_book, rewrite_item, Book, BookItem, Chapter};

fn chapter(name: &str, content: &str, sub_items: Vec<BookItem>) -> BookItem {
    BookItem::Chapter(Chapter {
        name: String::from(name),
        content: String::from(content),
        sub_items,
    })
}

#[test]
fn chapter_content_rewritten() {
    let book = Book { sections: vec![chapter("Combat", "roll [[2D6]] now", vec![])] };
    let out = rewrite_book(&book);
    assert_eq!(out.sections.len(), 1);
    match &out.sections[0] {
        BookItem::Chapter(c) => {
            assert_eq!(c.name, "Combat");
            assert_eq!(c.content, "roll <span class='dice-roll'>2D6</span> now");
            assert!(c.sub_items.is_empty());
        }
        _ => panic!("expected a chapter"),
    }
}

#[test]
fn structural_items_pass_through() {
    let book = Book {
        sections: vec![
            BookItem::Separator,
            BookItem::PartTitle(String::from("Part [[1D1]] One")),
            chapter("C", "[[+1D20]]", vec![]),
        ],
    };
    let out = rewrite_book(&book);
    assert_eq!(out.sections.len(), 3);
    assert!(matches!(out.sections[0], BookItem::Separator));
    match &out.sections[1] {
        // A part title bears no chapter text: it is kept as it stands.
        BookItem::PartTitle(t) => assert_eq!(t, "Part [[1D1]] One"),
        _ => panic!("expected a part title"),
    }
    match &out.sections[2] {
        BookItem::Chapter(c) => {
            assert_eq!(c.content, "<span class='dice-roll advantage'>1D20</span>");
        }
        _ => panic!("expected a chapter"),
    }
}

#[test]
fn nested_chapters_rewritten() {
    let inner = chapter("Inner", "[[-1D4]]", vec![]);
    let outer = chapter("Outer", "[[1D6]]", vec![inner, BookItem::Separator]);
    let out = rewrite_item(&outer);
    match out {
        BookItem::Chapter(c) => {
            assert_eq!(c.content, "<span class='dice-roll'>1D6</span>");
            assert_eq!(c.sub_items.len(), 2);
            match &c.sub_items[0] {
                BookItem::Chapter(sub) => {
                    assert_eq!(sub.name, "Inner");
                    assert_eq!(sub.content, "<span class='dice-roll disadvantage'>1D4</span>");
                }
                _ => panic!("expected a nested chapter"),
            }
            assert!(matches!(c.sub_items[1], BookItem::Separator));
        }
        _ => panic!("expected a chapter"),
    }
}

#[test]
fn empty_book_stays_empty() {
    let out = rewrite_book(&Book { sections: vec![] });
    assert!(out.sections.is_empty());
}
