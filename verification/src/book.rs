//! The model of the host's document tree and the rewrite over it: every
//! chapter's text is rewritten, every structural item passes through
//! untouched, and the shape of the tree is kept as it stands.

use vstd::prelude::*;

use crate::notation::spec_rewrite;
use crate::rewrite::rewrite;

verus! {

broadcast use vstd::std_specs::vec::group_vec_axioms;

/// The mathematical model of one item of the document tree.
#[verifier::ext_equal]
pub enum ItemModel {
    Chapter { name: Seq<char>, content: Seq<char>, subs: Seq<ItemModel> },
    Separator,
    PartTitle(Seq<char>),
}

/// A chapter of the document tree: named text content with nested items.
#[derive(Debug)]
pub struct Chapter {
    pub name: String,
    pub content: String,
    pub sub_items: Vec<BookItem>,
}

/// One item of the document tree: a chapter bearing text, or a structural
/// item without text content.
#[derive(Debug)]
pub enum BookItem {
    Chapter(Chapter),
    Separator,
    PartTitle(String),
}

/// The document tree the host supplies: its top-level items in order.
#[derive(Debug)]
pub struct Book {
    pub sections: Vec<BookItem>,
}

/// What an item is, as a value of the model.
pub open spec fn item_model(it: BookItem) -> ItemModel
    decreases it,
    via item_model_decreases
{
    match it {
        BookItem::Chapter(c) => ItemModel::Chapter {
            name: c.name@,
            content: c.content@,
            subs: items_model(c.sub_items@),
        },
        BookItem::Separator => ItemModel::Separator,
        BookItem::PartTitle(t) => ItemModel::PartTitle(t@),
    }
}

/// What a sequence of items is, as values of the model, in order.
pub open spec fn items_model(its: Seq<BookItem>) -> Seq<ItemModel>
    decreases its,
{
    if its.len() == 0 {
        Seq::empty()
    } else {
        seq![item_model(its[0])] + items_model(its.drop_first())
    }
}

#[via_fn]
proof fn item_model_decreases(it: BookItem) {
    match it {
        BookItem::Chapter(c) => {
            assert(decreases_to!(it => it->Chapter_0));
            assert(decreases_to!(c => c.sub_items));
            assert(decreases_to!(c.sub_items => c.sub_items@));
        }
        _ => {}
    }
}

/// What a whole book is, as the models of its items in order.
pub open spec fn book_model(b: Book) -> Seq<ItemModel> {
    items_model(b.sections@)
}

/// The rewritten form of one item: a chapter keeps its name and its
/// shape, its text is rewritten, and its nested items are rewritten in
/// turn; any other item stays exactly what it was.
pub open spec fn rewritten_model(m: ItemModel) -> ItemModel
    decreases m,
    via rewritten_model_decreases
{
    match m {
        ItemModel::Chapter { name, content, subs } => ItemModel::Chapter {
            name: name,
            content: spec_rewrite(content),
            subs: rewritten_models(subs),
        },
        ItemModel::Separator => ItemModel::Separator,
        ItemModel::PartTitle(t) => ItemModel::PartTitle(t),
    }
}

/// The rewritten form of a sequence of items, in order.
pub open spec fn rewritten_models(ms: Seq<ItemModel>) -> Seq<ItemModel>
    decreases ms,
{
    if ms.len() == 0 {
        Seq::empty()
    } else {
        seq![rewritten_model(ms[0])] + rewritten_models(ms.drop_first())
    }
}

#[via_fn]
proof fn rewritten_model_decreases(m: ItemModel) {
    match m {
        ItemModel::Chapter { name, content, subs } => {
            assert(decreases_to!(m => m->subs));
        }
        _ => {}
    }
}

/// The model of a sequence of items, taken item by item.
pub proof fn lemma_items_model_index(its: Seq<BookItem>)
    ensures
        items_model(its).len() == its.len(),
        forall|i: int| 0 <= i < its.len() ==> items_model(its)[i] == item_model(its[i]),
    decreases its.len(),
{
    if its.len() > 0 {
        lemma_items_model_index(its.drop_first());
        assert forall|i: int| 0 <= i < its.len() implies items_model(its)[i] == item_model(
            its[i],
        ) by {
            if i > 0 {
                assert(items_model(its)[i] == items_model(its.drop_first())[i - 1]);
                assert(its.drop_first()[i - 1] == its[i]);
            }
        }
    }
}

/// The rewritten form of a sequence of items, taken item by item.
pub proof fn lemma_rewritten_models_index(ms: Seq<ItemModel>)
    ensures
        rewritten_models(ms).len() == ms.len(),
        forall|i: int| 0 <= i < ms.len() ==> rewritten_models(ms)[i] == rewritten_model(ms[i]),
    decreases ms.len(),
{
    if ms.len() > 0 {
        lemma_rewritten_models_index(ms.drop_first());
        assert forall|i: int| 0 <= i < ms.len() implies rewritten_models(ms)[i]
            == rewritten_model(ms[i]) by {
            if i > 0 {
                assert(rewritten_models(ms)[i] == rewritten_models(ms.drop_first())[i - 1]);
                assert(ms.drop_first()[i - 1] == ms[i]);
            }
        }
    }
}

/// A structural item passes through the rewrite of the tree untouched.
pub proof fn lemma_structural_item_unchanged(m: ItemModel)
    requires
        !(m is Chapter),
    ensures
        rewritten_model(m) == m,
{
}

/// Rewrite one item of the tree, as [`rewritten_model`] describes it.
pub fn rewrite_item(it: &BookItem) -> (out: BookItem)
    ensures
        item_model(out) == rewritten_model(item_model(*it)),
    decreases *it,
{
    match it {
        BookItem::Chapter(c) => {
            let new_content = rewrite(c.content.as_str());
            let mut subs: Vec<BookItem> = Vec::new();
            let mut k: usize = 0;
            while k < c.sub_items.len()
                invariant
                    k <= c.sub_items@.len(),
                    subs@.len() == k,
                    forall|i: int|
                        0 <= i < k ==> item_model(#[trigger] subs@[i]) == rewritten_model(
                            item_model(c.sub_items@[i]),
                        ),
                    *it == BookItem::Chapter(*c),
                decreases c.sub_items@.len() - k,
            {
                proof {
                    assert(decreases_to!(*it => (*it)->Chapter_0));
                    assert(decreases_to!(*c => c.sub_items));
                    assert(decreases_to!(c.sub_items => c.sub_items@));
                    assert(decreases_to!(c.sub_items@ => c.sub_items@[k as int]));
                }
                let sub = rewrite_item(&c.sub_items[k]);
                subs.push(sub);
                k = k + 1;
            }
            let out = BookItem::Chapter(
                Chapter { name: c.name.clone(), content: new_content, sub_items: subs },
            );
            proof {
                lemma_items_model_index(subs@);
                lemma_items_model_index(c.sub_items@);
                lemma_rewritten_models_index(items_model(c.sub_items@));
                assert(items_model(subs@) =~= rewritten_models(items_model(c.sub_items@)));
                assert(item_model(out) =~= rewritten_model(item_model(*it)));
            }
            out
        }
        BookItem::Separator => BookItem::Separator,
        BookItem::PartTitle(t) => BookItem::PartTitle(t.clone()),
    }
}

/// Rewrite every chapter of the book, keeping the tree's shape and its
/// structural items as they stand.
pub fn rewrite_book(book: &Book) -> (out: Book)
    ensures
        book_model(out) == rewritten_models(book_model(*book)),
{
    let mut sections: Vec<BookItem> = Vec::new();
    let mut k: usize = 0;
    while k < book.sections.len()
        invariant
            k <= book.sections@.len(),
            sections@.len() == k,
            forall|i: int|
                0 <= i < k ==> item_model(#[trigger] sections@[i]) == rewritten_model(
                    item_model(book.sections@[i]),
                ),
        decreases book.sections@.len() - k,
    {
        let sec = rewrite_item(&book.sections[k]);
        sections.push(sec);
        k = k + 1;
    }
    let out = Book { sections };
    proof {
        lemma_items_model_index(sections@);
        lemma_items_model_index(book.sections@);
        lemma_rewritten_models_index(items_model(book.sections@));
        assert(items_model(sections@) =~= rewritten_models(items_model(book.sections@)));
    }
    out
}

} // verus!
