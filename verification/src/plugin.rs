//! The plugin's face toward the host build tool: its name, the renderer
//! support answer, and one whole preprocessing run over a supplied tree.

use vstd::prelude::*;

use crate::book::{book_model, rewrite_book, rewritten_models, Book};
use crate::version::{
    check_host_version, parsed_version, spec_caret_compatible, spec_version_view, VersionCompat,
};

verus! {

/// The name the plugin answers to.
pub fn preprocessor_name() -> (s: &'static str)
    ensures
        s@ == "mdbook-dice"@,
{
    "mdbook-dice"
}

/// Every renderer is supported, whatever its name: the rewrite injects
/// markup that no renderer needs to know about.
pub fn supports_renderer(_renderer: &str) -> (b: bool)
    ensures
        b,
{
    true
}

/// Why a preprocessing run fails before it touches the tree.
#[derive(Clone, Copy, PartialEq, Eq, Structural, Debug)]
pub enum PreprocessError {
    SuppliedVersionUnparsable,
    ExpectedVersionUnparsable,
}

/// One whole preprocessing run: hold the host's supplied version against
/// the expected one, then rewrite every chapter of the tree. Version text
/// that does not parse is an error, the supplied text read first; a plain
/// version mismatch is not, it only raises the returned warning flag.
pub fn preprocess(expected_version: &str, supplied_version: &str, book: Book) -> (r: Result<
    (Book, bool),
    PreprocessError,
>)
    ensures
        match (parsed_version(supplied_version@), parsed_version(expected_version@)) {
            (Option::None, _) => r matches Err(PreprocessError::SuppliedVersionUnparsable),
            (Option::Some(_), Option::None) => r matches Err(
                PreprocessError::ExpectedVersionUnparsable,
            ),
            (Option::Some(a), Option::Some(e)) => r matches Ok(p) && book_model(p.0)
                == rewritten_models(book_model(book)) && p.1 == !spec_caret_compatible(
                spec_version_view(e),
                spec_version_view(a),
            ),
        },
{
    let warn = match check_host_version(expected_version, supplied_version) {
        VersionCompat::SuppliedUnparsable => {
            return Err(PreprocessError::SuppliedVersionUnparsable);
        }
        VersionCompat::ExpectedUnparsable => {
            return Err(PreprocessError::ExpectedVersionUnparsable);
        }
        VersionCompat::Mismatch => true,
        VersionCompat::Compatible => false,
    };
    let out = rewrite_book(&book);
    Ok((out, warn))
}

} // verus!
