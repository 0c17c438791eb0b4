//! URIs of documents: from file paths, and parsed from text, both through
//! the `url` crate that `tower_lsp` re-exports.
use vstd::prelude::*;
use tower_lsp::lsp_types::Url;

verus! {

/// The view of an optional string.
pub open spec fn opt_view(o: Option<String>) -> Option<Seq<char>> {
    match o {
        Some(s) => Some(s@),
        None => None,
    }
}

/// The text of the `file:` URL that `Url::from_file_path` makes of a path,
/// or `None` where it makes none (a relative path, on every target).
pub uninterp spec fn file_path_url(path: Seq<char>) -> Option<Seq<char>>;

/// The text of the URL that `Url::parse` reads from a string, or `None`
/// where the string is not an absolute URL.
pub uninterp spec fn parsed_url(text: Seq<char>) -> Option<Seq<char>>;

/// `Url::from_file_path`, rendered as the URL's text.  Claimed: the result
/// is a function of the path alone (for the target the crate is built
/// for).  What the URL is, and which paths have one, is left unsaid: the
/// crate's source shows it as percent-encoding of each path component
/// behind `file://`, by the target's path rules.
#[verifier::external_body]
pub(crate) fn file_path_to_uri(path: &str) -> (r: Option<String>)
    ensures
        opt_view(r) == file_path_url(path@),
{
    Url::from_file_path(path).ok().map(|u| u.to_string())
}

/// `Url::parse`, rendered as the URL's text.  Claimed: the result is a
/// function of the string alone.  Which strings parse, and how the parser
/// normalises them, is left unsaid (the WHATWG URL rules the crate follows).
#[verifier::external_body]
pub(crate) fn parse_url(text: &str) -> (r: Option<String>)
    ensures
        opt_view(r) == parsed_url(text@),
{
    Url::parse(text).ok().map(|u| u.to_string())
}

} // verus!
