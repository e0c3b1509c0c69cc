//! Rendering Markdown to HTML through comrak.
use vstd::prelude::*;

verus! {

/// The HTML that `comrak::markdown_to_html` renders for `md` under
/// `comrak::Options::default()`.
pub uninterp spec fn comrak_default_html(md: Seq<char>) -> Seq<char>;

/// Calls `comrak::markdown_to_html` on `md` with `Options::default()`. The
/// contract claims only that the result is a function of `md`
/// (`comrak_default_html`); what that HTML is, is not stated.
#[verifier::external_body]
pub(crate) fn render_markdown_default(md: &str) -> (html: String)
    ensures
        html@ == comrak_default_html(md@),
{
    comrak::markdown_to_html(md, &comrak::Options::default())
}

} // verus!
