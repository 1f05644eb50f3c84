//! The markup renderer. Rendering is done by the `pulldown_cmark` crate;
//! its output is named, not restated: `rendered_html_of` stands for the
//! HTML that the renderer produces for a given source text.

use vstd::prelude::*;

verus! {

/// The HTML fragment that the markup renderer produces for `s`, with the
/// tables extension enabled. The rendering is a function of the source
/// text alone.
pub uninterp spec fn rendered_html_of(s: Seq<char>) -> Seq<char>;

/// Relies on `pulldown_cmark::Parser::new_ext` and
/// `pulldown_cmark::html::push_html`: rendering is deterministic in the
/// source text and the chosen options (tables enabled, as the note format
/// asks).
#[verifier::external_body]
pub fn render_markup(s: &str) -> (r: String)
    ensures
        r@ == rendered_html_of(s@),
{
    let parser = pulldown_cmark::Parser::new_ext(s, pulldown_cmark::Options::ENABLE_TABLES);
    let mut out = String::new();
    pulldown_cmark::html::push_html(&mut out, parser);
    out
}

} // verus!
