use vstd::prelude::*;

verus! {

/// What the markdown engine produces for a body text: a function of the text
/// alone, with the fixed extension set enabled.
pub uninterp spec fn html_of(body: Seq<char>) -> Seq<char>;

/// Relies on `pulldown_cmark::Parser::new_ext` and
/// `pulldown_cmark::html::push_html`: rendering reads nothing but the body
/// text, never fails, and is deterministic, so its result is a function of
/// the text alone; footnotes, smart punctuation, strikethrough and tables
/// are enabled.
#[verifier::external_body]
pub(crate) fn render_markdown(body: &str) -> (r: String)
    ensures
        r@ == html_of(body@),
{
    let mut options = pulldown_cmark::Options::empty();
    options.insert(pulldown_cmark::Options::ENABLE_FOOTNOTES);
    options.insert(pulldown_cmark::Options::ENABLE_SMART_PUNCTUATION);
    options.insert(pulldown_cmark::Options::ENABLE_STRIKETHROUGH);
    options.insert(pulldown_cmark::Options::ENABLE_TABLES);
    let parser = pulldown_cmark::Parser::new_ext(body, options);
    let mut html = String::with_capacity(body.len());
    pulldown_cmark::html::push_html(&mut html, parser);
    html
}

/// Renders one document body to HTML, with the fixed extension set.
pub fn render_body(body: &str) -> (r: String)
    ensures
        r@ == html_of(body@),
{
    render_markdown(body)
}

/// Law: markdown rendering is deterministic — rendering the same body text
/// twice yields byte-identical HTML, since the output is a function of the
/// text alone.
pub proof fn lemma_render_deterministic(a: Seq<char>, b: Seq<char>)
    requires
        a == b,
    ensures
        html_of(a) == html_of(b),
{
}

} // verus!
