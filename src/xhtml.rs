//! The XHTML page of a chapter, as the book builder receives it.
//!
//! The content is cut into paragraphs at blank lines; each non-blank
//! paragraph, trimmed and escaped, becomes a `<p>` element.
use vstd::prelude::*;
use vstd::string::StringExecFns;
use crate::text::{chars_of, slice_chars, trim, trim_of};

verus! {

pub open spec fn escape_char(c: char) -> Seq<char> {
    if c == '&' {
        "&amp;"@
    } else if c == '<' {
        "&lt;"@
    } else if c == '>' {
        "&gt;"@
    } else {
        seq![c]
    }
}

/// `s` as HTML text: `&`, `<` and `>` replaced by their entities.
pub open spec fn html_escaped(s: Seq<char>) -> Seq<char>
    decreases s.len(),
{
    if s.len() == 0 {
        Seq::empty()
    } else {
        html_escaped(s.drop_last()) + escape_char(s.last())
    }
}

/// Relies on `html_escape::encode_text`, which replaces `&`, `<` and `>`
/// by `&amp;`, `&lt;` and `&gt;` and keeps every other character.
#[verifier::external_body]
fn escape_text(s: &str) -> (r: String)
    ensures
        r@ == html_escaped(s@),
{
    html_escape::encode_text(s).into_owned()
}

/// The pieces of `s[start..]` cut at each blank-line separator `"\n\n"`,
/// searching from index `i` on, from left to right.
pub open spec fn split_from(s: Seq<char>, start: int, i: int) -> Seq<Seq<char>>
    decreases s.len() - i,
{
    if i < 0 || i + 1 >= s.len() {
        seq![s.subrange(start, s.len() as int)]
    } else if s[i] == '\n' && s[i + 1] == '\n' {
        seq![s.subrange(start, i)] + split_from(s, i + 2, i + 2)
    } else {
        split_from(s, start, i + 1)
    }
}

/// The pieces of `s` between blank-line separators `"\n\n"`.
pub open spec fn paragraph_pieces(s: Seq<char>) -> Seq<Seq<char>> {
    split_from(s, 0, 0)
}

pub open spec fn strings_view(v: Seq<String>) -> Seq<Seq<char>> {
    v.map_values(|s: String| s@)
}

/// Cuts `content` into the pieces between its blank-line separators.
pub fn paragraphs(content: &str) -> (r: Vec<String>)
    ensures
        strings_view(r@) == paragraph_pieces(content@),
{
    let s = chars_of(content);
    let n = s.len();
    let mut out: Vec<String> = Vec::new();
    let mut start: usize = 0;
    let mut i: usize = 0;
    while n - i > 1
        invariant
            s@ == content@,
            n == s@.len(),
            start <= i,
            i <= n,
            strings_view(out@) + split_from(s@, start as int, i as int) == paragraph_pieces(s@),
        decreases n - i,
    {
        if s[i] == '\n' && s[i + 1] == '\n' {
            let ghost before = out@;
            out.push(slice_chars(&s, start, i));
            assert(strings_view(out@) =~= strings_view(before).push(s@.subrange(start as int, i as int)));
            assert(strings_view(out@) + split_from(s@, i + 2, i + 2) =~= strings_view(before) + split_from(
                s@,
                start as int,
                i as int,
            ));
            i = i + 2;
            start = i;
        } else {
            i = i + 1;
        }
    }
    let ghost before = out@;
    out.push(slice_chars(&s, start, n));
    assert(strings_view(out@) =~= strings_view(before) + split_from(s@, start as int, i as int));
    out
}

/// The `<p>` elements of the non-blank pieces, each trimmed and escaped.
pub open spec fn paragraph_items(ps: Seq<Seq<char>>) -> Seq<Seq<char>>
    decreases ps.len(),
{
    if ps.len() == 0 {
        Seq::empty()
    } else {
        let before = paragraph_items(ps.drop_last());
        let t = trim_of(ps.last());
        if t.len() == 0 {
            before
        } else {
            before.push("<p>"@ + html_escaped(t) + "</p>"@)
        }
    }
}

/// The items joined by line feeds.
pub open spec fn join_lines(items: Seq<Seq<char>>) -> Seq<char>
    decreases items.len(),
{
    if items.len() == 0 {
        Seq::empty()
    } else if items.len() == 1 {
        items[0]
    } else {
        join_lines(items.drop_last()) + "\n"@ + items.last()
    }
}

/// The body of a chapter's page: its paragraphs as `<p>` elements, one per line.
pub open spec fn page_body(content: Seq<char>) -> Seq<char> {
    join_lines(paragraph_items(paragraph_pieces(content)))
}

/// The XHTML page of a chapter: the escaped title as the page title and as
/// its heading, followed by the body.
pub open spec fn xhtml_page(title: Seq<char>, content: Seq<char>) -> Seq<char> {
    "<?xml version=\"1.0\" encoding=\"utf-8\"?>\n<!DOCTYPE html>\n<html xmlns=\"http://www.w3.org/1999/xhtml\">\n<head>\n  <title>"@
        + html_escaped(title) + "</title>\n</head>\n<body>\n  <h1>"@ + html_escaped(title)
        + "</h1>\n  "@ + page_body(content) + "\n</body>\n</html>"@
}

/// The body of a chapter's page.
pub fn render_body(content: &str) -> (r: String)
    ensures
        r@ == page_body(content@),
{
    let pieces = paragraphs(content);
    let ghost ps = strings_view(pieces@);
    let mut out = String::new();
    let mut count: usize = 0;
    let mut k: usize = 0;
    while k < pieces.len()
        invariant
            ps == strings_view(pieces@),
            ps == paragraph_pieces(content@),
            k <= pieces@.len(),
            count <= k,
            count == paragraph_items(ps.take(k as int)).len(),
            out@ == join_lines(paragraph_items(ps.take(k as int))),
        decreases pieces@.len() - k,
    {
        assert(ps.take(k as int + 1).drop_last() =~= ps.take(k as int));
        assert(ps.take(k as int + 1).last() == pieces@[k as int]@);
        let t = trim(pieces[k].as_str());
        if !t.as_str().is_empty() {
            let mut item = String::from_str("<p>");
            let esc = escape_text(t.as_str());
            item.append(esc.as_str());
            item.append("</p>");
            let ghost items = paragraph_items(ps.take(k as int));
            if count > 0 {
                out.append("\n");
            }
            out.append(item.as_str());
            assert(items.push(item@).drop_last() =~= items);
            count = count + 1;
        }
        k = k + 1;
    }
    assert(ps.take(pieces@.len() as int) =~= ps);
    out
}

/// The XHTML page of a chapter with this title and content.
pub fn chapter_xhtml(title: &str, content: &str) -> (r: String)
    ensures
        r@ == xhtml_page(title@, content@),
{
    let esc = escape_text(title);
    let body = render_body(content);
    let mut page = String::from_str(
        "<?xml version=\"1.0\" encoding=\"utf-8\"?>\n<!DOCTYPE html>\n<html xmlns=\"http://www.w3.org/1999/xhtml\">\n<head>\n  <title>",
    );
    page.append(esc.as_str());
    page.append("</title>\n</head>\n<body>\n  <h1>");
    page.append(esc.as_str());
    page.append("</h1>\n  ");
    page.append(body.as_str());
    page.append("\n</body>\n</html>");
    page
}

} // verus!
