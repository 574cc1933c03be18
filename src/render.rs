//! The HTML of the generated pages: a tag page, the home page and the link
//! list, each with every inserted text escaped.

use vstd::prelude::*;
use crate::article::Metadata;
use crate::links::LinkEntry;

verus! {

pub open spec fn escape_char(c: char) -> Seq<char> {
    if c == '&' {
        "&amp;"@
    } else if c == '<' {
        "&lt;"@
    } else if c == '>' {
        "&gt;"@
    } else if c == '"' {
        "&#34;"@
    } else if c == '\'' {
        "&#39;"@
    } else {
        seq![c]
    }
}

/// `s` with the characters that HTML reserves written as entities.
pub open spec fn escape(s: Seq<char>) -> Seq<char>
    decreases s.len(),
{
    if s.len() == 0 {
        Seq::empty()
    } else {
        escape(s.drop_last()) + escape_char(s.last())
    }
}

/// Escapes `s` for HTML text and attribute values.
pub fn escape_html(s: &str) -> (r: String)
    ensures
        r@ == escape(s@),
{
    proof {
        reveal_strlit("&amp;");
        reveal_strlit("&lt;");
        reveal_strlit("&gt;");
        reveal_strlit("&#34;");
        reveal_strlit("&#39;");
    }
    let n = s.unicode_len();
    let mut r = String::new();
    let mut i: usize = 0;
    while i < n
        invariant
            n == s@.len(),
            i <= n,
            r@ == escape(s@.subrange(0, i as int)),
        decreases n - i,
    {
        let c = s.get_char(i);
        if c == '&' {
            r.append("&amp;");
        } else if c == '<' {
            r.append("&lt;");
        } else if c == '>' {
            r.append("&gt;");
        } else if c == '"' {
            r.append("&#34;");
        } else if c == '\'' {
            r.append("&#39;");
        } else {
            r.append(s.substring_char(i, i + 1));
        }
        proof {
            let t = s@.subrange(0, i as int + 1);
            assert(t.drop_last() =~= s@.subrange(0, i as int));
            assert(s@.subrange(i as int, i as int + 1) =~= seq![c]);
        }
        i = i + 1;
    }
    assert(s@.subrange(0, n as int) =~= s@);
    r
}

/// One entry of a list of pages: a link to `url` titled `title`.
pub open spec fn entry_html(title: Seq<char>, url: Seq<char>) -> Seq<char> {
    "<li><a href=\""@ + escape(url) + "\">"@ + escape(title) + "</a></li>\n"@
}

/// The title and URL of each listed article.
pub open spec fn listed(articles: Seq<(Metadata, String)>) -> Seq<(Seq<char>, Seq<char>)> {
    articles.map_values(|p: (Metadata, String)| (p.0.title@, p.1@))
}

/// The entries of the (title, URL) pairs `items`, in order.
pub open spec fn entries_html(items: Seq<(Seq<char>, Seq<char>)>) -> Seq<char>
    decreases items.len(),
{
    if items.len() == 0 {
        Seq::empty()
    } else {
        entries_html(items.drop_last()) + entry_html(items.last().0, items.last().1)
    }
}

fn push_entries(out: &mut String, articles: &Vec<(Metadata, String)>)
    ensures
        final(out)@ == old(out)@ + entries_html(listed(articles@)),
{
    proof {
        reveal_strlit("<li><a href=\"");
        reveal_strlit("\">");
        reveal_strlit("</a></li>\n");
    }
    let mut i: usize = 0;
    while i < articles.len()
        invariant
            i <= articles@.len(),
            out@ == old(out)@ + entries_html(listed(articles@.subrange(0, i as int))),
        decreases articles.len() - i,
    {
        out.append("<li><a href=\"");
        out.append(escape_html(articles[i].1.as_str()).as_str());
        out.append("\">");
        out.append(escape_html(articles[i].0.title.as_str()).as_str());
        out.append("</a></li>\n");
        proof {
            let t = listed(articles@.subrange(0, i as int + 1));
            assert(t.drop_last() =~= listed(articles@.subrange(0, i as int)));
        }
        i = i + 1;
    }
    assert(articles@.subrange(0, articles@.len() as int) =~= articles@);
}

/// The page of tag `tag_name`.
pub open spec fn tag_page_html(tag_name: Seq<char>, items: Seq<(Seq<char>, Seq<char>)>) -> Seq<
    char,
> {
    "<h1>"@ + escape(tag_name) + "</h1>\n<ul>\n"@ + entries_html(items) + "</ul>\n"@
}

/// Renders the page of `tag_name`, listing `articles` (front matter and
/// URL) in the order given.
pub fn render_tag_page(tag_name: &str, articles: &Vec<(Metadata, String)>) -> (r: String)
    ensures
        r@ == tag_page_html(tag_name@, listed(articles@)),
{
    proof {
        reveal_strlit("<h1>");
        reveal_strlit("</h1>\n<ul>\n");
        reveal_strlit("</ul>\n");
    }
    let mut out = String::from_str("<h1>");
    out.append(escape_html(tag_name).as_str());
    out.append("</h1>\n<ul>\n");
    push_entries(&mut out, articles);
    out.append("</ul>\n");
    out
}

/// The home page.
pub open spec fn home_html(items: Seq<(Seq<char>, Seq<char>)>) -> Seq<char> {
    "<h1>Articles</h1>\n<ul>\n"@ + entries_html(items) + "</ul>\n"@
}

/// Renders the home page, listing `articles` (front matter and URL) in the
/// order given.
pub fn render_home(articles: &Vec<(Metadata, String)>) -> (r: String)
    ensures
        r@ == home_html(listed(articles@)),
{
    proof {
        reveal_strlit("<h1>Articles</h1>\n<ul>\n");
        reveal_strlit("</ul>\n");
    }
    let mut out = String::from_str("<h1>Articles</h1>\n<ul>\n");
    push_entries(&mut out, articles);
    out.append("</ul>\n");
    out
}

/// One entry of the link list.
pub open spec fn link_html(l: LinkEntry) -> Seq<char> {
    "<li><a href=\""@ + escape(l.url@) + "\">"@ + escape(l.title@) + "</a> "@ + escape(l.notes@)
        + "</li>\n"@
}

pub open spec fn links_html(links: Seq<LinkEntry>) -> Seq<char>
    decreases links.len(),
{
    if links.len() == 0 {
        Seq::empty()
    } else {
        links_html(links.drop_last()) + link_html(links.last())
    }
}

/// The page of the link list.
pub open spec fn links_page_html(links: Seq<LinkEntry>) -> Seq<char> {
    "<h1>Links</h1>\n<ul>\n"@ + links_html(links) + "</ul>\n"@
}

/// Renders the link list, in the order given.
pub fn render_links(links: &Vec<LinkEntry>) -> (r: String)
    ensures
        r@ == links_page_html(links@),
{
    proof {
        reveal_strlit("<h1>Links</h1>\n<ul>\n");
        reveal_strlit("</ul>\n");
        reveal_strlit("<li><a href=\"");
        reveal_strlit("\">");
        reveal_strlit("</a> ");
        reveal_strlit("</li>\n");
    }
    let mut out = String::from_str("<h1>Links</h1>\n<ul>\n");
    let ghost start = out@;
    let mut i: usize = 0;
    while i < links.len()
        invariant
            i <= links@.len(),
            out@ == start + links_html(links@.subrange(0, i as int)),
        decreases links.len() - i,
    {
        out.append("<li><a href=\"");
        out.append(escape_html(links[i].url.as_str()).as_str());
        out.append("\">");
        out.append(escape_html(links[i].title.as_str()).as_str());
        out.append("</a> ");
        out.append(escape_html(links[i].notes.as_str()).as_str());
        out.append("</li>\n");
        proof {
            let t = links@.subrange(0, i as int + 1);
            assert(t.drop_last() =~= links@.subrange(0, i as int));
        }
        i = i + 1;
    }
    assert(links@.subrange(0, links@.len() as int) =~= links@);
    out.append("</ul>\n");
    out
}

} // verus!
