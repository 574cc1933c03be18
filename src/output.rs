//! The output stage: which articles each page lists and in what order, the
//! page HTML, and the per-article outputs, where a failed article becomes a
//! diagnostic instead of a page.

use vstd::prelude::*;
use crate::article::Metadata;
use crate::date::Date;
use crate::diag::{Diagnostic, Diagnostics, error_message};
use crate::paths::{file_name_of, stem_of};
use crate::render::{home_html, render_home, render_tag_page, tag_page_html};
use crate::site::{
    article_output_path, has_tag, lemma_listing_order_unique, newest_first, sort_newest_first,
    tag_posts, ties_in_order,
};

verus! {

pub open spec fn publish_dates(articles: Seq<Metadata>) -> Seq<Option<Date>> {
    articles.map_values(|m: Metadata| m.publish_date)
}

fn dates_of(articles: &Vec<Metadata>) -> (r: Vec<Option<Date>>)
    ensures
        r@ == publish_dates(articles@),
{
    let mut r: Vec<Option<Date>> = Vec::new();
    let mut i: usize = 0;
    while i < articles.len()
        invariant
            i <= articles@.len(),
            r@ == publish_dates(articles@).subrange(0, i as int),
        decreases articles.len() - i,
    {
        r.push(articles[i].publish_date);
        assert(r@ =~= publish_dates(articles@).subrange(0, i as int + 1));
        i = i + 1;
    }
    assert(r@ =~= publish_dates(articles@));
    r
}

/// `order` lists, once each, exactly the articles that carry `tag`, the
/// newest first, and of the same date the earlier article first.
pub open spec fn is_tag_order(articles: Seq<Metadata>, tag: Seq<char>, order: Seq<usize>) -> bool {
    &&& order.no_duplicates()
    &&& forall|k: int| 0 <= k < order.len() ==> order[k] < articles.len()
    &&& forall|i: int|
        0 <= i < articles.len() ==> (order.contains(i as usize) <==> has_tag(
            #[trigger] articles[i]@,
            tag,
        ))
    &&& newest_first(publish_dates(articles), order)
    &&& ties_in_order(publish_dates(articles), order)
}

/// `order` lists every article once, the newest first, and of the same date
/// the earlier article first.
pub open spec fn is_home_order(articles: Seq<Metadata>, order: Seq<usize>) -> bool {
    &&& order.no_duplicates()
    &&& forall|k: int| 0 <= k < order.len() ==> order[k] < articles.len()
    &&& forall|i: int| 0 <= i < articles.len() ==> #[trigger] order.contains(i as usize)
    &&& newest_first(publish_dates(articles), order)
    &&& ties_in_order(publish_dates(articles), order)
}

proof fn lemma_same_multiset(a: Seq<usize>, b: Seq<usize>)
    requires
        a.no_duplicates(),
        a.to_multiset() == b.to_multiset(),
    ensures
        b.no_duplicates(),
        forall|x: usize| a.contains(x) <==> b.contains(x),
{
    a.to_multiset_ensures();
    b.to_multiset_ensures();
    a.lemma_multiset_has_no_duplicates();
    b.lemma_multiset_has_no_duplicates_conv();
    assert forall|x: usize| a.contains(x) <==> b.contains(x) by {
        assert(a.contains(x) <==> a.to_multiset().count(x) > 0);
        assert(b.contains(x) <==> b.to_multiset().count(x) > 0);
    }
}

/// The articles that the page of `tag` lists, in the order it lists them.
pub fn tag_page_order(articles: &Vec<Metadata>, tag: &str) -> (r: Vec<usize>)
    ensures
        is_tag_order(articles@, tag@, r@),
{
    let posts = tag_posts(articles, tag);
    let dates = dates_of(articles);
    let r = sort_newest_first(&posts, &dates);
    proof {
        assert(posts@.no_duplicates()) by {
            assert forall|k: int, l: int| 0 <= k < posts@.len() && 0 <= l < posts@.len() && k != l
                implies posts@[k] != posts@[l] by {
                if k < l {
                    assert(posts@[k] < posts@[l]);
                } else {
                    assert(posts@[l] < posts@[k]);
                }
            }
        }
        lemma_same_multiset(posts@, r@);
    }
    r
}

/// The articles that the home page lists, in the order it lists them.
pub fn home_order(articles: &Vec<Metadata>) -> (r: Vec<usize>)
    ensures
        is_home_order(articles@, r@),
{
    let mut all: Vec<usize> = Vec::new();
    let mut i: usize = 0;
    while i < articles.len()
        invariant
            i <= articles@.len(),
            all@ == Seq::new(i as nat, |k: int| k as usize),
        decreases articles.len() - i,
    {
        all.push(i);
        assert(all@ =~= Seq::new(i as nat + 1, |k: int| k as usize));
        i = i + 1;
    }
    let dates = dates_of(articles);
    let r = sort_newest_first(&all, &dates);
    proof {
        lemma_same_multiset(all@, r@);
        assert forall|i: int| 0 <= i < articles@.len() implies #[trigger] r@.contains(i as usize) by {
            assert(all@[i] == i as usize);
        }
    }
    r
}


/// Tag aggregation: a tag page lists exactly the articles that carry the
/// tag, the newest first; no two listings meet that, so the page of a tag is
/// determined by the articles.
pub proof fn lemma_tag_order_determined(
    articles: Seq<Metadata>,
    tag: Seq<char>,
    s: Seq<usize>,
    t: Seq<usize>,
)
    requires
        is_tag_order(articles, tag, s),
        is_tag_order(articles, tag, t),
    ensures
        s == t,
{
    assert forall|x: usize| s.contains(x) <==> t.contains(x) by {
        if s.contains(x) {
            let k = choose|k: int| 0 <= k < s.len() && s[k] == x;
            assert(has_tag(articles[x as int]@, tag));
        }
        if t.contains(x) {
            let k = choose|k: int| 0 <= k < t.len() && t[k] == x;
            assert(has_tag(articles[x as int]@, tag));
        }
    }
    lemma_listing_order_unique(publish_dates(articles), s, t);
}

/// The listing order of the home page is determined by the articles.
pub proof fn lemma_home_order_determined(articles: Seq<Metadata>, s: Seq<usize>, t: Seq<usize>)
    requires
        is_home_order(articles, s),
        is_home_order(articles, t),
    ensures
        s == t,
{
    assert forall|x: usize| s.contains(x) <==> t.contains(x) by {
        if s.contains(x) {
            let k = choose|k: int| 0 <= k < s.len() && s[k] == x;
            assert(t.contains(x as int as usize));
        }
        if t.contains(x) {
            let k = choose|k: int| 0 <= k < t.len() && t[k] == x;
            assert(s.contains(x as int as usize));
        }
    }
    lemma_listing_order_unique(publish_dates(articles), s, t);
}

/// The (title, URL) pairs of the articles at `order`.
pub open spec fn listed_at(articles: Seq<Metadata>, urls: Seq<String>, order: Seq<usize>) -> Seq<
    (Seq<char>, Seq<char>),
> {
    order.map_values(|i: usize| (articles[i as int].title@, urls[i as int]@))
}

fn entries_at(articles: &Vec<Metadata>, urls: &Vec<String>, order: &Vec<usize>) -> (r: Vec<
    (Metadata, String),
>)
    requires
        articles@.len() == urls@.len(),
        forall|k: int| 0 <= k < order@.len() ==> order@[k] < articles@.len(),
    ensures
        crate::render::listed(r@) == listed_at(articles@, urls@, order@),
{
    let mut r: Vec<(Metadata, String)> = Vec::new();
    let mut k: usize = 0;
    while k < order.len()
        invariant
            k <= order@.len(),
            articles@.len() == urls@.len(),
            forall|j: int| 0 <= j < order@.len() ==> order@[j] < articles@.len(),
            crate::render::listed(r@) == listed_at(articles@, urls@, order@.subrange(0, k as int)),
        decreases order.len() - k,
    {
        let i = order[k];
        let m = articles[i].duplicate();
        let u = urls[i].clone();
        assert(m.title@ == articles@[i as int].title@);
        let ghost prev = r@;
        r.push((m, u));
        proof {
            let a = crate::render::listed(r@);
            let b = listed_at(articles@, urls@, order@.subrange(0, k as int + 1));
            assert(crate::render::listed(prev) =~= a.drop_last());
            assert(listed_at(articles@, urls@, order@.subrange(0, k as int)) =~= b.drop_last());
            assert(a.last() == b.last());
            assert(a =~= a.drop_last().push(a.last()));
            assert(b =~= b.drop_last().push(b.last()));
        }
        k = k + 1;
    }
    assert(order@.subrange(0, order@.len() as int) =~= order@);
    r
}

/// The page of `tag`, before its URLs are rewritten: the articles that
/// carry it, the newest first. `urls[i]` is the URL of `articles[i]`.
pub fn compile_tag(tag: &str, articles: &Vec<Metadata>, urls: &Vec<String>) -> (r: String)
    requires
        articles@.len() == urls@.len(),
    ensures
        exists|order: Seq<usize>|
            is_tag_order(articles@, tag@, order) && r@ == tag_page_html(
                tag@,
                listed_at(articles@, urls@, order),
            ),
{
    let order = tag_page_order(articles, tag);
    let entries = entries_at(articles, urls, &order);
    let r = render_tag_page(tag, &entries);
    assert(is_tag_order(articles@, tag@, order@));
    r
}

/// The home page, before its URLs are rewritten: every article, the newest
/// first. `urls[i]` is the URL of `articles[i]`.
pub fn compile_home(articles: &Vec<Metadata>, urls: &Vec<String>) -> (r: String)
    requires
        articles@.len() == urls@.len(),
    ensures
        exists|order: Seq<usize>|
            is_home_order(articles@, order) && r@ == home_html(listed_at(articles@, urls@, order)),
{
    let order = home_order(articles);
    let entries = entries_at(articles, urls, &order);
    let r = render_home(&entries);
    assert(is_home_order(articles@, order@));
    r
}

/// Where the page of the article at `input` goes in `output_dir`.
pub open spec fn article_target(output_dir: Seq<char>, input: Seq<char>) -> Seq<char> {
    output_dir + seq!['/'] + stem_of(file_name_of(input)->Some_0) + ".html"@
}

/// The outcome of compiling one article: its HTML, or why it failed.
pub open spec fn outcome_view(c: Result<String, String>) -> Result<Seq<char>, Seq<char>> {
    match c {
        Ok(h) => Ok(h@),
        Err(e) => Err(e@),
    }
}

pub open spec fn no_name_error() -> Seq<char> {
    "the path names no file"@
}

/// What one article contributes: a page (target and HTML), or a diagnostic.
pub open spec fn article_result(
    output_dir: Seq<char>,
    input: Seq<char>,
    compiled: Result<Seq<char>, Seq<char>>,
) -> Result<(Seq<char>, Seq<char>), Seq<char>> {
    match compiled {
        Err(e) => Err(error_message(input, e)),
        Ok(h) => if file_name_of(input) is None {
            Err(error_message(input, no_name_error()))
        } else {
            Ok((article_target(output_dir, input), h))
        },
    }
}

/// Turns the compiled article at `input` into the page to write into
/// `output_dir`, or, when it failed, into a diagnostic citing it.
pub fn output_article(
    log: &mut Diagnostics,
    input: &str,
    output_dir: &str,
    compiled: Result<String, String>,
) -> (r: Option<(String, String)>)
    ensures
        match article_result(output_dir@, input@, outcome_view(compiled)) {
            Ok((target, html)) => final(log).messages() == old(log).messages() && r is Some
                && r->Some_0.0@ == target && r->Some_0.1@ == html,
            Err(m) => final(log).messages() == old(log).messages().push(m) && r is None,
        },
{
    match compiled {
        Err(e) => {
            Diagnostic::push_error(log, input, e.as_str());
            None
        },
        Ok(html) => match article_output_path(output_dir, input) {
            Some(target) => Some((target, html)),
            None => {
                Diagnostic::push_error(log, input, "the path names no file");
                proof {
                    reveal_strlit("the path names no file");
                }
                None
            },
        },
    }
}

pub open spec fn outcomes_view(c: Seq<Result<String, String>>) -> Seq<Result<Seq<char>, Seq<char>>> {
    c.map_values(|x: Result<String, String>| outcome_view(x))
}

pub open spec fn texts(v: Seq<String>) -> Seq<Seq<char>> {
    v.map_values(|s: String| s@)
}

/// The pages that the articles yield, in order.
pub open spec fn article_pages(
    output_dir: Seq<char>,
    inputs: Seq<Seq<char>>,
    compiled: Seq<Result<Seq<char>, Seq<char>>>,
) -> Seq<(Seq<char>, Seq<char>)>
    recommends
        inputs.len() == compiled.len(),
    decreases inputs.len(),
{
    if inputs.len() == 0 {
        Seq::empty()
    } else {
        let rest = article_pages(output_dir, inputs.drop_last(), compiled.drop_last());
        match article_result(output_dir, inputs.last(), compiled.last()) {
            Ok(p) => rest.push(p),
            Err(_) => rest,
        }
    }
}

/// The diagnostics that the articles yield, in order.
pub open spec fn article_diagnostics(
    output_dir: Seq<char>,
    inputs: Seq<Seq<char>>,
    compiled: Seq<Result<Seq<char>, Seq<char>>>,
) -> Seq<Seq<char>>
    recommends
        inputs.len() == compiled.len(),
    decreases inputs.len(),
{
    if inputs.len() == 0 {
        Seq::empty()
    } else {
        let rest = article_diagnostics(output_dir, inputs.drop_last(), compiled.drop_last());
        match article_result(output_dir, inputs.last(), compiled.last()) {
            Ok(_) => rest,
            Err(m) => rest.push(m),
        }
    }
}

pub open spec fn pages_view(v: Seq<(String, String)>) -> Seq<(Seq<char>, Seq<char>)> {
    v.map_values(|p: (String, String)| (p.0@, p.1@))
}

/// The pages of all articles, `compiled[i]` being the outcome for
/// `inputs[i]`. Each failure is reported to `log` and the others proceed.
pub fn output_articles(
    log: &mut Diagnostics,
    inputs: &Vec<String>,
    compiled: Vec<Result<String, String>>,
    output_dir: &str,
) -> (r: Vec<(String, String)>)
    requires
        inputs@.len() == compiled@.len(),
    ensures
        pages_view(r@) == article_pages(output_dir@, texts(inputs@), outcomes_view(compiled@)),
        final(log).messages() == old(log).messages() + article_diagnostics(
            output_dir@,
            texts(inputs@),
            outcomes_view(compiled@),
        ),
{
    let mut r: Vec<(String, String)> = Vec::new();
    let mut compiled = compiled;
    let ghost all = compiled@;
    let mut rest: Vec<Result<String, String>> = Vec::new();
    // Take the outcomes out from the back, then walk them from the front.
    while compiled.len() > 0
        invariant
            rest@.len() + compiled@.len() == all.len(),
            compiled@ == all.subrange(0, compiled@.len() as int),
            forall|k: int| 0 <= k < rest@.len() ==> rest@[k] == all[all.len() - 1 - k],
        decreases compiled.len(),
    {
        let c = compiled.pop().unwrap();
        rest.push(c);
        assert(compiled@ =~= all.subrange(0, compiled@.len() as int));
    }
    let mut i: usize = 0;
    while i < inputs.len()
        invariant
            inputs@.len() == all.len(),
            i <= inputs@.len(),
            rest@.len() == all.len() - i,
            forall|k: int| 0 <= k < rest@.len() ==> rest@[k] == all[all.len() - 1 - k],
            pages_view(r@) == article_pages(
                output_dir@,
                texts(inputs@).subrange(0, i as int),
                outcomes_view(all).subrange(0, i as int),
            ),
            log.messages() == old(log).messages() + article_diagnostics(
                output_dir@,
                texts(inputs@).subrange(0, i as int),
                outcomes_view(all).subrange(0, i as int),
            ),
        decreases inputs.len() - i,
    {
        let c = rest.pop().unwrap();
        assert(c == all[i as int]);
        let ghost before = r@;
        let ghost before_log = log.messages();
        let out = output_article(log, inputs[i].as_str(), output_dir, c);
        proof {
            let ins = texts(inputs@).subrange(0, i as int + 1);
            let outs = outcomes_view(all).subrange(0, i as int + 1);
            assert(ins.drop_last() =~= texts(inputs@).subrange(0, i as int));
            assert(outs.drop_last() =~= outcomes_view(all).subrange(0, i as int));
            assert(ins.last() == inputs@[i as int]@);
            assert(outs.last() == outcome_view(all[i as int]));
        }
        match out {
            Some(p) => {
                r.push(p);
                assert(pages_view(r@) =~= pages_view(before).push((r@.last().0@, r@.last().1@)));
            },
            None => {},
        }
        proof {
            let ins = texts(inputs@).subrange(0, i as int + 1);
            let outs = outcomes_view(all).subrange(0, i as int + 1);
            match article_result(output_dir@, ins.last(), outs.last()) {
                Ok(_) => {},
                Err(m) => {
                    assert(log.messages() =~= old(log).messages() + article_diagnostics(
                        output_dir@,
                        ins,
                        outs,
                    ));
                },
            }
        }
        i = i + 1;
    }
    proof {
        assert(texts(inputs@).subrange(0, i as int) =~= texts(inputs@));
        assert(outcomes_view(all).subrange(0, i as int) =~= outcomes_view(all));
    }
    r
}


/// Partial failure: every article yields exactly one thing, a page or a
/// diagnostic. A failed article yields a diagnostic citing its file and no
/// page; every other article with a file name yields its page.
pub proof fn lemma_partial_failure(
    output_dir: Seq<char>,
    inputs: Seq<Seq<char>>,
    compiled: Seq<Result<Seq<char>, Seq<char>>>,
)
    requires
        inputs.len() == compiled.len(),
    ensures
        article_pages(output_dir, inputs, compiled).len() + article_diagnostics(
            output_dir,
            inputs,
            compiled,
        ).len() == inputs.len(),
        forall|i: int|
            0 <= i < inputs.len() && #[trigger] compiled[i] is Err ==> article_diagnostics(
                output_dir,
                inputs,
                compiled,
            ).contains(error_message(inputs[i], compiled[i]->Err_0)),
        forall|i: int|
            0 <= i < inputs.len() && #[trigger] compiled[i] is Ok && file_name_of(inputs[i]) is Some
                ==> article_pages(output_dir, inputs, compiled).contains(
                (article_target(output_dir, inputs[i]), compiled[i]->Ok_0),
            ),
    decreases inputs.len(),
{
    if inputs.len() > 0 {
        let ins = inputs.drop_last();
        let outs = compiled.drop_last();
        lemma_partial_failure(output_dir, ins, outs);
        let pages = article_pages(output_dir, inputs, compiled);
        let diags = article_diagnostics(output_dir, inputs, compiled);
        let pages0 = article_pages(output_dir, ins, outs);
        let diags0 = article_diagnostics(output_dir, ins, outs);
        assert forall|i: int| 0 <= i < inputs.len() && #[trigger] compiled[i] is Err implies diags.contains(
            error_message(inputs[i], compiled[i]->Err_0),
        ) by {
            if i < inputs.len() - 1 {
                assert(outs[i] == compiled[i]);
                assert(ins[i] == inputs[i]);
                let k = choose|k: int| 0 <= k < diags0.len() && diags0[k] == error_message(ins[i], outs[i]->Err_0);
                assert(diags[k] == diags0[k]);
            } else {
                assert(diags.last() == error_message(inputs[i], compiled[i]->Err_0));
            }
        }
        assert forall|i: int|
            0 <= i < inputs.len() && #[trigger] compiled[i] is Ok && file_name_of(inputs[i]) is Some
            implies pages.contains((article_target(output_dir, inputs[i]), compiled[i]->Ok_0)) by {
            if i < inputs.len() - 1 {
                assert(outs[i] == compiled[i]);
                assert(ins[i] == inputs[i]);
                let k = choose|k: int| 0 <= k < pages0.len() && pages0[k] == (article_target(output_dir, ins[i]), outs[i]->Ok_0);
                assert(pages[k] == pages0[k]);
            } else {
                assert(pages.last() == (article_target(output_dir, inputs[i]), compiled[i]->Ok_0));
            }
        }
    }
}

} // verus!
