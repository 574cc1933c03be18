//! What the pages are made of: which articles a tag lists and in what
//! order, the set of tags, and where each page lives.

use vstd::prelude::*;
use crate::article::{Metadata, MetadataView};
use crate::date::{Date, opt_date_le, opt_date_is_le};
use crate::paths::{file_name, file_name_of, file_stem, join, stem_of};

verus! {

/// Compares two strings by their characters.
pub fn str_equal(a: &str, b: &str) -> (r: bool)
    ensures
        r == (a@ == b@),
{
    let n = a.unicode_len();
    if n != b.unicode_len() {
        return false;
    }
    let mut i: usize = 0;
    while i < n
        invariant
            n == a@.len(),
            n == b@.len(),
            i <= n,
            forall|j: int| 0 <= j < i ==> a@[j] == b@[j],
        decreases n - i,
    {
        if a.get_char(i) != b.get_char(i) {
            return false;
        }
        i = i + 1;
    }
    assert(a@ =~= b@);
    true
}

pub open spec fn has_tag(m: MetadataView, tag: Seq<char>) -> bool {
    m.tags.contains(tag)
}

pub fn metadata_has_tag(m: &Metadata, tag: &str) -> (r: bool)
    ensures
        r == has_tag(m@, tag@),
{
    let mut i: usize = 0;
    while i < m.tags.len()
        invariant
            i <= m.tags@.len(),
            forall|j: int| 0 <= j < i ==> m.tags@[j]@ != tag@,
        decreases m.tags.len() - i,
    {
        if str_equal(m.tags[i].as_str(), tag) {
            assert(m@.tags[i as int] == tag@);
            return true;
        }
        i = i + 1;
    }
    proof {
        if m@.tags.contains(tag@) {
            let j = choose|j: int| 0 <= j < m@.tags.len() && m@.tags[j] == tag@;
            assert(m.tags@[j]@ == tag@);
        }
    }
    false
}

/// The articles that carry `tag`, as positions in `articles`, in order.
pub fn tag_posts(articles: &Vec<Metadata>, tag: &str) -> (r: Vec<usize>)
    ensures
        forall|k: int| 0 <= k < r@.len() ==> r@[k] < articles@.len(),
        forall|k: int, l: int| 0 <= k < l < r@.len() ==> r@[k] < r@[l],
        forall|i: int|
            0 <= i < articles@.len() ==> (r@.contains(i as usize) <==> has_tag(
                #[trigger] articles@[i]@,
                tag@,
            )),
{
    let mut r: Vec<usize> = Vec::new();
    let mut i: usize = 0;
    while i < articles.len()
        invariant
            i <= articles@.len(),
            forall|k: int| 0 <= k < r@.len() ==> r@[k] < i,
            forall|k: int, l: int| 0 <= k < l < r@.len() ==> r@[k] < r@[l],
            forall|j: int|
                0 <= j < i ==> (r@.contains(j as usize) <==> has_tag(
                    #[trigger] articles@[j]@,
                    tag@,
                )),
        decreases articles.len() - i,
    {
        let ghost before = r@;
        if metadata_has_tag(&articles[i], tag) {
            r.push(i);
            assert(r@[r@.len() - 1] == i);
        }
        assert forall|j: int| 0 <= j <= i implies (r@.contains(j as usize) <==> has_tag(
            #[trigger] articles@[j]@,
            tag@,
        )) by {
            if j < i {
                if r@.contains(j as usize) {
                    let k = choose|k: int| 0 <= k < r@.len() && r@[k] == j as usize;
                    if k < before.len() {
                        assert(before[k] == j);
                    }
                }
                if before.contains(j as usize) {
                    let k = choose|k: int| 0 <= k < before.len() && before[k] == j as usize;
                    assert(r@[k] == j);
                }
            } else {
                if r@.contains(j as usize) {
                    let k = choose|k: int| 0 <= k < r@.len() && r@[k] == j as usize;
                    if k < before.len() {
                        assert(before[k] < i);
                    }
                }
            }
        }
        i = i + 1;
    }
    r
}


/// Some article carries `tag`.
pub open spec fn tag_used(articles: Seq<Metadata>, tag: Seq<char>) -> bool {
    exists|i: int| 0 <= i < articles.len() && has_tag(#[trigger] articles[i]@, tag)
}

fn texts_contain(v: &Vec<String>, s: &str) -> (r: bool)
    ensures
        r == exists|k: int| 0 <= k < v@.len() && #[trigger] v@[k]@ == s@,
{
    let mut i: usize = 0;
    while i < v.len()
        invariant
            i <= v@.len(),
            forall|k: int| 0 <= k < i ==> v@[k]@ != s@,
        decreases v.len() - i,
    {
        if str_equal(v[i].as_str(), s) {
            return true;
        }
        i = i + 1;
    }
    false
}

/// Every tag that some article carries, once each, in the order in which
/// the articles first name them.
pub fn all_tags(articles: &Vec<Metadata>) -> (r: Vec<String>)
    ensures
        forall|k: int, l: int| 0 <= k < l < r@.len() ==> r@[k]@ != r@[l]@,
        forall|k: int| 0 <= k < r@.len() ==> tag_used(articles@, #[trigger] r@[k]@),
        forall|t: Seq<char>| tag_used(articles@, t) ==> exists|k: int| 0 <= k < r@.len() && #[trigger] r@[k]@ == t,
{
    let mut r: Vec<String> = Vec::new();
    let mut i: usize = 0;
    while i < articles.len()
        invariant
            i <= articles@.len(),
            forall|k: int, l: int| 0 <= k < l < r@.len() ==> r@[k]@ != r@[l]@,
            forall|k: int| 0 <= k < r@.len() ==> tag_used(articles@, #[trigger] r@[k]@),
            forall|a: int, t: Seq<char>| 0 <= a < i && #[trigger] has_tag(articles@[a]@, t) ==> exists|k: int| 0 <= k < r@.len() && #[trigger] r@[k]@ == t,
        decreases articles.len() - i,
    {
        let tags = &articles[i].tags;
        let mut j: usize = 0;
        while j < tags.len()
            invariant
                i < articles@.len(),
                tags == articles@[i as int].tags,
                j <= tags@.len(),
                forall|k: int, l: int| 0 <= k < l < r@.len() ==> r@[k]@ != r@[l]@,
                forall|k: int| 0 <= k < r@.len() ==> tag_used(articles@, #[trigger] r@[k]@),
                forall|a: int, t: Seq<char>| 0 <= a < i && #[trigger] has_tag(articles@[a]@, t) ==> exists|k: int| 0 <= k < r@.len() && #[trigger] r@[k]@ == t,
                forall|jj: int| #![trigger tags@[jj]] 0 <= jj < j ==> exists|k: int| 0 <= k < r@.len() && #[trigger] r@[k]@ == tags@[jj]@,
            decreases tags.len() - j,
        {
            let ghost before = r@;
            proof {
                assert(articles@[i as int]@.tags[j as int] == tags@[j as int]@);
                assert(has_tag(articles@[i as int]@, tags@[j as int]@));
            }
            if !texts_contain(&r, tags[j].as_str()) {
                r.push(tags[j].clone());
                proof {
                    assert forall|a: int, t: Seq<char>| 0 <= a < i && #[trigger] has_tag(articles@[a]@, t) implies exists|k: int| 0 <= k < r@.len() && #[trigger] r@[k]@ == t by {
                        let k = choose|k: int| 0 <= k < before.len() && #[trigger] before[k]@ == t;
                        assert(r@[k] == before[k]);
                    }
                    assert forall|jj: int| #![trigger tags@[jj]] 0 <= jj <= j implies exists|k: int| 0 <= k < r@.len() && #[trigger] r@[k]@ == tags@[jj]@ by {
                        if jj < j {
                            let k = choose|k: int| 0 <= k < before.len() && #[trigger] before[k]@ == tags@[jj]@;
                            assert(r@[k] == before[k]);
                        } else {
                            assert(r@[before.len() as int]@ == tags@[jj]@);
                        }
                    }
                }
            }
            j = j + 1;
        }
        proof {
            assert forall|a: int, t: Seq<char>| 0 <= a <= i && #[trigger] has_tag(articles@[a]@, t) implies exists|k: int| 0 <= k < r@.len() && #[trigger] r@[k]@ == t by {
                if a == i {
                    let jj = choose|jj: int| 0 <= jj < articles@[a]@.tags.len() && articles@[a]@.tags[jj] == t;
                    assert(tags@[jj]@ == t);
                }
            }
        }
        i = i + 1;
    }
    r
}

/// `dates[a]` is no older than `dates[b]`.
pub open spec fn newer_or_same(dates: Seq<Option<Date>>, a: usize, b: usize) -> bool {
    opt_date_le(dates[b as int], dates[a as int])
}

proof fn lemma_insert_multiset(s: Seq<usize>, pos: int, x: usize)
    requires
        0 <= pos <= s.len(),
    ensures
        s.insert(pos, x).to_multiset() =~= s.to_multiset().insert(x),
{
    let a = s.subrange(0, pos);
    let b = s.subrange(pos, s.len() as int);
    assert(s =~= a + b);
    assert(s.insert(pos, x) =~= a.push(x) + b);
    vstd::seq_lib::lemma_multiset_commutative(a.push(x), b);
    vstd::seq_lib::lemma_multiset_commutative(a, b);
    a.to_multiset_ensures();
}

pub open spec fn newest_first(dates: Seq<Option<Date>>, s: Seq<usize>) -> bool {
    forall|k: int, l: int| 0 <= k < l < s.len() ==> newer_or_same(dates, s[k], s[l])
}

/// Items of the same date keep their order: the smaller comes first.
pub open spec fn ties_in_order(dates: Seq<Option<Date>>, s: Seq<usize>) -> bool {
    forall|k: int, l: int|
        0 <= k < l < s.len() && dates[s[k] as int] == dates[s[l] as int] ==> s[k] < s[l]
}

proof fn lemma_insert_sorted(dates: Seq<Option<Date>>, s: Seq<usize>, pos: int, x: usize)
    requires
        0 <= pos <= s.len(),
        newest_first(dates, s),
        ties_in_order(dates, s),
        forall|k: int| 0 <= k < s.len() ==> s[k] < x,
        forall|k: int| 0 <= k < pos ==> newer_or_same(dates, s[k], x),
        pos < s.len() ==> !opt_date_le(dates[x as int], dates[s[pos] as int]),
    ensures
        newest_first(dates, s.insert(pos, x)),
        ties_in_order(dates, s.insert(pos, x)),
{
    let t = s.insert(pos, x);
    s.insert_ensures(pos, x);
    if pos < s.len() {
        crate::date::lemma_opt_date_total(dates[x as int], dates[s[pos] as int]);
    }
    assert forall|k: int, l: int| 0 <= k < l < t.len() implies newer_or_same(dates, t[k], t[l]) by {
        if l < pos {
        } else if l == pos {
        } else if k < pos {
            assert(t[l] == s[l - 1]);
            if l - 1 > pos {
                assert(newer_or_same(dates, s[pos], s[l - 1]));
            }
            crate::date::lemma_opt_date_trans(dates[s[l - 1] as int], dates[s[pos] as int], dates[x as int]);
            crate::date::lemma_opt_date_trans(dates[s[l - 1] as int], dates[x as int], dates[s[k] as int]);
        } else if k == pos {
            assert(t[l] == s[l - 1]);
            if l - 1 > pos {
                assert(newer_or_same(dates, s[pos], s[l - 1]));
            }
            crate::date::lemma_opt_date_trans(dates[s[l - 1] as int], dates[s[pos] as int], dates[x as int]);
        } else {
            assert(t[l] == s[l - 1]);
            assert(t[k] == s[k - 1]);
        }
    }
    assert forall|k: int, l: int|
        0 <= k < l < t.len() && dates[t[k] as int] == dates[t[l] as int] implies t[k] < t[l] by {
        if l < pos {
        } else if l == pos {
        } else if k < pos {
            assert(t[l] == s[l - 1]);
        } else if k == pos {
            assert(t[l] == s[l - 1]);
            if l - 1 > pos {
                assert(newer_or_same(dates, s[pos], s[l - 1]));
            }
        } else {
            assert(t[l] == s[l - 1]);
            assert(t[k] == s[k - 1]);
        }
    }
}


/// `a` is listed before `b`: it is newer, or of the same date and smaller.
pub open spec fn listed_before(dates: Seq<Option<Date>>, a: usize, b: usize) -> bool {
    !opt_date_le(dates[a as int], dates[b as int]) || (dates[a as int] == dates[b as int] && a < b)
}

proof fn lemma_sorted_strictly(dates: Seq<Option<Date>>, s: Seq<usize>, k: int, l: int)
    requires
        s.no_duplicates(),
        newest_first(dates, s),
        ties_in_order(dates, s),
        0 <= k < l < s.len(),
    ensures
        listed_before(dates, s[k], s[l]),
{
    let a = dates[s[k] as int];
    let b = dates[s[l] as int];
    assert(newer_or_same(dates, s[k], s[l]));
    if opt_date_le(a, b) {
        match (a, b) {
            (Some(x), Some(y)) => {
                assert(x == y);
            },
            _ => {},
        }
    }
}

/// Two lists of the same items, each once, both in listing order, are the
/// same list: the order of a page is determined by what it lists.
pub proof fn lemma_listing_order_unique(dates: Seq<Option<Date>>, s: Seq<usize>, t: Seq<usize>)
    requires
        s.no_duplicates(),
        t.no_duplicates(),
        newest_first(dates, s),
        ties_in_order(dates, s),
        newest_first(dates, t),
        ties_in_order(dates, t),
        forall|x: usize| s.contains(x) <==> t.contains(x),
    ensures
        s == t,
    decreases s.len(),
{
    if s.len() == 0 {
        if t.len() > 0 {
            assert(t.contains(t[0]));
        }
        assert(s =~= t);
    } else {
        assert(s.contains(s[0]));
        assert(t.contains(t[0]));
        let j = choose|j: int| 0 <= j < t.len() && t[j] == s[0];
        let i = choose|i: int| 0 <= i < s.len() && s[i] == t[0];
        if j > 0 && i > 0 {
            lemma_sorted_strictly(dates, t, 0, j);
            lemma_sorted_strictly(dates, s, 0, i);
            assert(false);
        } else if j > 0 {
            assert(s[0] == t[0]);
        }
        assert(s[0] == t[0]);
        let s1 = s.drop_first();
        let t1 = t.drop_first();
        assert forall|x: usize| s1.contains(x) <==> t1.contains(x) by {
            if s1.contains(x) {
                let k = choose|k: int| 0 <= k < s1.len() && s1[k] == x;
                assert(s[k + 1] == x);
                assert(t.contains(x));
                let m = choose|m: int| 0 <= m < t.len() && t[m] == x;
                assert(m != 0);
                assert(t1[m - 1] == x);
            }
            if t1.contains(x) {
                let k = choose|k: int| 0 <= k < t1.len() && t1[k] == x;
                assert(t[k + 1] == x);
                assert(s.contains(x));
                let m = choose|m: int| 0 <= m < s.len() && s[m] == x;
                assert(m != 0);
                assert(s1[m - 1] == x);
            }
        }
        assert forall|k: int, l: int| 0 <= k < l < s1.len() implies newer_or_same(dates, s1[k], s1[l]) by {
            assert(s1[k] == s[k + 1] && s1[l] == s[l + 1]);
        }
        assert forall|k: int, l: int| 0 <= k < l < t1.len() implies newer_or_same(dates, t1[k], t1[l]) by {
            assert(t1[k] == t[k + 1] && t1[l] == t[l + 1]);
        }
        lemma_listing_order_unique(dates, s1, t1);
        assert(s =~= seq![s[0]] + s1);
        assert(t =~= seq![t[0]] + t1);
    }
}

/// Orders the increasing positions `items` from the newest date to the
/// oldest, those without a date last; of equal dates the smaller position
/// comes first.
pub fn sort_newest_first(items: &Vec<usize>, dates: &Vec<Option<Date>>) -> (r: Vec<usize>)
    requires
        forall|k: int| 0 <= k < items@.len() ==> items@[k] < dates@.len(),
        forall|k: int, l: int| 0 <= k < l < items@.len() ==> items@[k] < items@[l],
    ensures
        r@.to_multiset() == items@.to_multiset(),
        forall|k: int| 0 <= k < r@.len() ==> r@[k] < dates@.len(),
        newest_first(dates@, r@),
        ties_in_order(dates@, r@),
{
    let mut r: Vec<usize> = Vec::new();
    let mut i: usize = 0;
    proof {
        assert(items@.subrange(0, 0) =~= Seq::<usize>::empty());
    }
    while i < items.len()
        invariant
            i <= items@.len(),
            forall|k: int| 0 <= k < items@.len() ==> items@[k] < dates@.len(),
            r@.to_multiset() == items@.subrange(0, i as int).to_multiset(),
            forall|k: int| 0 <= k < r@.len() ==> r@[k] < dates@.len(),
            newest_first(dates@, r@),
            ties_in_order(dates@, r@),
            forall|k: int, l: int| 0 <= k < l < items@.len() ==> items@[k] < items@[l],
            i < items@.len() ==> forall|k: int| 0 <= k < r@.len() ==> r@[k] < items@[i as int],
        decreases items.len() - i,
    {
        let x = items[i];
        let mut pos: usize = 0;
        while pos < r.len() && opt_date_is_le(&dates[x], &dates[r[pos]])
            invariant
                pos <= r@.len(),
                x < dates@.len(),
                forall|k: int| 0 <= k < r@.len() ==> r@[k] < dates@.len(),
                forall|k: int| 0 <= k < pos ==> newer_or_same(dates@, r@[k], x),
            decreases r.len() - pos,
        {
            pos = pos + 1;
        }
        let ghost before = r@;
        proof {
            lemma_insert_multiset(before, pos as int, x);
            before.insert_ensures(pos as int, x);
            assert(items@.subrange(0, i as int + 1) =~= items@.subrange(0, i as int).push(x));
            items@.subrange(0, i as int).to_multiset_ensures();
        }
        r.insert(pos, x);
        proof {
            lemma_insert_sorted(dates@, before, pos as int, x);
            if i + 1 < items@.len() {
                assert(items@[i as int] < items@[i + 1]);
                assert forall|k: int| 0 <= k < r@.len() implies r@[k] < items@[i + 1] by {
                    if k < pos {
                    } else if k > pos {
                        assert(r@[k] == before[k - 1]);
                    }
                }
            }
        }
        i = i + 1;
    }
    proof {
        assert(items@.subrange(0, items@.len() as int) =~= items@);
    }
    r
}

/// The URL of the page of the article stored at `path`.
pub open spec fn article_url_of(path: Seq<char>) -> Option<Seq<char>> {
    match file_name_of(path) {
        Some(n) => Some("/articles/"@ + stem_of(n) + ".html"@),
        None => None,
    }
}

/// The URL of an article's page, or nothing when `path` names no file.
pub fn article_url(path: &str) -> (r: Option<String>)
    ensures
        match r {
            Some(u) => article_url_of(path@) == Some(u@),
            None => article_url_of(path@) is None,
        },
{
    match file_name(path) {
        Some(n) => {
            let stem = file_stem(n.as_str());
            let mut u = String::from_str("/articles/");
            u.append(stem.as_str());
            u.append(".html");
            Some(u)
        },
        None => None,
    }
}

/// The URL of the page of `tag`.
pub fn tag_url(tag: &str) -> (r: String)
    ensures
        r@ == "/tags/"@ + tag@ + ".html"@,
{
    let mut u = String::from_str("/tags/");
    u.append(tag);
    u.append(".html");
    u
}

/// Where the page of the article at `input` is written, inside `output_dir`.
pub fn article_output_path(output_dir: &str, input: &str) -> (r: Option<String>)
    ensures
        match r {
            Some(p) => file_name_of(input@) is Some && p@ == output_dir@ + seq!['/'] + stem_of(
                file_name_of(input@)->Some_0,
            ) + ".html"@,
            None => file_name_of(input@) is None,
        },
{
    match file_name(input) {
        Some(n) => {
            let mut name = file_stem(n.as_str());
            name.append(".html");
            Some(join(output_dir, name.as_str()))
        },
        None => None,
    }
}

/// Where the page of `tag` is written, inside `output_dir`.
pub fn tag_output_path(output_dir: &str, tag: &str) -> (r: String)
    ensures
        r@ == output_dir@ + seq!['/'] + tag@ + ".html"@,
{
    let mut name = String::from_str(tag);
    name.append(".html");
    join(output_dir, name.as_str())
}

} // verus!
