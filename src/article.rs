//! What a compiled article carries besides its HTML: its front matter.

use vstd::prelude::*;
use crate::date::Date;

verus! {

/// The front matter of an article.
pub struct Metadata {
    pub tags: Vec<String>,
    pub title: String,
    pub publish_date: Option<Date>,
}

pub struct MetadataView {
    pub tags: Seq<Seq<char>>,
    pub title: Seq<char>,
    pub publish_date: Option<Date>,
}

pub open spec fn texts_view(v: Seq<String>) -> Seq<Seq<char>> {
    v.map_values(|s: String| s@)
}

impl View for Metadata {
    type V = MetadataView;

    open spec fn view(&self) -> MetadataView {
        MetadataView {
            tags: texts_view(self.tags@),
            title: self.title@,
            publish_date: self.publish_date,
        }
    }
}

/// Compares two lists of strings by their characters.
pub fn texts_equal(a: &Vec<String>, b: &Vec<String>) -> (r: bool)
    ensures
        r == (texts_view(a@) == texts_view(b@)),
{
    if a.len() != b.len() {
        proof {
            assert(texts_view(a@).len() != texts_view(b@).len());
        }
        return false;
    }
    let mut i: usize = 0;
    while i < a.len()
        invariant
            a.len() == b.len(),
            i <= a.len(),
            forall|j: int| 0 <= j < i ==> a@[j]@ == b@[j]@,
        decreases a.len() - i,
    {
        if a[i] != b[i] {
            proof {
                assert(texts_view(a@)[i as int] != texts_view(b@)[i as int]);
            }
            return false;
        }
        i = i + 1;
    }
    assert(texts_view(a@) =~= texts_view(b@));
    true
}

/// Copies a list of strings.
pub fn texts_clone(a: &Vec<String>) -> (r: Vec<String>)
    ensures
        texts_view(r@) == texts_view(a@),
{
    let mut r: Vec<String> = Vec::new();
    let mut i: usize = 0;
    while i < a.len()
        invariant
            i <= a.len(),
            r@.len() == i,
            forall|j: int| 0 <= j < i ==> r@[j]@ == a@[j]@,
        decreases a.len() - i,
    {
        r.push(a[i].clone());
        i = i + 1;
    }
    assert(texts_view(r@) =~= texts_view(a@));
    r
}

impl Metadata {
    /// Front matter with no tags, an empty title and no date.
    pub fn empty() -> (r: Metadata)
        ensures
            r@.tags.len() == 0,
            r@.title.len() == 0,
            r@.publish_date is None,
    {
        Metadata { tags: Vec::new(), title: String::new(), publish_date: None }
    }

    pub fn same(&self, other: &Metadata) -> (r: bool)
        ensures
            r == (self@ == other@),
    {
        texts_equal(&self.tags, &other.tags) && self.title == other.title
            && self.publish_date == other.publish_date
    }

    pub fn duplicate(&self) -> (r: Metadata)
        ensures
            r@ == self@,
    {
        Metadata {
            tags: texts_clone(&self.tags),
            title: self.title.clone(),
            publish_date: self.publish_date,
        }
    }
}

} // verus!
