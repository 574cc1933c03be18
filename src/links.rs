//! The link list: entries read from the link file, newest first.

use vstd::prelude::*;
use crate::date::Date;
use crate::site::{newest_first, sort_newest_first, ties_in_order};

verus! {

/// One entry of the link list.
pub struct LinkEntry {
    pub title: String,
    pub url: String,
    pub notes: String,
    pub added: Date,
}

/// The dates on which `links` were added.
pub open spec fn added_dates(links: Seq<LinkEntry>) -> Seq<Option<Date>> {
    links.map_values(|l: LinkEntry| Some(l.added))
}

/// The order in which `links` are listed: every position once, the most
/// recently added first, and of the same date the earlier entry first.
pub fn link_order(links: &Vec<LinkEntry>) -> (r: Vec<usize>)
    ensures
        r@.to_multiset() == Seq::new(links@.len(), |i: int| i as usize).to_multiset(),
        newest_first(added_dates(links@), r@),
        ties_in_order(added_dates(links@), r@),
{
    let mut dates: Vec<Option<Date>> = Vec::new();
    let mut all: Vec<usize> = Vec::new();
    let mut i: usize = 0;
    while i < links.len()
        invariant
            i <= links@.len(),
            dates@ == added_dates(links@).subrange(0, i as int),
            all@ == Seq::new(i as nat, |k: int| k as usize),
        decreases links.len() - i,
    {
        dates.push(Some(links[i].added));
        all.push(i);
        assert(all@ =~= Seq::new(i as nat + 1, |k: int| k as usize));
        assert(dates@ =~= added_dates(links@).subrange(0, i as int + 1));
        i = i + 1;
    }
    assert(dates@ =~= added_dates(links@));
    sort_newest_first(&all, &dates)
}

} // verus!
