//! The published catalog's listing of grids, and the dates that grid file
//! names carry.
use crate::text::{chars_of, copy_range, ends_with, ends_with_chars, lemma_split_step, split_on, string_of};
use vstd::prelude::*;
use vstd::string::StringExecFns;

verus! {

/// A grid of the catalog.
pub struct Grid {
    pub name: String,
    pub date: String,
    pub download_url: String,
}

/// One item of the catalog's directory listing.
pub struct ListingEntry {
    pub name: String,
    pub download_url: Option<String>,
}

/// Whether a piece of a file name opens with the year prefix `20`.
pub open spec fn starts_20(t: Seq<char>) -> bool {
    t.len() >= 2 && t[0] == '2' && t[1] == '0'
}

/// The first of `ts` that opens with `20`, if any.
pub open spec fn first_dated(ts: Seq<Seq<char>>) -> Option<Seq<char>>
    decreases ts.len(),
{
    if ts.len() == 0 {
        None
    } else {
        match first_dated(ts.drop_last()) {
            Some(t) => Some(t),
            None => if starts_20(ts.last()) {
                Some(ts.last())
            } else {
                None
            },
        }
    }
}

/// The date of a grid file name: its first `_`-separated piece that opens
/// with `20`, or `unknown`.
pub open spec fn date_of(name: Seq<char>) -> Seq<char> {
    match first_dated(split_on(name, '_')) {
        Some(t) => t,
        None => "unknown"@,
    }
}

/// Bounds within `v` of its first `_`-separated piece that opens with `20`.
fn find_date(v: &Vec<char>) -> (r: Option<(usize, usize)>)
    ensures
        match r {
            Some((a, b)) => a <= b <= v@.len() && first_dated(split_on(v@, '_')) == Some(
                v@.subrange(a as int, b as int),
            ),
            None => first_dated(split_on(v@, '_')) is None,
        },
{
    let mut found: Option<(usize, usize)> = None;
    let mut start: usize = 0;
    let mut i: usize = 0;
    proof {
        assert(v@.subrange(0, 0) =~= Seq::<char>::empty());
    }
    while i < v.len()
        invariant
            start <= i <= v@.len(),
            split_on(v@.subrange(0, i as int), '_').len() >= 1,
            split_on(v@.subrange(0, i as int), '_').last() == v@.subrange(start as int, i as int),
            match found {
                Some((a, b)) => a <= b <= v@.len() && first_dated(
                    split_on(v@.subrange(0, i as int), '_').drop_last(),
                ) == Some(v@.subrange(a as int, b as int)),
                None => first_dated(split_on(v@.subrange(0, i as int), '_').drop_last()) is None,
            },
        decreases v@.len() - i,
    {
        let ghost p = split_on(v@.subrange(0, i as int), '_');
        proof {
            lemma_split_step(v@, '_', i as int);
        }
        if v[i] == '_' {
            if found.is_none() && i - start >= 2 && v[start] == '2' && v[start + 1] == '0' {
                found = Some((start, i));
            }
            proof {
                let q = split_on(v@.subrange(0, i + 1), '_');
                assert(q.drop_last() =~= p);
                assert(q.last() =~= v@.subrange(i + 1, i + 1));
            }
            start = i + 1;
        } else {
            proof {
                let q = split_on(v@.subrange(0, i + 1), '_');
                assert(q.drop_last() =~= p.drop_last());
                assert(q.last() =~= v@.subrange(start as int, i + 1));
            }
        }
        i = i + 1;
    }
    assert(v@.subrange(0, v@.len() as int) =~= v@);
    if found.is_none() && i - start >= 2 && v[start] == '2' && v[start + 1] == '0' {
        found = Some((start, i));
    }
    found
}

/// The date of the grid file `name`.
pub fn date_token(name: &str) -> (r: String)
    ensures
        r@ == date_of(name@),
{
    let v = chars_of(name);
    match find_date(&v) {
        Some((a, b)) => string_of(&copy_range(&v, a, b)),
        None => String::from_str("unknown"),
    }
}

/// Whether a listing item is a grid: a `.json` file that can be downloaded.
pub open spec fn is_grid_entry(e: ListingEntry) -> bool {
    ends_with(e.name@, ".json"@) && e.download_url is Some
}

/// The listing items that are grids, in listing order.
pub open spec fn grid_entries(s: Seq<ListingEntry>) -> Seq<ListingEntry> {
    s.filter(|e: ListingEntry| is_grid_entry(e))
}

/// `g` is the grid that the listing item `e` describes.
pub open spec fn grid_from_entry(g: Grid, e: ListingEntry) -> bool {
    &&& g.name@ == e.name@
    &&& g.date@ == date_of(e.name@)
    &&& e.download_url matches Some(u) && g.download_url@ == u@
}

/// The grids of a directory listing: each `.json` item with a download
/// location, in listing order, dated by its file name.
pub fn grids_from_listing(entries: Vec<ListingEntry>) -> (r: Vec<Grid>)
    ensures
        r@.len() == grid_entries(entries@).len(),
        forall|i: int|
            0 <= i < r@.len() ==> grid_from_entry(
                #[trigger] r@[i],
                grid_entries(entries@)[i],
            ),
{
    let json = chars_of(".json");
    let mut r: Vec<Grid> = Vec::new();
    let mut i: usize = 0;
    while i < entries.len()
        invariant
            i <= entries@.len(),
            json@ == ".json"@,
            r@.len() == grid_entries(entries@.subrange(0, i as int)).len(),
            forall|j: int|
                0 <= j < r@.len() ==> grid_from_entry(
                    #[trigger] r@[j],
                    grid_entries(entries@.subrange(0, i as int))[j],
                ),
        decreases entries@.len() - i,
    {
        let e = &entries[i];
        proof {
            reveal(Seq::filter);
            assert(entries@.subrange(0, i + 1).drop_last() =~= entries@.subrange(0, i as int));
        }
        let name = chars_of(e.name.as_str());
        if ends_with_chars(&name, &json) {
            match &e.download_url {
                Some(u) => {
                    let g = Grid { name: e.name.clone(), date: date_token(e.name.as_str()), download_url: u.clone() };
                    r.push(g);
                },
                None => {},
            }
        }
        i = i + 1;
    }
    assert(entries@.subrange(0, entries@.len() as int) =~= entries@);
    r
}

proof fn lemma_first_dated_none(ts: Seq<Seq<char>>)
    requires
        forall|i: int| 0 <= i < ts.len() ==> !starts_20(#[trigger] ts[i]),
    ensures
        first_dated(ts) is None,
    decreases ts.len(),
{
    if ts.len() > 0 {
        lemma_first_dated_none(ts.drop_last());
    }
}

/// A file name none of whose `_`-separated pieces opens with `20` has the
/// date `unknown`.
pub proof fn lemma_undated_name(name: Seq<char>)
    requires
        forall|i: int|
            0 <= i < split_on(name, '_').len() ==> !starts_20(#[trigger] split_on(name, '_')[i]),
    ensures
        date_of(name) == "unknown"@,
{
    lemma_first_dated_none(split_on(name, '_'));
}

} // verus!
