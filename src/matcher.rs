//! Classifying a local grid file against the digest manifest.
use crate::catalog::{date_of, date_token};
use crate::digest::{digest, digest_of};
use crate::manifest::GridHashes;
use crate::text::{
    chars_of, contains, contains_chars, lemma_lex_irreflexive, lemma_lex_total, lemma_lex_transitive, lex_less, lex_lt,
};
use vstd::prelude::*;
use vstd::string::StringExecFns;

verus! {

/// What is known of the grid file that is in use.
pub struct DetectedGrid {
    /// `d2pt`, `high_winrate`, `most_played` or `unknown`.
    pub grid_type: String,
    pub name: String,
    pub date: String,
    /// The digest computed from the file's contents.
    pub hash: String,
    /// Whether the digest names a grid of the manifest.
    pub is_known: bool,
}

/// The kind of grid that a catalog file name denotes.
pub open spec fn grid_type_of(name: Seq<char>) -> Seq<char> {
    if contains(name, "d2pt_rating"@) {
        "d2pt"@
    } else if contains(name, "high_winrate"@) {
        "high_winrate"@
    } else if contains(name, "most_played"@) {
        "most_played"@
    } else {
        "unknown"@
    }
}

/// The kind of grid that the catalog file name `name` denotes.
pub fn grid_type(name: &str) -> (r: String)
    ensures
        r@ == grid_type_of(name@),
{
    let v = chars_of(name);
    if contains_chars(&v, &chars_of("d2pt_rating")) {
        String::from_str("d2pt")
    } else if contains_chars(&v, &chars_of("high_winrate")) {
        String::from_str("high_winrate")
    } else if contains_chars(&v, &chars_of("most_played")) {
        String::from_str("most_played")
    } else {
        String::from_str("unknown")
    }
}

/// Whether some grid of the manifest has the digest `h`.
pub open spec fn has_digest(m: Map<Seq<char>, Seq<char>>, h: Seq<char>) -> bool {
    exists|k: Seq<char>| m.contains_key(k) && m[k] == h
}

/// `d` reports the catalog grid `name`, whose digest is `h`.
pub open spec fn reports_known(d: DetectedGrid, name: Seq<char>, h: Seq<char>) -> bool {
    &&& d.is_known
    &&& d.name@ == name
    &&& d.hash@ == h
    &&& d.grid_type@ == grid_type_of(name)
    &&& d.date@ == date_of(name)
}

/// `d` reports a file whose digest `h` names no grid of the manifest.
pub open spec fn reports_unknown(d: DetectedGrid, h: Seq<char>) -> bool {
    &&& !d.is_known
    &&& d.name@ == "Current Grid"@
    &&& d.hash@ == h
    &&& d.grid_type@ == "unknown"@
    &&& d.date@ == "unknown"@
}

/// `name` is the first in the order of `lex_lt` of the names whose digest in
/// `m` is `h`.
pub open spec fn is_best_match(m: Map<Seq<char>, Seq<char>>, h: Seq<char>, name: Seq<char>) -> bool {
    &&& m.contains_key(name)
    &&& m[name] == h
    &&& forall|k: Seq<char>| #[trigger] m.contains_key(k) && m[k] == h ==> k == name || lex_lt(name, k)
}

/// Finds the grid of the manifest whose digest is `grid_hash`. Where several
/// grids share it, the one whose name comes first in the order of character
/// codes is reported, so the answer depends on the manifest's contents alone.
pub fn match_grid_hash(grid_hash: String, grid_hashes: GridHashes) -> (r: Option<DetectedGrid>)
    requires
        grid_hashes.wf(),
    ensures
        r is None <==> !has_digest(grid_hashes@, grid_hash@),
        r matches Some(d) ==> is_best_match(grid_hashes@, grid_hash@, d.name@) && reports_known(
            d,
            d.name@,
            grid_hash@,
        ),
{
    let g = &grid_hashes.hashes;
    let mut best: Option<usize> = None;
    let mut best_name: Vec<char> = Vec::new();
    let mut i: usize = 0;
    while i < g.len()
        invariant
            g == grid_hashes.hashes,
            i <= g@.len(),
            grid_hashes.wf(),
            match best {
                Some(b) => {
                    &&& b < i
                    &&& g@[b as int].1@ == grid_hash@
                    &&& best_name@ == g@[b as int].0@
                    &&& forall|j: int|
                        0 <= j < i && (#[trigger] g@[j]).1@ == grid_hash@ ==> j == b || lex_lt(
                            g@[b as int].0@,
                            g@[j].0@,
                        )
                },
                None => forall|j: int| 0 <= j < i ==> (#[trigger] g@[j]).1@ != grid_hash@,
            },
        decreases g@.len() - i,
    {
        if g[i].1 == grid_hash {
            let name = chars_of(g[i].0.as_str());
            let take = match best {
                Some(_) => lex_less(&name, &best_name),
                None => true,
            };
            proof {
                if let Some(b) = best {
                    if take {
                        assert forall|j: int|
                            0 <= j < i + 1 && (#[trigger] g@[j]).1@ == grid_hash@ implies j == i
                            || lex_lt(g@[i as int].0@, g@[j].0@) by {
                            if j < i && j != b {
                                lemma_lex_transitive(g@[i as int].0@, g@[b as int].0@, g@[j].0@);
                            }
                        }
                    } else {
                        assert(g@[b as int].0@ != g@[i as int].0@);
                        lemma_lex_total(g@[b as int].0@, g@[i as int].0@);
                    }
                }
            }
            if take {
                best = Some(i);
                best_name = name;
            }
        }
        i = i + 1;
    }
    match best {
        Some(b) => {
            let name = &g[b].0;
            let d = DetectedGrid {
                grid_type: grid_type(name.as_str()),
                name: name.clone(),
                date: date_token(name.as_str()),
                hash: g[b].1.clone(),
                is_known: true,
            };
            proof {
                grid_hashes.lemma_entry(b as int);
                assert forall|k: Seq<char>| #[trigger]
                    grid_hashes@.contains_key(k) && grid_hashes@[k] == grid_hash@ implies k
                    == d.name@ || lex_lt(d.name@, k) by {
                    let j = grid_hashes.index_of(k);
                    grid_hashes.lemma_entry(j);
                }
            }
            Some(d)
        },
        None => {
            proof {
                assert forall|k: Seq<char>| grid_hashes@.contains_key(k) implies grid_hashes@[k]
                    != grid_hash@ by {
                    let j = grid_hashes.index_of(k);
                    grid_hashes.lemma_entry(j);
                    assert(g@[j].1@ != grid_hash@);
                }
            }
            None
        },
    }
}

/// The report on a grid file whose digest is `hash`, before or without a
/// match against the manifest.
pub fn unknown_grid(hash: String) -> (r: DetectedGrid)
    ensures
        reports_unknown(r, hash@),
{
    DetectedGrid {
        grid_type: String::from_str("unknown"),
        name: String::from_str("Current Grid"),
        date: String::from_str("unknown"),
        hash,
        is_known: false,
    }
}

/// The report on a grid file with the contents `content`, before any match
/// against the manifest: its digest, and placeholders for the rest.
pub fn detect_current_grid(content: &Vec<u8>) -> (r: DetectedGrid)
    ensures
        reports_unknown(r, digest_of(content@)),
{
    unknown_grid(digest(content))
}

/// The report on a grid file with the contents `content`: the manifest's
/// grid where its digest is there, else an unknown grid that keeps the digest.
pub fn identify_grid(content: &Vec<u8>, grid_hashes: GridHashes) -> (r: DetectedGrid)
    requires
        grid_hashes.wf(),
    ensures
        !has_digest(grid_hashes@, digest_of(content@)) ==> reports_unknown(r, digest_of(content@)),
        has_digest(grid_hashes@, digest_of(content@)) ==> is_best_match(
            grid_hashes@,
            digest_of(content@),
            r.name@,
        ) && reports_known(r, r.name@, digest_of(content@)),
{
    let hash = digest(content);
    match match_grid_hash(hash.clone(), grid_hashes) {
        Some(d) => d,
        None => unknown_grid(hash),
    }
}

/// The reported grid is determined by the manifest and the digest: at most
/// one name is first among those with the digest.
pub proof fn lemma_best_match_unique(
    m: Map<Seq<char>, Seq<char>>,
    h: Seq<char>,
    n1: Seq<char>,
    n2: Seq<char>,
)
    requires
        is_best_match(m, h, n1),
        is_best_match(m, h, n2),
    ensures
        n1 == n2,
{
    if n1 != n2 {
        assert(m.contains_key(n2) && m[n2] == h);
        assert(m.contains_key(n1) && m[n1] == h);
        lemma_lex_transitive(n1, n2, n1);
        lemma_lex_irreflexive(n1);
    }
}

/// A name whose digest no other name of the manifest shares is the one
/// reported for that digest.
pub proof fn lemma_sole_name_matches(m: Map<Seq<char>, Seq<char>>, h: Seq<char>, name: Seq<char>)
    requires
        m.contains_key(name),
        m[name] == h,
        forall|k: Seq<char>| #[trigger] m.contains_key(k) && m[k] == h ==> k == name,
    ensures
        is_best_match(m, h, name),
        forall|n: Seq<char>| is_best_match(m, h, n) ==> n == name,
{
    assert forall|n: Seq<char>| is_best_match(m, h, n) implies n == name by {
        lemma_best_match_unique(m, h, n, name);
    }
}

} // verus!
