//! The digest manifest: grid file names mapped to the digests of their
//! contents, read from `name,digest` lines.
use crate::text::{
    chars_of, copy_range, find_char, find_from, lemma_find_from, lemma_split_nonempty,
    lemma_split_step, lemma_split_two, lemma_trim_keeps_absent, split_on, string_of, trim, trim_bounds,
};
use vstd::prelude::*;

verus! {

/// The entry that one manifest line gives: the trimmed line split at its
/// first comma, or nothing where it holds no comma.
pub open spec fn line_entry(line: Seq<char>) -> Option<(Seq<char>, Seq<char>)> {
    let t = trim(line);
    let p = find_from(t, ',', 0);
    if p < t.len() {
        Some((t.subrange(0, p), t.subrange(p + 1, t.len() as int)))
    } else {
        None
    }
}

/// The manifest that `lines` give, read in order; a later line for a name
/// replaces an earlier one.
pub open spec fn manifest_of_lines(lines: Seq<Seq<char>>) -> Map<Seq<char>, Seq<char>>
    decreases lines.len(),
{
    if lines.len() == 0 {
        Map::empty()
    } else {
        let m = manifest_of_lines(lines.drop_last());
        match line_entry(lines.last()) {
            Some((k, h)) => m.insert(k, h),
            None => m,
        }
    }
}

/// The manifest that a text gives, one entry per line.
pub open spec fn manifest_of(text: Seq<char>) -> Map<Seq<char>, Seq<char>> {
    manifest_of_lines(split_on(text, '\n'))
}

/// Grid file names with the digests of their contents. Each name appears
/// once; entries keep the order in which their names were first added.
pub struct GridHashes {
    pub hashes: Vec<(String, String)>,
}

impl View for GridHashes {
    type V = Map<Seq<char>, Seq<char>>;

    open spec fn view(&self) -> Map<Seq<char>, Seq<char>> {
        Map::new(
            |k: Seq<char>| self.has_name(k),
            |k: Seq<char>| self.hashes@[self.index_of(k)].1@,
        )
    }
}

impl GridHashes {
    /// No name appears twice.
    pub open spec fn wf(&self) -> bool {
        forall|i: int, j: int|
            0 <= i < j < self.hashes@.len() ==> #[trigger] self.hashes@[i].0@
                != #[trigger] self.hashes@[j].0@
    }

    pub open spec fn has_name(&self, k: Seq<char>) -> bool {
        exists|i: int| 0 <= i < self.hashes@.len() && #[trigger] self.hashes@[i].0@ == k
    }

    pub open spec fn index_of(&self, k: Seq<char>) -> int {
        choose|i: int| 0 <= i < self.hashes@.len() && #[trigger] self.hashes@[i].0@ == k
    }

    /// The entry at `i` is what the manifest holds for its name.
    pub proof fn lemma_entry(&self, i: int)
        requires
            self.wf(),
            0 <= i < self.hashes@.len(),
        ensures
            self@.contains_key(self.hashes@[i].0@),
            self@[self.hashes@[i].0@] == self.hashes@[i].1@,
            self.index_of(self.hashes@[i].0@) == i,
    {
        let k = self.hashes@[i].0@;
        assert(self.has_name(k));
        let j = self.index_of(k);
        if j != i {
            if j < i {
                assert(self.hashes@[j].0@ != self.hashes@[i].0@);
            } else {
                assert(self.hashes@[i].0@ != self.hashes@[j].0@);
            }
        }
    }

    /// An empty manifest.
    pub fn new() -> (r: GridHashes)
        ensures
            r.wf(),
            r@ == Map::<Seq<char>, Seq<char>>::empty(),
    {
        let r = GridHashes { hashes: Vec::new() };
        assert(r@ =~= Map::<Seq<char>, Seq<char>>::empty());
        r
    }

    /// Records `hash` for `name`, replacing what was recorded for it.
    pub fn insert(&mut self, name: String, hash: String)
        requires
            old(self).wf(),
        ensures
            final(self).wf(),
            final(self)@ == old(self)@.insert(name@, hash@),
    {
        let mut j: usize = 0;
        while j < self.hashes.len() && self.hashes[j].0 != name
            invariant
                j <= self.hashes@.len(),
                forall|m: int| 0 <= m < j ==> self.hashes@[m].0@ != name@,
            decreases self.hashes@.len() - j,
        {
            j = j + 1;
        }
        let ghost prev = *self;
        if j < self.hashes.len() {
            self.hashes.set(j, (name, hash));
            proof {
                assert forall|i: int, m: int|
                    0 <= i < m < self.hashes@.len() implies #[trigger] self.hashes@[i].0@
                    != #[trigger] self.hashes@[m].0@ by {
                    assert(prev.hashes@[i].0@ != prev.hashes@[m].0@);
                }
                assert forall|k: Seq<char>| #[trigger]
                    self@.contains_key(k) == prev@.insert(name@, hash@).contains_key(k) by {
                    if prev.has_name(k) {
                        let i = prev.index_of(k);
                        assert(self.hashes@[i].0@ == k);
                    }
                    if self.has_name(k) {
                        let i = self.index_of(k);
                        if i != j {
                            assert(prev.hashes@[i].0@ == k);
                        }
                    }
                }
                assert forall|k: Seq<char>| #[trigger] self@.contains_key(k) implies self@[k]
                    == prev@.insert(name@, hash@)[k] by {
                    let i = self.index_of(k);
                    self.lemma_entry(i);
                    if i != j {
                        prev.lemma_entry(i);
                    }
                }
                assert(self@ =~= prev@.insert(name@, hash@));
            }
        } else {
            self.hashes.push((name, hash));
            proof {
                let n = prev.hashes@.len() as int;
                assert forall|i: int, m: int|
                    0 <= i < m < self.hashes@.len() implies #[trigger] self.hashes@[i].0@
                    != #[trigger] self.hashes@[m].0@ by {
                    if m < n {
                        assert(prev.hashes@[i].0@ != prev.hashes@[m].0@);
                    }
                }
                assert forall|k: Seq<char>| #[trigger]
                    self@.contains_key(k) == prev@.insert(name@, hash@).contains_key(k) by {
                    if prev.has_name(k) {
                        let i = prev.index_of(k);
                        assert(self.hashes@[i].0@ == k);
                    }
                    if k == name@ {
                        assert(self.hashes@[n].0@ == k);
                    }
                    if self.has_name(k) {
                        let i = self.index_of(k);
                        if i != n {
                            assert(prev.hashes@[i].0@ == k);
                        }
                    }
                }
                assert forall|k: Seq<char>| #[trigger] self@.contains_key(k) implies self@[k]
                    == prev@.insert(name@, hash@)[k] by {
                    let i = self.index_of(k);
                    self.lemma_entry(i);
                    if i != n {
                        prev.lemma_entry(i);
                    }
                }
                assert(self@ =~= prev@.insert(name@, hash@));
            }
        }
    }
    /// Records the entry of the line `v[lo..hi]`, if it has one.
    fn add_line(&mut self, v: &Vec<char>, lo: usize, hi: usize)
        requires
            old(self).wf(),
            lo <= hi <= v@.len(),
        ensures
            final(self).wf(),
            final(self)@ == match line_entry(v@.subrange(lo as int, hi as int)) {
                Some((k, h)) => old(self)@.insert(k, h),
                None => old(self)@,
            },
    {
        let (a, b) = trim_bounds(v, lo, hi);
        let p = find_char(v, ',', a, b);
        let ghost t = v@.subrange(a as int, b as int);
        proof {
            lemma_find_from(t, ',', 0, p - a);
        }
        if p < b {
            let name = string_of(&copy_range(v, a, p));
            let hash = string_of(&copy_range(v, p + 1, b));
            assert(name@ =~= t.subrange(0, p - a));
            assert(hash@ =~= t.subrange(p - a + 1, t.len() as int));
            self.insert(name, hash);
        }
    }
}

/// Reads a manifest from its text: each line that holds a comma gives the
/// name before its first comma and the digest after it, both with the line's
/// surrounding whitespace removed. Lines without a comma, blank ones among
/// them, are passed over. A later line for a name replaces an earlier one.
pub fn parse_grid_hashes(text: &str) -> (r: GridHashes)
    ensures
        r.wf(),
        r@ == manifest_of(text@),
{
    let v = chars_of(text);
    let mut g = GridHashes::new();
    let mut start: usize = 0;
    let mut i: usize = 0;
    proof {
        assert(v@.subrange(0, 0) =~= Seq::<char>::empty());
        assert(split_on(v@.subrange(0, 0), '\n').drop_last() =~= Seq::<Seq<char>>::empty());
    }
    while i < v.len()
        invariant
            start <= i <= v@.len(),
            g.wf(),
            split_on(v@.subrange(0, i as int), '\n').len() >= 1,
            split_on(v@.subrange(0, i as int), '\n').last() == v@.subrange(start as int, i as int),
            g@ == manifest_of_lines(split_on(v@.subrange(0, i as int), '\n').drop_last()),
        decreases v@.len() - i,
    {
        let ghost p = split_on(v@.subrange(0, i as int), '\n');
        proof {
            lemma_split_step(v@, '\n', i as int);
        }
        if v[i] == '\n' {
            g.add_line(&v, start, i);
            proof {
                let q = split_on(v@.subrange(0, i + 1), '\n');
                assert(q.drop_last() =~= p);
                assert(p.drop_last().push(p.last()) =~= p);
                assert(q.last() =~= v@.subrange(i + 1, i + 1));
            }
            start = i + 1;
        } else {
            proof {
                let q = split_on(v@.subrange(0, i + 1), '\n');
                assert(q.drop_last() =~= p.drop_last());
                assert(q.last() =~= v@.subrange(start as int, i + 1));
            }
        }
        i = i + 1;
    }
    let ghost p = split_on(v@, '\n');
    assert(v@.subrange(0, v@.len() as int) =~= v@);
    g.add_line(&v, start, i);
    proof {
        lemma_split_nonempty(v@, '\n');
        assert(p.drop_last().push(p.last()) =~= p);
    }
    g
}

/// A line without a comma gives no entry.
pub proof fn lemma_line_without_comma(line: Seq<char>)
    requires
        forall|i: int| 0 <= i < line.len() ==> line[i] != ',',
    ensures
        line_entry(line) is None,
{
    lemma_trim_keeps_absent(line, ',');
    let t = trim(line);
    lemma_find_from(t, ',', 0, t.len() as int);
}

/// A manifest text of one line with a comma and one line without gives
/// exactly the one entry of the first line.
pub proof fn lemma_one_good_line(good: Seq<char>, bad: Seq<char>)
    requires
        forall|i: int| 0 <= i < good.len() ==> good[i] != '\n',
        forall|i: int| 0 <= i < bad.len() ==> bad[i] != '\n' && bad[i] != ',',
        line_entry(good) is Some,
    ensures
        manifest_of(good + seq!['\n'] + bad) == map![
            line_entry(good)->Some_0.0 => line_entry(good)->Some_0.1,
        ],
        manifest_of(good + seq!['\n'] + bad).len() == 1,
{
    lemma_split_two(good, bad, '\n');
    lemma_line_without_comma(bad);
    let ls = seq![good, bad];
    assert(ls.drop_last() =~= seq![good]);
    assert(seq![good].drop_last() =~= Seq::<Seq<char>>::empty());
    let (k, h) = line_entry(good)->Some_0;
    let m = manifest_of(good + seq!['\n'] + bad);
    assert(seq![good].last() == good);
    assert(manifest_of_lines(Seq::<Seq<char>>::empty()) == Map::<Seq<char>, Seq<char>>::empty());
    assert(manifest_of_lines(seq![good]) == Map::<Seq<char>, Seq<char>>::empty().insert(k, h));
    assert(manifest_of_lines(ls) == manifest_of_lines(seq![good]));
    assert(m =~= map![k => h]);
    assert(m.dom() =~= set![k]);
    assert(set![k].len() == 1) by {
        assert(set![k] =~= Set::<Seq<char>>::empty().insert(k));
    }
}

} // verus!
