//! Choosing the game client's configuration directory from what was found
//! on disk: the platform's install location, then the account whose grid
//! file was written last.
use vstd::prelude::*;

verus! {

/// What was found at one candidate install location of the platform.
pub struct InstallCandidate {
    /// The game's own directory exists under the location.
    pub game_dir_present: bool,
    /// The location itself exists as a directory, or was read from the
    /// system registry.
    pub root_present: bool,
}

/// What was found under one account directory of the platform's `userdata`.
pub struct AccountCandidate {
    /// The account's configuration directory for the game exists.
    pub cfg_dir_present: bool,
    /// The grid file exists in that directory.
    pub config_present: bool,
    /// When the grid file was last written, in nanoseconds from the Unix
    /// epoch, where that could be read.
    pub modified: Option<i128>,
}

pub open spec fn is_usable(c: InstallCandidate) -> bool {
    c.game_dir_present || c.root_present
}

/// The first candidate location that exists.
pub fn pick_install_root(candidates: &Vec<InstallCandidate>) -> (r: Option<usize>)
    ensures
        r matches Some(i) ==> i < candidates@.len() && is_usable(candidates@[i as int]) && forall|
            j: int,
        | 0 <= j < i ==> !is_usable(#[trigger] candidates@[j]),
        r is None ==> forall|j: int|
            0 <= j < candidates@.len() ==> !is_usable(#[trigger] candidates@[j]),
{
    let mut i: usize = 0;
    while i < candidates.len()
        invariant
            i <= candidates@.len(),
            forall|j: int| 0 <= j < i ==> !is_usable(#[trigger] candidates@[j]),
        decreases candidates@.len() - i,
    {
        if candidates[i].game_dir_present || candidates[i].root_present {
            return Some(i);
        }
        i = i + 1;
    }
    None
}

/// The account has a grid file whose time of writing is known.
pub open spec fn is_timed(a: AccountCandidate) -> bool {
    a.cfg_dir_present && a.config_present && a.modified is Some
}

/// The account has a configuration directory but no grid file yet.
pub open spec fn is_fallback(a: AccountCandidate) -> bool {
    a.cfg_dir_present && !a.config_present
}

pub open spec fn time_of(a: AccountCandidate) -> int {
    match a.modified {
        Some(t) => t as int,
        None => 0,
    }
}

/// `r` is the choice among the first `n` accounts of `s`: the first of those
/// whose grid file was written last; where no grid file's time is known, the
/// first account with a configuration directory and no grid file; else none.
pub open spec fn picks_within(s: Seq<AccountCandidate>, n: int, r: Option<int>) -> bool {
    if exists|i: int| 0 <= i < n && is_timed(#[trigger] s[i]) {
        &&& r matches Some(b)
        &&& 0 <= b < n
        &&& is_timed(s[b])
        &&& forall|j: int| 0 <= j < n && is_timed(#[trigger] s[j]) ==> time_of(s[j]) <= time_of(s[b])
        &&& forall|j: int| 0 <= j < b && is_timed(#[trigger] s[j]) ==> time_of(s[j]) < time_of(s[b])
    } else if exists|i: int| 0 <= i < n && is_fallback(#[trigger] s[i]) {
        &&& r matches Some(b)
        &&& 0 <= b < n
        &&& is_fallback(s[b])
        &&& forall|j: int| 0 <= j < b ==> !is_fallback(#[trigger] s[j])
    } else {
        r is None
    }
}

/// `r` is the account whose configuration directory is chosen.
pub open spec fn picks_account(s: Seq<AccountCandidate>, r: Option<int>) -> bool {
    picks_within(s, s.len() as int, r)
}

pub open spec fn index_opt(r: Option<usize>) -> Option<int> {
    match r {
        Some(i) => Some(i as int),
        None => None,
    }
}

/// Chooses the account whose configuration directory is in use: the one
/// whose grid file was written last (the first of them on a tie); where no
/// grid file's time is known, the first with a configuration directory but
/// no grid file.
pub fn pick_account(accounts: &Vec<AccountCandidate>) -> (r: Option<usize>)
    ensures
        picks_account(accounts@, index_opt(r)),
{
    let ghost s = accounts@;
    let mut latest: Option<usize> = None;
    let mut latest_time: Option<i128> = None;
    let mut i: usize = 0;
    while i < accounts.len()
        invariant
            s == accounts@,
            i <= s.len(),
            picks_within(s, i as int, index_opt(latest)),
            latest_time is Some <==> exists|j: int| 0 <= j < i && is_timed(#[trigger] s[j]),
            latest_time matches Some(t) ==> latest matches Some(b) && time_of(s[b as int]) == t,
        decreases s.len() - i,
    {
        let a = &accounts[i];
        let ghost prev = index_opt(latest);
        if a.cfg_dir_present {
            if a.config_present {
                match a.modified {
                    Some(t) => {
                        let newer = match latest_time {
                            Some(lt) => t > lt,
                            None => true,
                        };
                        if newer {
                            latest_time = Some(t);
                            latest = Some(i);
                        }
                    },
                    None => {},
                }
            } else if latest.is_none() {
                latest = Some(i);
            }
        }
        proof {
            let n = i + 1;
            if exists|j: int| 0 <= j < i && is_timed(#[trigger] s[j]) {
                let b = latest->Some_0 as int;
                assert(is_timed(s[b]));
            } else if is_timed(s[i as int]) {
                assert(forall|j: int| 0 <= j < n && is_timed(#[trigger] s[j]) ==> j == i);
            } else if exists|j: int| 0 <= j < i && is_fallback(#[trigger] s[j]) {
                let b = latest->Some_0 as int;
                assert(is_fallback(s[b]));
            } else if is_fallback(s[i as int]) {
                assert(latest == Some(i));
                assert(is_fallback(s[i as int]));
            }
        }
        i = i + 1;
    }
    latest
}

/// At most one account is chosen.
pub proof fn lemma_pick_unique(s: Seq<AccountCandidate>, r1: Option<int>, r2: Option<int>)
    requires
        picks_account(s, r1),
        picks_account(s, r2),
    ensures
        r1 == r2,
{
    let n = s.len() as int;
    if exists|i: int| 0 <= i < n && is_timed(#[trigger] s[i]) {
        let b1 = r1->Some_0;
        let b2 = r2->Some_0;
        if b1 < b2 {
            assert(time_of(s[b1]) < time_of(s[b2]));
        } else if b2 < b1 {
            assert(time_of(s[b2]) < time_of(s[b1]));
        }
    } else if exists|i: int| 0 <= i < n && is_fallback(#[trigger] s[i]) {
        let b1 = r1->Some_0;
        let b2 = r2->Some_0;
        if b1 < b2 {
            assert(!is_fallback(s[b1]));
        } else if b2 < b1 {
            assert(!is_fallback(s[b2]));
        }
    }
}

/// Of two accounts whose grid files both have a known time, the one written
/// later is chosen over the other; and with just those two accounts, it is
/// the one chosen.
pub proof fn lemma_newer_grid_file_wins(s: Seq<AccountCandidate>, a: int, b: int, r: Option<int>)
    requires
        0 <= a < s.len(),
        0 <= b < s.len(),
        is_timed(s[a]),
        is_timed(s[b]),
        time_of(s[a]) > time_of(s[b]),
        picks_account(s, r),
    ensures
        r != Some(b),
        s.len() == 2 ==> r == Some(a),
{
    assert(is_timed(s[a]));
    if s.len() == 2 {
        assert(a != b);
        let c = r->Some_0;
        assert(c == a || c == b);
    }
}

/// With no account directory at all, nothing is chosen.
pub proof fn lemma_no_accounts(r: Option<int>)
    ensures
        picks_account(Seq::<AccountCandidate>::empty(), r) <==> r is None,
{
}

} // verus!
