//! Cache bookkeeping: session snapshot file names, the id embedded in them,
//! and the selection of the most recently modified snapshot.

use vstd::prelude::*;
use crate::dec::{all_digits, dec_digits, dec_val, digit_run_len, is_digit, parse_u64_at, u64_to_dec};

verus! {

/// One entry of the cache directory: its name and last-modified time,
/// the latter as nanoseconds since an arbitrary fixed origin.
#[derive(Debug)]
pub struct CacheEntry {
    /// The entry's last-modified time.
    pub modified: u64,
    /// The entry's file name.
    pub name: String,
}

/// Why a cache operation failed.
#[derive(Clone, Copy, Debug, PartialEq, Eq, Structural)]
pub enum CacheError {
    /// The cache holds no snapshot at all.
    EmptyCache,
    /// The winning file name does not embed a parseable session id.
    BadSessionName,
    /// The next session id does not fit in the id space.
    IdOverflow,
}

/// The file name of the snapshot with id `id`.
pub open spec fn session_file_chars(id: nat) -> Seq<char> {
    "chisel-"@ + dec_digits(id) + ".json"@
}

/// The id embedded in a snapshot file name, when the name is
/// `chisel-<digits>.json` and the digits fit in a `u64`.
pub open spec fn spec_parse_session_name(s: Seq<char>) -> Option<u64> {
    let p = "chisel-"@;
    let q = ".json"@;
    let mid = s.subrange(p.len() as int, s.len() - q.len());
    if s.len() >= p.len() + q.len() && s.subrange(0, p.len() as int) == p && s.subrange(
        s.len() - q.len(),
        s.len() as int,
    ) == q && mid.len() > 0 && all_digits(mid) && dec_val(mid) <= u64::MAX {
        Some(dec_val(mid) as u64)
    } else {
        None
    }
}

/// The index of the entry with the greatest modified time; on ties, the
/// later index wins.
pub open spec fn winner_latest(entries: Seq<CacheEntry>) -> int
    decreases entries.len(),
{
    if entries.len() <= 1 {
        0
    } else {
        let w = winner_latest(entries.drop_last());
        if entries.last().modified >= entries[w].modified {
            entries.len() - 1
        } else {
            w
        }
    }
}

/// The index of the entry with the greatest modified time; on ties, the
/// earlier index wins.
pub open spec fn winner_earliest_max(entries: Seq<CacheEntry>) -> int
    decreases entries.len(),
{
    if entries.len() <= 1 {
        0
    } else {
        let w = winner_earliest_max(entries.drop_last());
        if entries.last().modified > entries[w].modified {
            entries.len() - 1
        } else {
            w
        }
    }
}

/// The winning indexes stay within the entries.
pub proof fn lemma_winner_in_range(entries: Seq<CacheEntry>)
    requires
        entries.len() > 0,
    ensures
        0 <= winner_latest(entries) < entries.len(),
        0 <= winner_earliest_max(entries) < entries.len(),
    decreases entries.len(),
{
    if entries.len() > 1 {
        lemma_winner_in_range(entries.drop_last());
    }
}

/// Whether a character sequence has `pat` at position `i`.
pub open spec fn has_at(s: Seq<char>, i: int, pat: Seq<char>) -> bool {
    0 <= i && i + pat.len() <= s.len() && s.subrange(i, i + pat.len()) == pat
}

/// Tests whether `s` carries `pat` starting at position `i`.
pub fn starts_with_at(s: &str, i: usize, pat: &str) -> (b: bool)
    ensures
        b == has_at(s@, i as int, pat@),
{
    let n = s.unicode_len();
    let m = pat.unicode_len();
    if m > n || i > n - m {
        proof {
            assert(!has_at(s@, i as int, pat@));
        }
        return false;
    }
    let mut k: usize = 0;
    while k < m
        invariant
            k <= m == pat@.len(),
            i + m <= n == s@.len(),
            forall|j: int| 0 <= j < k ==> s@[i + j] == pat@[j],
        decreases m - k,
    {
        if s.get_char(i + k) != pat.get_char(k) {
            proof {
                assert(s@.subrange(i as int, i + pat@.len())[k as int] != pat@[k as int]);
            }
            return false;
        }
        k = k + 1;
    }
    proof {
        assert(s@.subrange(i as int, i + pat@.len()) =~= pat@);
    }
    true
}

/// Reads the session id embedded in a snapshot file name.
pub fn parse_session_name(name: &str) -> (r: Option<u64>)
    ensures
        r == spec_parse_session_name(name@),
{
    proof {
        reveal_strlit("chisel-");
        reveal_strlit(".json");
    }
    let n = name.unicode_len();
    if n < 12 {
        return None;
    }
    if !starts_with_at(name, 0, "chisel-") {
        return None;
    }
    if !starts_with_at(name, n - 5, ".json") {
        return None;
    }
    let ghost mid = name@.subrange(7, n - 5);
    let ghost k = digit_run_len(name@, 7);
    proof {
        lemma_run_boundary(name@, 7);
        assert(name@[n - 5] == name@.subrange(n - 5, n as int)[0]);
        assert(!is_digit(name@[n - 5]));
        // The run cannot reach past the dot that opens the suffix.
        if k > n - 5 - 7 {
            assert(is_digit(name@[n - 5]));
        }
        if k < n - 5 - 7 {
            // The run stops early, so the middle holds a non-digit.
            assert(mid[k] == name@[7 + k]);
            assert(!all_digits(mid));
        } else {
            // The run is exactly the middle.
            assert(mid =~= name@.subrange(7, 7 + k));
            assert forall|j: int| 0 <= j < mid.len() implies is_digit(#[trigger] mid[j]) by {
                assert(mid[j] == name@[7 + j]);
            }
        }
    }
    match parse_u64_at(name, 7) {
        None => None,
        Some((val, end)) => {
            if end == n - 5 {
                Some(val)
            } else {
                None
            }
        },
    }
}

/// The shape of a maximal digit run: it stays inside the sequence, every
/// character in it is a digit, and it ends at the end of the sequence or at
/// a non-digit.
pub proof fn lemma_run_boundary(s: Seq<char>, i: int)
    requires
        0 <= i <= s.len(),
    ensures
        0 <= digit_run_len(s, i),
        i + digit_run_len(s, i) <= s.len(),
        forall|j: int| i <= j < i + digit_run_len(s, i) ==> is_digit(#[trigger] s[j]),
        i + digit_run_len(s, i) == s.len() || !is_digit(s[i + digit_run_len(s, i)]),
    decreases s.len() - i,
{
    if i < s.len() && is_digit(s[i]) {
        lemma_run_boundary(s, i + 1);
    }
}

/// Builds the file name of the snapshot with id `id`.
pub fn session_file_name(id: u64) -> (r: String)
    ensures
        r@ == session_file_chars(id as nat),
{
    let mut s = String::from_str("chisel-");
    let digits = u64_to_dec(id);
    s.append(digits.as_str());
    s.append(".json");
    s
}

/// Picks the most recently modified entry; on equal times the later entry
/// wins. Returns its index.
pub fn pick_latest(entries: &Vec<CacheEntry>) -> (r: Option<usize>)
    ensures
        match r {
            Some(w) => entries@.len() > 0 && w as int == winner_latest(entries@),
            None => entries@.len() == 0,
        },
{
    let n = entries.len();
    if n == 0 {
        return None;
    }
    let mut w: usize = 0;
    let mut i: usize = 1;
    while i < n
        invariant
            1 <= i <= n == entries@.len(),
            w < i,
            w as int == winner_latest(entries@.take(i as int)),
        decreases n - i,
    {
        let ghost cur = entries@.take(i as int + 1);
        proof {
            assert(cur.drop_last() =~= entries@.take(i as int));
            assert(cur.last() == entries@[i as int]);
            lemma_winner_in_range(entries@.take(i as int));
        }
        if entries[i].modified >= entries[w].modified {
            w = i;
        }
        i = i + 1;
    }
    proof {
        assert(entries@.take(n as int) =~= entries@);
    }
    Some(w)
}

/// Picks the most recently modified entry; on equal times the earlier entry
/// wins. Returns its index.
pub fn pick_earliest_max(entries: &Vec<CacheEntry>) -> (r: Option<usize>)
    ensures
        match r {
            Some(w) => entries@.len() > 0 && w as int == winner_earliest_max(entries@),
            None => entries@.len() == 0,
        },
{
    let n = entries.len();
    if n == 0 {
        return None;
    }
    let mut w: usize = 0;
    let mut i: usize = 1;
    while i < n
        invariant
            1 <= i <= n == entries@.len(),
            w < i,
            w as int == winner_earliest_max(entries@.take(i as int)),
        decreases n - i,
    {
        let ghost cur = entries@.take(i as int + 1);
        proof {
            assert(cur.drop_last() =~= entries@.take(i as int));
            assert(cur.last() == entries@[i as int]);
            lemma_winner_in_range(entries@.take(i as int));
        }
        if entries[i].modified > entries[w].modified {
            w = i;
        }
        i = i + 1;
    }
    proof {
        assert(entries@.take(n as int) =~= entries@);
    }
    Some(w)
}

/// What allocating the next session id yields on the given directory
/// entries: 0 for an empty cache; otherwise one more than the id embedded in
/// the most recently modified entry's name, or a failure when that name
/// embeds no id or the id space is exhausted.
pub open spec fn spec_next_session(entries: Seq<CacheEntry>) -> Result<u64, CacheError> {
    if entries.len() == 0 {
        Ok(0u64)
    } else {
        match spec_parse_session_name(entries[winner_latest(entries)].name@) {
            None => Err(CacheError::BadSessionName),
            Some(id) => if id < u64::MAX {
                Ok((id + 1) as u64)
            } else {
                Err(CacheError::IdOverflow)
            },
        }
    }
}

/// Allocates the next session id and its snapshot file name. An empty cache
/// yields id 0; otherwise the id embedded in the most recently modified
/// entry's name, plus one.
pub fn next_cached_session(entries: &Vec<CacheEntry>) -> (r: Result<(u64, String), CacheError>)
    ensures
        match r {
            Ok(p) => spec_next_session(entries@) == Ok::<u64, CacheError>(p.0) && p.1@
                == session_file_chars(p.0 as nat),
            Err(e) => spec_next_session(entries@) == Err::<u64, CacheError>(e),
        },
{
    match pick_latest(entries) {
        None => {
            let name = session_file_name(0);
            Ok((0, name))
        },
        Some(w) => {
            proof {
                lemma_winner_in_range(entries@);
            }
            match parse_session_name(entries[w].name.as_str()) {
                None => Err(CacheError::BadSessionName),
                Some(id) => {
                    if id < u64::MAX {
                        let name = session_file_name(id + 1);
                        Ok((id + 1, name))
                    } else {
                        Err(CacheError::IdOverflow)
                    }
                },
            }
        },
    }
}

/// Picks the name of the most recently modified snapshot; on equal times the
/// earlier entry wins. Fails exactly on an empty cache.
pub fn latest_chached_session(entries: &Vec<CacheEntry>) -> (r: Result<String, CacheError>)
    ensures
        match r {
            Ok(name) => entries@.len() > 0 && name@
                == entries@[winner_earliest_max(entries@)].name@,
            Err(e) => entries@.len() == 0 && e == CacheError::EmptyCache,
        },
{
    match pick_earliest_max(entries) {
        None => Err(CacheError::EmptyCache),
        Some(w) => {
            proof {
                lemma_winner_in_range(entries@);
            }
            Ok(entries[w].name.clone())
        },
    }
}

/// The per-user cache directory, under the given home directory.
pub fn cache_dir(home: &str) -> (r: String)
    ensures
        r@ == home@ + "/.foundry/cache/chisel/"@,
{
    let mut s = String::from_str(home);
    s.append("/.foundry/cache/chisel/");
    s
}

/// A snapshot file name embeds the id it was built from.
pub proof fn lemma_session_name_round_trip(id: u64)
    ensures
        spec_parse_session_name(session_file_chars(id as nat)) == Some(id),
{
    reveal_strlit("chisel-");
    reveal_strlit(".json");
    let s = session_file_chars(id as nat);
    let p = "chisel-"@;
    let q = ".json"@;
    let d = dec_digits(id as nat);
    crate::dec::lemma_dec_digits_shape(id as nat);
    crate::dec::lemma_dec_round_trip(id as nat);
    assert(s.subrange(0, p.len() as int) =~= p);
    assert(s.subrange(s.len() - q.len(), s.len() as int) =~= q);
    assert(s.subrange(p.len() as int, s.len() - q.len()) =~= d);
}

} // verus!
