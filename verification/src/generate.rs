//! Candidate generation: random tags of a requested length over an alphabet,
//! spread evenly by a per-symbol repeat ceiling, filtered for digit/letter
//! composition, and checked against the ledger so no issued tag comes back.

use vstd::prelude::*;
use vstd::string::StrSliceExecFns;
use crate::TagError;
use crate::chars::Chars;
use crate::chars::check_digit;
use crate::chars::check_letter;
use crate::chars::seq_has_digit;
use crate::chars::seq_has_letter;
use crate::chars::is_digit_char;
use crate::chars::is_letter_char;
use crate::ledger::write_contents;
use crate::ledger::lookup_tag;
use crate::ledger::record_tag;
use crate::ledger::commit_ledger;
use crate::text::chars_to_string;

verus! {

/// Raw draws spent per requested tag before generation admits exhaustion.
pub const ATTEMPT_BUDGET_PER_TAG: usize = 512;

/// Number of times `c` occurs in `s`.
pub open spec fn count_char(s: Seq<char>, c: char) -> nat
    decreases s.len(),
{
    if s.len() == 0 {
        0
    } else {
        count_char(s.drop_last(), c) + (if s.last() == c {
            1nat
        } else {
            0nat
        })
    }
}

proof fn lemma_count_push(s: Seq<char>, x: char, c: char)
    ensures
        count_char(s.push(x), c) == count_char(s, c) + (if x == c {
            1nat
        } else {
            0nat
        }),
{
    assert(s.push(x).drop_last() =~= s);
}

/// The per-symbol occurrence ceiling within one candidate: the ceiling of
/// `length / n` for an alphabet of `n` symbols.
pub open spec fn max_repeats_spec(length: nat, n: nat) -> nat
    recommends
        n > 0,
{
    if length % n == 0 {
        length / n
    } else {
        length / n + 1
    }
}

/// Computes the max-repeat bound for one candidate.
pub fn max_repeats(length: usize, n: usize) -> (r: usize)
    requires
        1 <= n,
        1 <= length <= 127,
    ensures
        r == max_repeats_spec(length as nat, n as nat),
{
    if length % n == 0 {
        length / n
    } else {
        length / n + 1
    }
}

/// What one attempt accepts, walking the draws from position `k` with the
/// previous raw draw `prev` and the symbols `acc` accepted so far: an
/// adjacent duplicate draw is dropped (unless the alphabet has one symbol),
/// a draw whose symbol already occurs `max_rep` times is skipped, and the
/// walk stops at `length` accepted symbols or when the draws run out.
pub open spec fn attempt_step(
    alphabet: Seq<char>,
    max_rep: nat,
    length: nat,
    draws: Seq<usize>,
    k: int,
    prev: Option<char>,
    acc: Seq<char>,
) -> Seq<char>
    decreases draws.len() - k,
{
    if k < 0 || k >= draws.len() || acc.len() >= length {
        acc
    } else {
        let c = alphabet[draws[k] as int];
        let dup = alphabet.len() > 1 && prev == Some(c);
        let acc2 = if !dup && count_char(acc, c) < max_rep {
            acc.push(c)
        } else {
            acc
        };
        attempt_step(alphabet, max_rep, length, draws, k + 1, Some(c), acc2)
    }
}

/// The symbols one whole attempt accepts out of `draws`.
pub open spec fn attempt_spec(chars: Chars, length: nat, draws: Seq<usize>) -> Seq<char> {
    attempt_step(
        chars.value@,
        max_repeats_spec(length, chars.value@.len()),
        length,
        draws,
        0,
        None,
        Seq::empty(),
    )
}

/// The shape and composition every emitted tag has: exactly `length` symbols,
/// each drawn from the alphabet, none occurring more often than the
/// max-repeat bound, with at least one digit when the alphabet holds a digit
/// and at least one letter when it holds a letter.
pub open spec fn generated_tag_ok(chars: Chars, length: nat, t: Seq<char>) -> bool {
    &&& t.len() == length
    &&& forall|i: int| 0 <= i < t.len() ==> chars.value@.contains(#[trigger] t[i])
    &&& forall|c: char|
        #[trigger] count_char(t, c) <= max_repeats_spec(length, chars.value@.len())
    &&& chars.has_digit ==> seq_has_digit(t)
    &&& chars.has_alphabetic ==> seq_has_letter(t)
}

/// Counts how often `c` occurs in `v`.
fn count_in(v: &Vec<char>, c: char) -> (n: usize)
    requires
        v@.len() <= 127,
    ensures
        n == count_char(v@, c),
{
    let mut n: usize = 0;
    let mut i: usize = 0;
    while i < v.len()
        invariant
            i <= v@.len(),
            v@.len() <= 127,
            n <= i,
            n == count_char(v@.subrange(0, i as int), c),
        decreases v@.len() - i,
    {
        proof {
            assert(v@.subrange(0, i + 1).drop_last() =~= v@.subrange(0, i as int));
        }
        if v[i] == c {
            n = n + 1;
        }
        i = i + 1;
    }
    proof {
        assert(v@.subrange(0, v@.len() as int) =~= v@);
    }
    n
}

/// Relies on `rand::random_range`: a value drawn from the given non-empty
/// range; nothing more is promised of a random result.
#[verifier::external_body]
fn random_index(n: usize) -> (r: usize)
    requires
        1 <= n,
    ensures
        r < n,
{
    rand::random_range(0..n)
}

/// Draws `k` random indices below `n`.
fn draw_indices(n: usize, k: usize) -> (r: Vec<usize>)
    requires
        1 <= n,
    ensures
        r@.len() == k,
        forall|i: int| 0 <= i < r@.len() ==> #[trigger] r@[i] < n,
{
    let mut r: Vec<usize> = Vec::new();
    let mut i: usize = 0;
    while i < k
        invariant
            i <= k,
            1 <= n,
            r@.len() == i,
            forall|j: int| 0 <= j < r@.len() ==> #[trigger] r@[j] < n,
        decreases k - i,
    {
        r.push(random_index(n));
        i = i + 1;
    }
    r
}

/// One candidate attempt over a fixed sequence of raw draws (indices into the
/// alphabet): adjacent duplicate draws are dropped, a draw that would push a
/// symbol past the max-repeat bound is skipped, and acceptance stops at
/// `length` symbols. `None` when the draws ran out first, so the attempt is
/// discarded. With a one-symbol alphabet adjacent deduplication is disabled:
/// it would reject every draw after the first and no tag of length above one
/// could ever be produced.
pub fn build_candidate(chars: &Chars, length: usize, draws: &Vec<usize>) -> (r: Option<String>)
    requires
        chars.wf(),
        1 <= length <= 127,
        forall|i: int| 0 <= i < draws@.len() ==> #[trigger] draws@[i] < chars.value@.len(),
    ensures
        r matches Some(t) ==> {
            &&& t@ == attempt_spec(*chars, length as nat, draws@)
            &&& t@.len() == length
            &&& forall|i: int| 0 <= i < t@.len() ==> chars.value@.contains(#[trigger] t@[i])
            &&& forall|c: char|
                #[trigger] count_char(t@, c) <= max_repeats_spec(
                    length as nat,
                    chars.value@.len(),
                )
        },
        r is None <==> attempt_spec(*chars, length as nat, draws@).len() != length,
{
    let n = chars.value.len();
    let max_rep = max_repeats(length, n);
    let mut out: Vec<char> = Vec::new();
    let mut prev: Option<char> = None;
    let mut k: usize = 0;
    while k < draws.len() && out.len() < length
        invariant
            chars.wf(),
            n == chars.value@.len(),
            1 <= length <= 127,
            max_rep == max_repeats_spec(length as nat, n as nat),
            forall|i: int| 0 <= i < draws@.len() ==> #[trigger] draws@[i] < chars.value@.len(),
            k <= draws@.len(),
            out@.len() <= length,
            forall|i: int| 0 <= i < out@.len() ==> chars.value@.contains(#[trigger] out@[i]),
            forall|c: char| #[trigger] count_char(out@, c) <= max_rep,
            attempt_spec(*chars, length as nat, draws@) == attempt_step(
                chars.value@,
                max_rep as nat,
                length as nat,
                draws@,
                k as int,
                prev,
                out@,
            ),
        decreases draws@.len() - k,
    {
        let c = chars.value[draws[k]];
        let is_dup = n > 1 && match prev {
            Some(p) => p == c,
            None => false,
        };
        let cnt = count_in(&out, c);
        let accepts = !is_dup && cnt < max_rep;
        proof {
            assert(chars.value@[draws@[k as int] as int] == c);
            assert(attempt_step(
                chars.value@,
                max_rep as nat,
                length as nat,
                draws@,
                k as int,
                prev,
                out@,
            ) == attempt_step(
                chars.value@,
                max_rep as nat,
                length as nat,
                draws@,
                k + 1,
                Some(c),
                if accepts {
                    out@.push(c)
                } else {
                    out@
                },
            ));
        }
        prev = Some(c);
        if accepts {
            proof {
                assert forall|d: char| count_char(out@.push(c), d) <= max_rep by {
                    lemma_count_push(out@, c, d);
                }
                assert(chars.value@.contains(c)) by {
                    assert(chars.value@[draws@[k as int] as int] == c);
                }
            }
            out.push(c);
        }
        k = k + 1;
    }
    proof {
        assert(attempt_step(
            chars.value@,
            max_rep as nat,
            length as nat,
            draws@,
            k as int,
            prev,
            out@,
        ) == out@);
    }
    if out.len() == length {
        Some(chars_to_string(&out))
    } else {
        None
    }
}

/// Whether a candidate meets the alphabet's composition requirement: a digit
/// somewhere when the alphabet holds a digit, a letter somewhere when it
/// holds a letter.
pub fn candidate_ok(chars: &Chars, tag: &String) -> (r: bool)
    ensures
        r == ((chars.has_digit ==> seq_has_digit(tag@)) && (chars.has_alphabetic
            ==> seq_has_letter(tag@))),
{
    let s = tag.as_str();
    let n = s.unicode_len();
    let mut found_digit = false;
    let mut found_letter = false;
    let mut i: usize = 0;
    while i < n
        invariant
            n == s@.len(),
            s@ == tag@,
            i <= n,
            found_digit == (exists|j: int| 0 <= j < i && is_digit_char(s@[j])),
            found_letter == (exists|j: int| 0 <= j < i && is_letter_char(s@[j])),
        decreases n - i,
    {
        let c = s.get_char(i);
        if check_digit(c) {
            found_digit = true;
        }
        if check_letter(c) {
            found_letter = true;
        }
        i = i + 1;
    }
    (!chars.has_digit || found_digit) && (!chars.has_alphabetic || found_letter)
}

/// Collects `amount` fresh candidates: each has the generated shape and
/// composition, and none is present in the ledger as seen by the open write
/// transaction. Attempts are bounded; when the budget runs out before
/// `amount` candidates are accepted, the whole request fails with
/// `TagError::Exhausted` instead of spinning forever.
pub fn collect_candidates(
    txn: &redb::WriteTransaction,
    chars: &Chars,
    length: usize,
    amount: usize,
) -> (r: Result<Vec<String>, TagError>)
    requires
        chars.wf(),
        1 <= length <= 127,
        1 <= amount <= 127,
    ensures
        r matches Ok(tags) ==> {
            &&& tags@.len() == amount
            &&& forall|i: int|
                0 <= i < tags@.len() ==> generated_tag_ok(*chars, length as nat, #[trigger] tags@[i]@)
            &&& forall|i: int|
                0 <= i < tags@.len() ==> !write_contents(*txn).dom().contains(#[trigger] tags@[i]@)
        },
{
    let budget: usize = amount * ATTEMPT_BUDGET_PER_TAG;
    let mut tags: Vec<String> = Vec::new();
    let mut attempts: usize = 0;
    while attempts < budget && tags.len() < amount
        invariant
            chars.wf(),
            1 <= length <= 127,
            1 <= amount <= 127,
            attempts <= budget,
            tags@.len() <= amount,
            forall|i: int|
                0 <= i < tags@.len() ==> generated_tag_ok(*chars, length as nat, #[trigger] tags@[i]@),
            forall|i: int|
                0 <= i < tags@.len() ==> !write_contents(*txn).dom().contains(#[trigger] tags@[i]@),
        decreases budget - attempts,
    {
        attempts = attempts + 1;
        let draws = draw_indices(chars.value.len(), 2 * length);
        if let Some(tag) = build_candidate(chars, length, &draws) {
            if candidate_ok(chars, &tag) {
                match lookup_tag(txn, &tag) {
                    Err(e) => {
                        return Err(e);
                    },
                    Ok(Some(_)) => {},
                    Ok(None) => {
                        tags.push(tag);
                    },
                }
            }
        }
    }
    if tags.len() == amount {
        Ok(tags)
    } else {
        Err(TagError::Exhausted)
    }
}

/// Which candidate the request settles on: with exactly one candidate it is
/// auto-selected; otherwise the caller's pick stands when it is a valid
/// index, and no tag is selected when the pick is absent or out of range.
pub open spec fn selection_spec(len: nat, picked: Option<usize>) -> Option<usize> {
    if len == 1 {
        Some(0usize)
    } else {
        match picked {
            Some(i) => if i < len {
                Some(i)
            } else {
                None
            },
            None => None,
        }
    }
}

/// The tag the selection rule settles on, if any.
pub open spec fn chosen_tag_spec(tags: Seq<String>, picked: Option<usize>) -> Option<String> {
    match selection_spec(tags.len(), picked) {
        Some(i) => Some(tags[i as int]),
        None => None,
    }
}

/// Applies the selection rule to the accepted candidates.
pub fn select_tag(tags: &Vec<String>, picked: Option<usize>) -> (r: Option<usize>)
    ensures
        r == selection_spec(tags@.len(), picked),
        r matches Some(i) ==> i < tags@.len(),
{
    if tags.len() == 1 {
        Some(0)
    } else {
        match picked {
            Some(i) => if i < tags.len() {
                Some(i)
            } else {
                None
            },
            None => None,
        }
    }
}

/// Relies on time's `OffsetDateTime::now_utc`: the clock's current Unix
/// timestamp in seconds; nothing is promised of its value.
#[verifier::external_body]
fn now_unix_timestamp() -> i64 {
    time::OffsetDateTime::now_utc().unix_timestamp()
}

/// Applies the selection rule and records the chosen tag, if any, with the
/// given timestamp: afterwards the transaction holds exactly the old map
/// plus the chosen tag, and exactly the old map when nothing was chosen.
/// Unselected candidates are discarded without being marked used.
pub fn record_selection(
    txn: &mut redb::WriteTransaction,
    tags: &Vec<String>,
    picked: Option<usize>,
    timestamp: i64,
) -> (r: Result<Option<String>, TagError>)
    ensures
        r matches Ok(o) ==> {
            &&& o == chosen_tag_spec(tags@, picked)
            &&& o matches Some(t) ==> write_contents(*final(txn)) == write_contents(
                *old(txn),
            ).insert(t@, timestamp)
            &&& o is None ==> write_contents(*final(txn)) == write_contents(*old(txn))
        },
        selection_spec(tags@.len(), picked) is None ==> r is Ok && write_contents(*final(txn))
            == write_contents(*old(txn)),
{
    let sel = select_tag(tags, picked);
    match sel {
        Some(i) => {
            let tag = tags[i].clone();
            match record_tag(txn, &tag, timestamp) {
                Err(e) => Err(e),
                Ok(()) => Ok(Some(tag)),
            }
        },
        None => Ok(None),
    }
}

/// Ends a generation request: records the selected candidate (if any) with
/// the clock's current timestamp, then commits the transaction either way,
/// so that an unmodified transaction is still closed cleanly. Returns the
/// chosen tag. The ledger delta of the recording step is stated at
/// `record_selection`; what commit makes durable is redb's own guarantee.
pub fn finalize_generation(
    txn: redb::WriteTransaction,
    tags: &Vec<String>,
    picked: Option<usize>,
) -> (r: Result<Option<String>, TagError>)
    ensures
        r matches Ok(o) ==> o == chosen_tag_spec(tags@, picked),
{
    let mut txn = txn;
    let ts = now_unix_timestamp();
    let out = match record_selection(&mut txn, tags, picked, ts) {
        Err(e) => {
            return Err(e);
        },
        Ok(o) => o,
    };
    match commit_ledger(txn) {
        Err(e) => Err(e),
        Ok(()) => Ok(out),
    }
}

} // verus!
