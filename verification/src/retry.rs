//! What follows a failed attempt: when to try again, and the log of errors.

use vstd::arithmetic::power2::{lemma2_to64, lemma_pow2_strictly_increases, lemma_pow2_unfold, pow2};
use vstd::prelude::*;
use vstd::string::*;

use crate::json::{
    array_text, entry_text, entry_texts, json_array, json_items, log_entry, log_text, write_array,
    LogEntry,
};
use crate::db::outbox::log_after;
use crate::text::texts_view;

verus! {

/// Milliseconds to wait after an attempt that `retries` failed ones went
/// before: a second, doubled each time, and never more than five minutes.
pub open spec fn backoff(retries: nat) -> int {
    if 1000 * pow2(retries) < 300_000 {
        1000 * pow2(retries) as int
    } else {
        300_000
    }
}

/// Milliseconds to wait after an attempt that `retries` failed ones went
/// before.
pub fn backoff_ms(retries: u32) -> (r: i64)
    ensures
        r == backoff(retries as nat),
        1000 <= r <= 300_000,
{
    proof {
        lemma2_to64();
    }
    if retries >= 9 {
        proof {
            if retries > 9 {
                lemma_pow2_strictly_increases(9, retries as nat);
            }
        }
        return 300_000;
    }
    let mut wait: i64 = 1000;
    let mut i: u32 = 0;
    while i < retries
        invariant
            i <= retries < 9,
            wait == 1000 * pow2(i as nat),
            wait <= 256_000,
        decreases retries - i,
    {
        proof {
            lemma_pow2_unfold((i + 1) as nat);
            lemma2_to64();
            if i + 1 < 8 {
                lemma_pow2_strictly_increases((i + 1) as nat, 8);
            }
        }
        wait = wait * 2;
        i = i + 1;
    }
    wait
}

/// Waits never shrink from one failure to the next, and stay within bounds.
pub proof fn law_backoff_grows(a: nat, b: nat)
    requires
        a <= b,
    ensures
        1000 <= backoff(a) <= backoff(b) <= 300_000,
{
    lemma2_to64();
    if 0 < a {
        lemma_pow2_strictly_increases(0, a);
    }
    if a < b {
        lemma_pow2_strictly_increases(a, b);
    }
}

/// From the ninth failure on, the wait is five minutes.
pub proof fn law_backoff_cap(retries: nat)
    requires
        retries >= 9,
    ensures
        backoff(retries) == 300_000,
{
    lemma2_to64();
    if retries > 9 {
        lemma_pow2_strictly_increases(9, retries);
    }
}

/// The last `n` of a sequence, or all where there are fewer.
pub open spec fn last_of<A>(s: Seq<A>, n: nat) -> Seq<A> {
    if s.len() > n {
        s.skip(s.len() - n)
    } else {
        s
    }
}

/// The items of a log that is there and readable.
pub open spec fn logged_items(existing: Option<Seq<char>>) -> Seq<Seq<char>> {
    match existing {
        Some(s) => match json_items(s) {
            Some(items) => items,
            None => Seq::empty(),
        },
        None => Seq::empty(),
    }
}

/// Appends an error to a log and keeps the latest twenty. A log that cannot be
/// read is begun anew.
pub fn append_to_error_log(existing: &Option<String>, error: &str, now: i64) -> (r: String)
    ensures
        r@ == array_text(
            last_of(
                logged_items(crate::db::row::opt_text(*existing)).push(
                    entry_text(LogEntry { error: error@, ts: now }),
                ),
                20,
            ),
        ),
        existing is None ==> r@ == log_text(seq![LogEntry { error: error@, ts: now }]),
        forall|entries: Seq<LogEntry>|
            existing is Some && existing->0@ == #[trigger] log_text(entries) ==> r@ == log_text(
                last_of(entries.push(LogEntry { error: error@, ts: now }), 20),
            ),
{
    let ghost new = LogEntry { error: error@, ts: now };
    let mut log: Vec<String> = match existing {
        Some(s) => match json_array(s.as_str()) {
            Some(items) => items,
            None => Vec::new(),
        },
        None => Vec::new(),
    };
    let ghost before = texts_view(log@);
    assert(before =~= logged_items(crate::db::row::opt_text(*existing)));
    log.push(log_entry(error, now));
    assert(texts_view(log@) =~= before.push(entry_text(new)));
    let ghost all = log@;
    if log.len() > 20 {
        let drop: usize = log.len() - 20;
        log = log.split_off(drop);
    }
    assert(texts_view(log@) =~= last_of(before.push(entry_text(new)), 20));
    proof {
        if existing is None {
            assert(texts_view(log@) =~= entry_texts(seq![new]));
        }
        assert forall|entries: Seq<LogEntry>|
            existing is Some && existing->0@ == #[trigger] log_text(
                entries,
            ) implies last_of(before.push(entry_text(new)), 20) == entry_texts(
            last_of(entries.push(new), 20),
        ) by {
            assert(before == entry_texts(entries));
            assert(last_of(before.push(entry_text(new)), 20) =~= entry_texts(
                last_of(entries.push(new), 20),
            ));
        }
    }
    write_array(&log)
}

/// Keeping the latest `n` of a growing log step by step is keeping the latest
/// `n` of all that was ever appended.
pub proof fn law_log_keeps_latest<A>(all: Seq<A>, new: A, n: nat)
    requires
        n > 0,
    ensures
        last_of(last_of(all, n).push(new), n) == last_of(all.push(new), n),
        last_of(all, n).len() <= n,
{
    assert(last_of(last_of(all, n).push(new), n) =~= last_of(all.push(new), n));
}

/// The first wait is a second, and each is twice the one before, up to five
/// minutes.
pub proof fn law_backoff_doubles(retries: nat)
    ensures
        backoff(0) == 1000,
        backoff(retries + 1) == (if 2 * backoff(retries) < 300_000 {
            2 * backoff(retries)
        } else {
            300_000
        }),
{
    lemma2_to64();
    lemma_pow2_unfold(retries + 1);
}

/// A log after one more error ends with that error. It holds at most twenty, the
/// latest of those that were there, in their order. A log that is not there, or
/// cannot be read, is begun anew.
pub proof fn law_log_ends_with_the_latest(existing: Option<Seq<char>>, error: Seq<char>, now: i64)
    ensures
        exists|kept: Seq<Seq<char>>|
            {
                let before = match existing {
                    Some(s) => match json_items(s) {
                        Some(items) => items,
                        None => Seq::empty(),
                    },
                    None => Seq::empty(),
                };
                let all = before.push(entry_text(LogEntry { error, ts: now }));
                &&& #[trigger] array_text(kept) == log_after(existing, error, now)
                &&& 1 <= kept.len() <= 20
                &&& kept.len() == all.len() || kept.len() == 20
                &&& kept.len() <= all.len()
                &&& kept == all.skip(all.len() - kept.len())
            },
{
    let all = logged_items(existing).push(entry_text(LogEntry { error, ts: now }));
    let kept = last_of(all, 20);
    assert(kept =~= all.skip(all.len() - kept.len()));
    assert(array_text(kept) == log_after(existing, error, now));
}

} // verus!
