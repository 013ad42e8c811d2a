//! Hybrid logical clock.
//!
//! A reading is written as `{physical_ms:013x}-{logical:04x}-{node_id_hex}`.
//! The parts are padded to fixed widths, so readings sort as text exactly as
//! they sort as clocks, in a database index as well as in memory.

use core::cmp::Ordering;
use core::str::FromStr;
use vstd::arithmetic::power::pow;
use vstd::prelude::*;
use vstd::string::*;
use vstd::utf8::*;

use crate::error::SquirrelError;
use crate::text::{
    bytes_less, bytes_lt, chars_of, hex_bytes, hex_decode_chars, hex_encode, hex_padded,
    hex_padded_text, lemma_bytes_lt_concat, lemma_bytes_lt_irreflexive, lemma_bytes_lt_total,
    lemma_bytes_lt_transitive, lemma_hex_padded, lemma_hex_round_trip, parse_hex, parse_hex_chars,
    text_lt, unhex_bytes,
};

verus! {

/// A reading of the hybrid logical clock: wall-clock milliseconds, a counter
/// that separates readings of the same millisecond, and the node that took it.
#[derive(Debug, Clone, Copy, Eq, Ord)]
pub struct Hlc {
    pub physical_ms: u64,
    pub logical: u16,
    pub node_id: [u8; 6],
}

/// Whether `a` was taken before `b`: by milliseconds, then by counter, then by
/// node.
pub open spec fn hlc_lt(a: Hlc, b: Hlc) -> bool {
    ||| a.physical_ms < b.physical_ms
    ||| a.physical_ms == b.physical_ms && a.logical < b.logical
    ||| a.physical_ms == b.physical_ms && a.logical == b.logical && bytes_lt(
        a.node_id@,
        b.node_id@,
    )
}

/// A reading of a node when the wall clock shows `wall_ms`, with nothing before
/// it.
pub open spec fn first_reading(node_id: [u8; 6], wall_ms: u64) -> Hlc {
    Hlc { physical_ms: wall_ms, logical: 0, node_id }
}

/// The milliseconds and the count that come right after others: one count up,
/// and on to the next millisecond where the counter is used up. The very last
/// reading has none after it and stays.
pub open spec fn after_count(physical_ms: u64, logical: u16) -> (u64, u16) {
    if logical < u16::MAX {
        (physical_ms, (logical + 1) as u16)
    } else if physical_ms < u64::MAX {
        ((physical_ms + 1) as u64, 0)
    } else {
        (physical_ms, logical)
    }
}

/// Whether a reading is one that nothing can follow: its milliseconds and its
/// counter are both used up.
pub open spec fn is_last(h: Hlc) -> bool {
    h.physical_ms == u64::MAX && h.logical == u16::MAX
}

/// The reading that follows `h` when the wall clock shows `wall_ms`.
pub open spec fn ticked(h: Hlc, wall_ms: u64) -> Hlc {
    if wall_ms > h.physical_ms {
        Hlc { physical_ms: wall_ms, logical: 0, node_id: h.node_id }
    } else {
        let (physical_ms, logical) = after_count(h.physical_ms, h.logical);
        Hlc { physical_ms, logical, node_id: h.node_id }
    }
}

/// The larger of two counts.
pub open spec fn max_count(a: u16, b: u16) -> u16 {
    if a > b {
        a
    } else {
        b
    }
}

/// The reading of `local`'s node that follows both `local` and a remote reading
/// of some milliseconds and count when the wall clock shows `wall_ms`.
pub open spec fn merged_with(local: Hlc, remote_ms: u64, remote_count: u16, wall_ms: u64) -> Hlc {
    let latest = if local.physical_ms > remote_ms {
        local.physical_ms
    } else {
        remote_ms
    };
    if wall_ms > latest {
        Hlc { physical_ms: wall_ms, logical: 0, node_id: local.node_id }
    } else {
        let count = if local.physical_ms == remote_ms {
            max_count(local.logical, remote_count)
        } else if local.physical_ms == latest {
            local.logical
        } else {
            remote_count
        };
        let (physical_ms, logical) = after_count(latest, count);
        Hlc { physical_ms, logical, node_id: local.node_id }
    }
}

/// The reading of `local`'s node that follows both `local` and `remote` when
/// the wall clock shows `wall_ms`.
pub open spec fn merged(local: Hlc, remote: Hlc, wall_ms: u64) -> Hlc {
    merged_with(local, remote.physical_ms, remote.logical, wall_ms)
}

/// `SystemTime::elapsed` of the Unix epoch, in milliseconds, or nothing where the
/// system's clock stands before it. Nothing is known of the value.
#[verifier::external_body]
fn since_epoch_ms() -> Option<u128> {
    std::time::UNIX_EPOCH.elapsed().ok().map(|d| d.as_millis())
}

/// The milliseconds that a clock shows: those that have passed since the epoch,
/// by their low bits, or zero before it.
#[verifier::truncate]
pub fn shown_ms(elapsed: Option<u128>) -> (r: u64)
    ensures
        r == (match elapsed {
            Some(ms) => ms as u64,
            None => 0u64,
        }),
{
    match elapsed {
        Some(ms) => ms as u64,
        None => 0,
    }
}

/// Milliseconds since the Unix epoch by the wall clock, or zero before it.
pub(crate) fn wall_clock_ms() -> u64 {
    shown_ms(since_epoch_ms())
}

/// The milliseconds and the count that come right after others.
fn counted_on(physical_ms: u64, logical: u16) -> (r: (u64, u16))
    ensures
        r == after_count(physical_ms, logical),
{
    if logical < u16::MAX {
        (physical_ms, logical + 1)
    } else if physical_ms < u64::MAX {
        (physical_ms + 1, 0)
    } else {
        (physical_ms, logical)
    }
}

impl Hlc {
    /// A reading of the node `node_id` at the current wall-clock time, with
    /// the counter at zero.
    pub fn new(node_id: [u8; 6]) -> (r: Hlc)
        ensures
            exists|wall_ms: u64| r == #[trigger] first_reading(node_id, wall_ms),
    {
        let wall_ms: u64 = wall_clock_ms();
        Hlc::new_at(node_id, wall_ms)
    }

    /// A reading of the node `node_id` when the wall clock shows `wall_ms`, with
    /// the counter at zero.
    pub fn new_at(node_id: [u8; 6], wall_ms: u64) -> (r: Hlc)
        ensures
            r == (Hlc { physical_ms: wall_ms, logical: 0, node_id }),
            r == first_reading(node_id, wall_ms),
    {
        Hlc { physical_ms: wall_ms, logical: 0, node_id }
    }

    /// A reading that follows `self` and is no earlier than the wall clock.
    /// Taken before every local write.
    pub fn tick(&self) -> (r: Hlc)
        ensures
            exists|wall_ms: u64| r == #[trigger] ticked(*self, wall_ms),
            !is_last(*self) ==> hlc_lt(*self, r),
    {
        let wall_ms: u64 = wall_clock_ms();
        self.tick_at(wall_ms)
    }

    /// The reading that follows `self` when the wall clock shows `wall_ms`.
    pub fn tick_at(&self, wall_ms: u64) -> (r: Hlc)
        ensures
            r == ticked(*self, wall_ms),
            !is_last(*self) ==> hlc_lt(*self, r),
            r.physical_ms >= wall_ms,
    {
        proof {
            law_tick_follows(*self, wall_ms);
        }
        if wall_ms > self.physical_ms {
            Hlc { physical_ms: wall_ms, logical: 0, node_id: self.node_id }
        } else {
            let (physical_ms, logical) = counted_on(self.physical_ms, self.logical);
            Hlc { physical_ms, logical, node_id: self.node_id }
        }
    }

    /// A reading of this node that follows both `self` and `remote`. Taken
    /// when a record arrives from another device.
    pub fn merge(&self, remote: &Hlc) -> (r: Hlc)
        ensures
            exists|wall_ms: u64| r == #[trigger] merged(*self, *remote, wall_ms),
            !is_last(*self) ==> hlc_lt(*self, r),
            !is_last(*remote) ==> hlc_lt(*remote, r),
    {
        let wall_ms: u64 = wall_clock_ms();
        self.merge_at(remote, wall_ms)
    }

    /// The reading of this node that follows both `self` and `remote` when the
    /// wall clock shows `wall_ms`.
    pub fn merge_at(&self, remote: &Hlc, wall_ms: u64) -> (r: Hlc)
        ensures
            r == merged(*self, *remote, wall_ms),
            !is_last(*self) ==> hlc_lt(*self, r),
            !is_last(*remote) ==> hlc_lt(*remote, r),
            r.physical_ms >= wall_ms,
    {
        proof {
            law_merge_follows(*self, *remote, wall_ms);
        }
        let latest: u64 = if self.physical_ms > remote.physical_ms {
            self.physical_ms
        } else {
            remote.physical_ms
        };
        if wall_ms > latest {
            return Hlc { physical_ms: wall_ms, logical: 0, node_id: self.node_id };
        }
        let count: u16 = if self.physical_ms > remote.physical_ms || (self.physical_ms
            == remote.physical_ms && self.logical > remote.logical) {
            self.logical
        } else {
            remote.logical
        };
        let (physical_ms, logical) = counted_on(latest, count);
        Hlc { physical_ms, logical, node_id: self.node_id }
    }

    /// The wall-clock milliseconds of the reading.
    pub fn physical_ms(&self) -> (r: u64)
        ensures
            r == self.physical_ms,
    {
        self.physical_ms
    }

    /// The counter of the reading.
    pub fn logical(&self) -> (r: u16)
        ensures
            r == self.logical,
    {
        self.logical
    }

    /// The node that took the reading.
    pub fn node_id(&self) -> (r: &[u8; 6])
        ensures
            *r == self.node_id,
    {
        &self.node_id
    }

    /// Whether `self` was taken before `other`.
    pub fn before(&self, other: &Hlc) -> (r: bool)
        ensures
            r == hlc_lt(*self, *other),
    {
        if self.physical_ms != other.physical_ms {
            self.physical_ms < other.physical_ms
        } else if self.logical != other.logical {
            self.logical < other.logical
        } else {
            bytes_less(self.node_id.as_slice(), other.node_id.as_slice())
        }
    }
}

/// The later of two readings.
pub open spec fn later_of(a: Hlc, b: Hlc) -> Hlc {
    if hlc_lt(a, b) {
        b
    } else {
        a
    }
}

impl Hlc {
    /// The later of two readings.
    pub fn later(self, other: Hlc) -> (r: Hlc)
        ensures
            r == later_of(self, other),
    {
        if self.before(&other) {
            other
        } else {
            self
        }
    }
}

impl PartialEq for Hlc {
    fn eq(&self, other: &Self) -> (r: bool) {
        if self.physical_ms != other.physical_ms || self.logical != other.logical {
            return false;
        }
        let mut i: usize = 0;
        while i < 6
            invariant
                i <= 6,
                forall|j: int| 0 <= j < i ==> self.node_id@[j] == other.node_id@[j],
            decreases 6 - i,
        {
            if self.node_id[i] != other.node_id[i] {
                return false;
            }
            i = i + 1;
        }
        assert(self.node_id =~= other.node_id);
        true
    }
}

impl vstd::std_specs::cmp::PartialEqSpecImpl for Hlc {
    open spec fn obeys_eq_spec() -> bool {
        true
    }

    open spec fn eq_spec(&self, other: &Self) -> bool {
        *self == *other
    }
}

impl PartialOrd for Hlc {
    fn partial_cmp(&self, other: &Self) -> (r: Option<Ordering>) {
        if self.before(other) {
            Some(Ordering::Less)
        } else if other.before(self) {
            Some(Ordering::Greater)
        } else {
            Some(Ordering::Equal)
        }
    }
}

impl vstd::std_specs::cmp::PartialOrdSpecImpl for Hlc {
    open spec fn obeys_partial_cmp_spec() -> bool {
        true
    }

    open spec fn partial_cmp_spec(&self, other: &Self) -> Option<Ordering> {
        if hlc_lt(*self, *other) {
            Some(Ordering::Less)
        } else if hlc_lt(*other, *self) {
            Some(Ordering::Greater)
        } else {
            Some(Ordering::Equal)
        }
    }
}

// ── Text ────────────────────────────────────────────────────────────────────

/// The text of a reading.
pub open spec fn hlc_text(h: Hlc) -> Seq<char> {
    hex_padded(h.physical_ms as nat, 13) + seq!['-'] + hex_padded(h.logical as nat, 4) + seq!['-']
        + hex_bytes(h.node_id@)
}

/// The position of the first dash, or the length where there is none.
pub open spec fn first_dash(s: Seq<char>) -> int
    decreases s.len(),
{
    if s.len() == 0 || s[0] == '-' {
        0
    } else {
        1 + first_dash(s.drop_first())
    }
}

/// What a text reads as: milliseconds, counter and node bytes, separated by
/// the first two dashes. Anything else is no reading.
pub open spec fn hlc_parsed(s: Seq<char>) -> Option<(nat, nat, Seq<u8>)> {
    let i = first_dash(s);
    let rest = s.skip(i + 1);
    let j = first_dash(rest);
    if i >= s.len() || j >= rest.len() {
        None
    } else {
        match (
            parse_hex(s.take(i), u64::MAX as nat),
            parse_hex(rest.take(j), u16::MAX as nat),
            unhex_bytes(rest.skip(j + 1)),
        ) {
            (Some(physical), Some(logical), Some(node)) if node.len() == 6 => Some(
                (physical, logical, node),
            ),
            _ => None,
        }
    }
}

/// Bounds on the position of the first dash, and what stands there.
proof fn lemma_first_dash(s: Seq<char>)
    ensures
        0 <= first_dash(s) <= s.len(),
        first_dash(s) < s.len() ==> s[first_dash(s)] == '-',
        forall|k: int| 0 <= k < first_dash(s) ==> s[k] != '-',
    decreases s.len(),
{
    if s.len() > 0 && s[0] != '-' {
        let t = s.drop_first();
        lemma_first_dash(t);
        assert forall|k: int| 0 <= k < first_dash(s) implies s[k] != '-' by {
            if k > 0 {
                assert(s[k] == t[k - 1]);
            }
        }
    }
}

/// A position with a dash and none before it is the first.
proof fn lemma_first_dash_is(s: Seq<char>, i: int)
    requires
        0 <= i <= s.len(),
        i < s.len() ==> s[i] == '-',
        forall|k: int| 0 <= k < i ==> s[k] != '-',
    ensures
        first_dash(s) == i,
{
    lemma_first_dash(s);
    let f = first_dash(s);
    if f < i {
        assert(s[f] != '-');
    } else if i < f {
        assert(s[i] != '-');
    }
}

/// The position of the first dash at or after `from`, or the length.
fn find_dash(s: &Vec<char>, from: usize) -> (r: usize)
    requires
        from <= s@.len(),
    ensures
        from <= r <= s@.len(),
        r - from == first_dash(s@.skip(from as int)),
{
    let mut i: usize = from;
    while i < s.len() && s[i] != '-'
        invariant
            from <= i <= s@.len(),
            forall|k: int| from <= k < i ==> s@[k] != '-',
        decreases s@.len() - i,
    {
        i = i + 1;
    }
    proof {
        let t = s@.skip(from as int);
        assert forall|k: int| 0 <= k < i - from implies t[k] != '-' by {
            assert(t[k] == s@[k + from]);
        }
        lemma_first_dash_is(t, i - from);
    }
    i
}

impl Hlc {
    /// The text of the reading.
    pub fn to_text(&self) -> (r: String)
        ensures
            r@ == hlc_text(*self),
    {
        let mut out = hex_padded_text(self.physical_ms, 13);
        let logical = hex_padded_text(self.logical as u64, 4);
        let node = hex_encode(self.node_id.as_slice());
        out.append("-");
        out.append(logical.as_str());
        out.append("-");
        out.append(node.as_str());
        proof {
            reveal_strlit("-");
            assert("-"@ =~= seq!['-']);
        }
        out
    }

    /// Reads a reading back from its text.
    pub fn from_text(s: &str) -> (r: Result<Hlc, SquirrelError>)
        ensures
            match hlc_parsed(s@) {
                Some(parts) => r is Ok && parts == (
                    r->Ok_0.physical_ms as nat,
                    r->Ok_0.logical as nat,
                    r->Ok_0.node_id@,
                ),
                None => r is Err && r->Err_0@ == crate::error::ErrorView::InvalidHlc(s@),
            },
    {
        let chars = chars_of(s);
        let n: usize = chars.len();
        assert(chars@.skip(0) =~= s@);
        let i: usize = find_dash(&chars, 0);
        assert(i == first_dash(s@));
        if i >= n {
            return Err(SquirrelError::InvalidHlc(s.to_owned()));
        }
        let ghost rest = s@.skip(i + 1);
        let j: usize = find_dash(&chars, i + 1);
        assert(j - i - 1 == first_dash(rest));
        if j >= n {
            return Err(SquirrelError::InvalidHlc(s.to_owned()));
        }
        assert(s@.take(i as int) =~= chars@.subrange(0, i as int));
        assert(rest.take(j - i - 1) =~= chars@.subrange(i + 1, j as int));
        assert(rest.skip(j - i) =~= chars@.skip(j + 1));
        let physical = parse_hex_chars(&chars, 0, i, u64::MAX);
        let logical = parse_hex_chars(&chars, i + 1, j, 0xffff);
        let node = hex_decode_chars(&chars, j + 1);
        let (physical_ms, count, bytes) = match (physical, logical, node) {
            (Some(p), Some(c), Ok(b)) => (p, c, b),
            _ => {
                assert(hlc_parsed(s@) is None);
                return Err(SquirrelError::InvalidHlc(s.to_owned()));
            },
        };
        if bytes.len() != 6 {
            assert(hlc_parsed(s@) is None);
            return Err(SquirrelError::InvalidHlc(s.to_owned()));
        }
        let node_id: [u8; 6] = [bytes[0], bytes[1], bytes[2], bytes[3], bytes[4], bytes[5]];
        assert(node_id@ =~= bytes@);
        assert(hlc_parsed(s@) == Some((physical_ms as nat, count as nat, bytes@)));
        Ok(Hlc { physical_ms, logical: count as u16, node_id })
    }
}

impl FromStr for Hlc {
    type Err = SquirrelError;

    /// Reads a reading back from its text, as `Hlc::from_text` does.
    fn from_str(s: &str) -> (r: Result<Hlc, SquirrelError>)
        ensures
            match hlc_parsed(s@) {
                Some(parts) => r is Ok && parts == (
                    r->Ok_0.physical_ms as nat,
                    r->Ok_0.logical as nat,
                    r->Ok_0.node_id@,
                ),
                None => r is Err && r->Err_0@ == crate::error::ErrorView::InvalidHlc(s@),
            },
    {
        Hlc::from_text(s)
    }
}

/// The clock once the text of a remote reading has been seen. A text that is
/// no reading leaves it as it is.
pub open spec fn observed(clock: Hlc, text: Seq<char>, wall_ms: u64) -> Hlc {
    match hlc_parsed(text) {
        Some((physical, logical, _)) => merged_with(
            clock,
            physical as u64,
            logical as u16,
            wall_ms,
        ),
        None => clock,
    }
}

impl Hlc {
    /// The clock once the text of a remote reading has been seen, so that
    /// later local readings follow it.
    pub fn observe(&self, text: &str, wall_ms: u64) -> (r: Hlc)
        ensures
            r == observed(*self, text@, wall_ms),
    {
        match Hlc::from_text(text) {
            Ok(remote) => self.merge_at(&remote, wall_ms),
            Err(_) => *self,
        }
    }
}

// ── Laws of the clock ───────────────────────────────────────────────────────

/// A tick is later than the reading it follows, also while the wall clock stands
/// still or is behind and the counter is used up; only the very last reading
/// has nothing after it. A tick is never before the wall clock, and never leaves
/// the node.
pub proof fn law_tick_follows(h: Hlc, wall_ms: u64)
    ensures
        hlc_lt(h, ticked(h, wall_ms)) <==> !is_last(h),
        is_last(h) ==> ticked(h, wall_ms) == h,
        ticked(h, wall_ms).physical_ms >= wall_ms,
        ticked(h, wall_ms).node_id == h.node_id,
{
    lemma_bytes_lt_irreflexive(h.node_id@);
}

/// A merged reading is later than both readings it follows, unless one of them
/// is the very last that the clock can show: then the node decides. It is never
/// before the wall clock, and belongs to the local node.
pub proof fn law_merge_follows(local: Hlc, remote: Hlc, wall_ms: u64)
    ensures
        hlc_lt(local, merged(local, remote, wall_ms)) <==> !is_last(local),
        hlc_lt(remote, merged(local, remote, wall_ms)) <==> !(is_last(remote) && !bytes_lt(
            remote.node_id@,
            local.node_id@,
        )),
        merged(local, remote, wall_ms).physical_ms >= wall_ms,
        merged(local, remote, wall_ms).node_id == local.node_id,
{
    lemma_bytes_lt_irreflexive(local.node_id@);
}

/// The later of two readings is one of them, is before neither, and is the same
/// whichever of them is named first.
pub proof fn law_later_is_before_neither(a: Hlc, b: Hlc)
    ensures
        later_of(a, b) == a || later_of(a, b) == b,
        !hlc_lt(later_of(a, b), a),
        !hlc_lt(later_of(a, b), b),
        later_of(a, b) == later_of(b, a),
{
    law_hlc_order(a, b, a);
    law_hlc_order(b, a, b);
}

/// A tick is the next reading: no reading of the node that is later than `h` and
/// not before the wall clock comes before it.
pub proof fn law_tick_is_the_next(h: Hlc, wall_ms: u64, other: Hlc)
    requires
        other.node_id == h.node_id,
        hlc_lt(h, other),
        other.physical_ms >= wall_ms,
    ensures
        !hlc_lt(other, ticked(h, wall_ms)),
{
    lemma_bytes_lt_irreflexive(h.node_id@);
}

/// A merged reading is the next one: no reading of the node that counts on from
/// both readings and is not before the wall clock comes before it.
pub proof fn law_merge_is_the_next(local: Hlc, remote: Hlc, wall_ms: u64, other: Hlc)
    requires
        other.node_id == local.node_id,
        hlc_lt(local, other),
        hlc_lt(Hlc { node_id: local.node_id, ..remote }, other),
        other.physical_ms >= wall_ms,
    ensures
        !hlc_lt(other, merged(local, remote, wall_ms)),
{
    lemma_bytes_lt_irreflexive(local.node_id@);
}

/// A text that is no reading leaves the clock as it is, and one that is a
/// reading counts by its milliseconds and its counter alone.
pub proof fn law_unreadable_text_moves_nothing(clock: Hlc, text: Seq<char>, remote: Hlc, ms: u64)
    ensures
        hlc_parsed(text) is None ==> observed(clock, text, ms) == clock,
        hlc_parsed(text) matches Some(p) ==> (p.0 == remote.physical_ms && p.1 == remote.logical
            ==> observed(clock, text, ms) == merged(clock, remote, ms)),
{
}

/// A local reading taken after a remote one was seen is later than it, and than
/// the clock before, wherever the wall clock stands, unless one of them is the
/// very last that the clock can show.
pub proof fn law_observed_is_followed(clock: Hlc, remote: Hlc, seen_ms: u64, tick_ms: u64)
    ensures
        ({
            let seen = observed(clock, hlc_text(remote), seen_ms);
            let next = ticked(seen, tick_ms);
            &&& seen == merged(clock, remote, seen_ms)
            &&& !is_last(remote) ==> hlc_lt(remote, next)
            &&& !is_last(clock) ==> hlc_lt(clock, next)
            &&& next.node_id == clock.node_id
        }),
{
    law_text_round_trip(remote);
    let seen = observed(clock, hlc_text(remote), seen_ms);
    let next = ticked(seen, tick_ms);
    law_merge_follows(clock, remote, seen_ms);
    law_tick_follows(seen, tick_ms);
    law_hlc_order(remote, seen, next);
    law_hlc_order(clock, seen, next);
}

/// Readings are strictly and totally ordered.
pub proof fn law_hlc_order(a: Hlc, b: Hlc, c: Hlc)
    ensures
        !hlc_lt(a, a),
        a == b || hlc_lt(a, b) || hlc_lt(b, a),
        hlc_lt(a, b) ==> !hlc_lt(b, a),
        hlc_lt(a, b) && hlc_lt(b, c) ==> hlc_lt(a, c),
{
    lemma_bytes_lt_irreflexive(a.node_id@);
    lemma_bytes_lt_total(a.node_id@, b.node_id@);
    if a.node_id@ == b.node_id@ {
        assert(a.node_id =~= b.node_id);
    }
    if bytes_lt(a.node_id@, b.node_id@) && bytes_lt(b.node_id@, a.node_id@) {
        lemma_bytes_lt_transitive(a.node_id@, b.node_id@, a.node_id@);
    }
    if bytes_lt(a.node_id@, b.node_id@) && bytes_lt(b.node_id@, c.node_id@) {
        lemma_bytes_lt_transitive(a.node_id@, b.node_id@, c.node_id@);
    }
}

/// A text is a reading exactly where two dashes part it into milliseconds, a
/// counter and the bytes of a node, of which there are six.
pub proof fn law_reading_has_three_fields(a: Seq<char>, b: Seq<char>, c: Seq<char>)
    requires
        !a.contains('-'),
        !b.contains('-'),
    ensures
        hlc_parsed(a) is None,
        hlc_parsed(a + seq!['-'] + b) is None,
        ({
            let text = a + seq!['-'] + b + seq!['-'] + c;
            let physical = parse_hex(a, 0xffff_ffff_ffff_ffff);
            let logical = parse_hex(b, 0xffff);
            let node = unhex_bytes(c);
            &&& hlc_parsed(text) is Some <==> physical is Some && logical is Some && node is Some
                && node->0.len() == 6
            &&& hlc_parsed(text) is Some ==> hlc_parsed(text)->0 == (
                physical->0,
                logical->0,
                node->0,
            )
        }),
{
    lemma_dash_after(a, Seq::empty());
    let short = a + seq!['-'] + b;
    lemma_dash_after(a, seq!['-'] + b);
    assert(a + (seq!['-'] + b) =~= short);
    assert(short.skip(a.len() as int + 1) =~= b);
    lemma_dash_after(b, Seq::empty());
    assert(a + Seq::<char>::empty() =~= a);
    assert(b + Seq::<char>::empty() =~= b);
    let text = a + seq!['-'] + b + seq!['-'] + c;
    let rest = b + seq!['-'] + c;
    lemma_dash_after(a, seq!['-'] + rest);
    assert(a + (seq!['-'] + rest) =~= text);
    assert(text.skip(a.len() as int + 1) =~= rest);
    lemma_dash_after(b, seq!['-'] + c);
    assert(b + (seq!['-'] + c) =~= rest);
    assert(text.take(a.len() as int) =~= a);
    assert(rest.take(b.len() as int) =~= b);
    assert(rest.skip(b.len() as int + 1) =~= c);
}

/// The first dash of a text that begins without one.
proof fn lemma_dash_after(a: Seq<char>, rest: Seq<char>)
    requires
        !a.contains('-'),
        rest.len() == 0 || rest[0] == '-',
    ensures
        first_dash(a + rest) == a.len(),
{
    let text = a + rest;
    assert forall|k: int| 0 <= k < a.len() implies text[k] != '-' by {
        assert(a.contains(a[k]));
    }
    lemma_first_dash_is(text, a.len() as int);
}

/// The text of a reading reads back as that reading.
pub proof fn law_text_round_trip(h: Hlc)
    ensures
        hlc_parsed(hlc_text(h)) == Some((h.physical_ms as nat, h.logical as nat, h.node_id@)),
{
    let p = hex_padded(h.physical_ms as nat, 13);
    let l = hex_padded(h.logical as nat, 4);
    let nd = hex_bytes(h.node_id@);
    let s = hlc_text(h);
    lemma_hex_padded(h.physical_ms as nat, 13);
    lemma_hex_padded(h.logical as nat, 4);
    lemma_hex_round_trip(h.node_id@);
    let i = p.len() as int;
    assert(s[i] == '-');
    assert forall|k: int| 0 <= k < i implies s[k] != '-' by {
        assert(s[k] == p[k]);
    }
    lemma_first_dash_is(s, i);
    let rest = s.skip(i + 1);
    assert(rest =~= l + seq!['-'] + nd);
    let j = l.len() as int;
    assert(rest[j] == '-');
    assert forall|k: int| 0 <= k < j implies rest[k] != '-' by {
        assert(rest[k] == l[k]);
    }
    lemma_first_dash_is(rest, j);
    assert(s.take(i) =~= p);
    assert(rest.take(j) =~= l);
    assert(rest.skip(j + 1) =~= nd);
    assert(p[0] != '+');
    assert(l[0] != '+');
}

/// The bytes of a text in the ASCII range.
spec fn ascii_bytes(s: Seq<char>) -> Seq<u8> {
    Seq::new(s.len(), |i: int| s[i] as u8)
}

proof fn lemma_ascii_bytes(s: Seq<char>)
    requires
        is_ascii_chars(s),
    ensures
        encode_utf8(s) == ascii_bytes(s),
{
    is_ascii_chars_encode_utf8(s);
    assert(encode_utf8(s) =~= ascii_bytes(s));
}

/// Numerals of the same width sort as their numbers.
proof fn lemma_hex_order(a: nat, b: nat, width: nat)
    requires
        a < pow(16, width),
        b < pow(16, width),
    ensures
        bytes_lt(ascii_bytes(hex_padded(a, width)), ascii_bytes(hex_padded(b, width))) <==> a < b,
        ascii_bytes(hex_padded(a, width)) == ascii_bytes(hex_padded(b, width)) <==> a == b,
        hex_padded(a, width).len() == width,
        hex_padded(b, width).len() == width,
    decreases width,
{
    reveal(pow);
    lemma_hex_padded(a, width);
    lemma_hex_padded(b, width);
    if width > 0 {
        let w = (width - 1) as nat;
        assert(pow(16, width) == 16 * pow(16, w));
        lemma_hex_order(a / 16, b / 16, w);
        let fa = ascii_bytes(hex_padded(a / 16, w));
        let fb = ascii_bytes(hex_padded(b / 16, w));
        let la = seq![digit_byte(a % 16)];
        let lb = seq![digit_byte(b % 16)];
        assert(ascii_bytes(hex_padded(a, width)) =~= fa + la);
        assert(ascii_bytes(hex_padded(b, width)) =~= fb + lb);
        lemma_bytes_lt_concat(fa, la, fb, lb);
        assert(bytes_lt(la, lb) <==> la[0] < lb[0]) by {
            reveal_with_fuel(bytes_lt, 2);
        }
        if fa + la == fb + lb {
            assert(fa =~= (fa + la).take(fa.len() as int));
            assert(fb =~= (fb + lb).take(fb.len() as int));
            assert(la[0] == (fa + la)[fa.len() as int]);
            assert(lb[0] == (fb + lb)[fb.len() as int]);
        }
    }
}

spec fn digit_byte(d: nat) -> u8 {
    crate::text::digit_char(d) as u8
}

/// Hexadecimal text of byte sequences of the same length sorts as the bytes.
proof fn lemma_hex_bytes_order(a: Seq<u8>, b: Seq<u8>)
    requires
        a.len() == b.len(),
    ensures
        bytes_lt(ascii_bytes(hex_bytes(a)), ascii_bytes(hex_bytes(b))) <==> bytes_lt(a, b),
        ascii_bytes(hex_bytes(a)) == ascii_bytes(hex_bytes(b)) <==> a == b,
        hex_bytes(a).len() == 2 * a.len(),
        is_ascii_chars(hex_bytes(a)),
    decreases a.len(),
{
    lemma_hex_round_trip(a);
    lemma_hex_round_trip(b);
    if a.len() == 0 {
        assert(a =~= b);
    } else {
        assert(pow(16, 2) == 256) by {
            reveal(pow);
            assert(pow(16, 0) == 1);
            assert(pow(16, 1) == 16);
        }
        let (fa, fb) = (a.drop_last(), b.drop_last());
        lemma_hex_bytes_order(fa, fb);
        lemma_hex_order(a.last() as nat, b.last() as nat, 2);
        lemma_hex_padded(a.last() as nat, 2);
        let (ha, hb) = (ascii_bytes(hex_bytes(fa)), ascii_bytes(hex_bytes(fb)));
        let (ta, tb) = (
            ascii_bytes(hex_padded(a.last() as nat, 2)),
            ascii_bytes(hex_padded(b.last() as nat, 2)),
        );
        lemma_hex_round_trip(fa);
        lemma_hex_round_trip(fb);
        assert(ascii_bytes(hex_bytes(a)) =~= ha + ta);
        assert(ascii_bytes(hex_bytes(b)) =~= hb + tb);
        lemma_bytes_lt_concat(ha, ta, hb, tb);
        assert(a =~= fa + seq![a.last()]);
        assert(b =~= fb + seq![b.last()]);
        lemma_bytes_lt_concat(fa, seq![a.last()], fb, seq![b.last()]);
        assert(bytes_lt(seq![a.last()], seq![b.last()]) <==> a.last() < b.last()) by {
            reveal_with_fuel(bytes_lt, 2);
        }
        if ha + ta == hb + tb {
            assert(ha =~= (ha + ta).take(ha.len() as int));
            assert(hb =~= (hb + tb).take(hb.len() as int));
            assert(ta =~= (ha + ta).skip(ha.len() as int));
            assert(tb =~= (hb + tb).skip(hb.len() as int));
        }
    }
}

/// A padded numeral is the numeral padded to its own length, and its number fits
/// into that.
proof fn lemma_hex_width(n: nat, width: nat)
    ensures
        hex_padded(n, width) == hex_padded(n, hex_padded(n, width).len()),
        n < pow(16, hex_padded(n, width).len()),
    decreases n + width,
{
    reveal(pow);
    if n != 0 || width != 0 {
        let w = if width > 0 { (width - 1) as nat } else { 0 };
        let inner = hex_padded(n / 16, w).len();
        lemma_hex_width(n / 16, w);
        assert(hex_padded(n, width).len() == inner + 1);
        assert(pow(16, inner + 1) == 16 * pow(16, inner));
    }
}

/// Readings sort as text exactly as they sort as clocks, as long as their
/// milliseconds are written with the same number of digits.
pub proof fn law_text_order(a: Hlc, b: Hlc)
    requires
        hex_padded(a.physical_ms as nat, 13).len() == hex_padded(b.physical_ms as nat, 13).len(),
    ensures
        text_lt(hlc_text(a), hlc_text(b)) <==> hlc_lt(a, b),
        hlc_text(a) == hlc_text(b) <==> a == b,
{
    assert(pow(16, 4) == 0x10000) by {
        reveal(pow);
        reveal_with_fuel(pow, 5);
    }
    let dash = seq!['-' as u8];
    let (pa, pb) = (hex_padded(a.physical_ms as nat, 13), hex_padded(b.physical_ms as nat, 13));
    let (la, lb) = (hex_padded(a.logical as nat, 4), hex_padded(b.logical as nat, 4));
    let (na, nb) = (hex_bytes(a.node_id@), hex_bytes(b.node_id@));
    lemma_hex_padded(a.physical_ms as nat, 13);
    lemma_hex_padded(b.physical_ms as nat, 13);
    lemma_hex_width(a.physical_ms as nat, 13);
    lemma_hex_width(b.physical_ms as nat, 13);
    lemma_hex_padded(a.logical as nat, 4);
    lemma_hex_padded(b.logical as nat, 4);
    lemma_hex_order(a.physical_ms as nat, b.physical_ms as nat, pa.len());
    lemma_hex_order(a.logical as nat, b.logical as nat, 4);
    lemma_hex_bytes_order(a.node_id@, b.node_id@);
    lemma_hex_bytes_order(b.node_id@, a.node_id@);
    lemma_ascii_bytes(hlc_text(a));
    lemma_ascii_bytes(hlc_text(b));
    let (xa, xb) = (ascii_bytes(pa), ascii_bytes(pb));
    let (ya, yb) = (ascii_bytes(la), ascii_bytes(lb));
    let (za, zb) = (ascii_bytes(na), ascii_bytes(nb));
    assert(ascii_bytes(hlc_text(a)) =~= xa + (dash + (ya + (dash + za))));
    assert(ascii_bytes(hlc_text(b)) =~= xb + (dash + (yb + (dash + zb))));
    lemma_bytes_lt_irreflexive(dash);
    lemma_bytes_lt_concat(xa, dash + (ya + (dash + za)), xb, dash + (yb + (dash + zb)));
    lemma_bytes_lt_concat(dash, ya + (dash + za), dash, yb + (dash + zb));
    lemma_bytes_lt_concat(ya, dash + za, yb, dash + zb);
    lemma_bytes_lt_concat(dash, za, dash, zb);
    law_text_round_trip(a);
    law_text_round_trip(b);
    if hlc_text(a) == hlc_text(b) {
        assert(a.node_id =~= b.node_id);
    }
}

/// Readings of the next hundred thousand years sort as text exactly as they
/// sort as clocks: their milliseconds fit into the thirteen digits they are
/// padded to.
pub proof fn law_text_order_of_our_times(a: Hlc, b: Hlc)
    requires
        a.physical_ms < 0x10_0000_0000_0000,
        b.physical_ms < 0x10_0000_0000_0000,
    ensures
        text_lt(hlc_text(a), hlc_text(b)) <==> hlc_lt(a, b),
        hlc_text(a) == hlc_text(b) <==> a == b,
        hlc_text(a).len() == 31,
{
    assert(pow(16, 13) == 0x10_0000_0000_0000 && pow(16, 4) == 0x10000) by {
        reveal(pow);
        reveal_with_fuel(pow, 14);
    }
    lemma_hex_padded(a.physical_ms as nat, 13);
    lemma_hex_padded(b.physical_ms as nat, 13);
    lemma_hex_padded(a.logical as nat, 4);
    lemma_hex_round_trip(a.node_id@);
    law_text_order(a, b);
}

} // verus!
