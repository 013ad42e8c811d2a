//! Record ids: 128 bits that sort by the time of their making, written as 26
//! characters of Crockford's base 32. Making and writing them is left to the
//! `ulid` crate.

use vstd::prelude::*;
use vstd::string::*;

verus! {

/// A record id.
#[derive(Debug, Clone, Copy, PartialEq, Eq, PartialOrd, Ord, Hash, Structural)]
pub struct Ulid(pub u128);

/// The digit of value `d`, for `d` below 32. The letters I, L, O and U are
/// left out.
pub open spec fn base32_digit(d: nat) -> char {
    if d < 10 {
        ((48 + d) as u8) as char
    } else if d < 18 {
        ((55 + d) as u8) as char
    } else if d < 20 {
        ((56 + d) as u8) as char
    } else if d < 22 {
        ((57 + d) as u8) as char
    } else if d < 27 {
        ((58 + d) as u8) as char
    } else {
        ((59 + d) as u8) as char
    }
}

/// The value of a digit of either case.
pub open spec fn base32_value(c: char) -> Option<nat> {
    let n = c as int;
    let upper = if 'a' <= c <= 'z' {
        n - 32
    } else {
        n
    };
    if 48 <= upper <= 57 {
        Some((upper - 48) as nat)
    } else if 65 <= upper <= 72 {
        Some((upper - 55) as nat)
    } else if 74 <= upper <= 75 {
        Some((upper - 56) as nat)
    } else if 77 <= upper <= 78 {
        Some((upper - 57) as nat)
    } else if 80 <= upper <= 84 {
        Some((upper - 58) as nat)
    } else if 86 <= upper <= 90 {
        Some((upper - 59) as nat)
    } else {
        None
    }
}

/// The last `width` digits of a number.
pub open spec fn base32_text(n: nat, width: nat) -> Seq<char>
    decreases width,
{
    if width == 0 {
        Seq::empty()
    } else {
        base32_text(n / 32, (width - 1) as nat).push(base32_digit(n % 32))
    }
}

/// The number that digits stand for, as far as 128 bits hold it.
pub open spec fn base32_number(s: Seq<char>) -> nat
    decreases s.len(),
{
    if s.len() == 0 {
        0
    } else {
        (base32_number(s.drop_last()) * 32 + base32_value(s.last()).unwrap_or(0))
            % ((u128::MAX + 1) as nat)
    }
}

/// The text of an id.
pub open spec fn ulid_text(id: Ulid) -> Seq<char> {
    base32_text(id.0 as nat, 26)
}

/// The id that a text stands for, if it has 26 digits.
pub open spec fn ulid_of(s: Seq<char>) -> Option<Ulid> {
    if s.len() == 26 && forall|i: int| 0 <= i < 26 ==> base32_value(#[trigger] s[i]) is Some {
        Some(Ulid(base32_number(s) as u128))
    } else {
        None
    }
}

/// `ulid::Ulid::to_string`: 26 upper-case digits of Crockford's base 32.
#[verifier::external_body]
fn encode_ulid(value: u128) -> (r: String)
    ensures
        r@ == base32_text(value as nat, 26),
{
    ulid::Ulid(value).to_string()
}

/// `ulid::Ulid::from_string`: reads 26 digits of either case and fails on
/// anything else. What does not fit into 128 bits is dropped at the front.
#[verifier::external_body]
fn decode_ulid(s: &str) -> (r: Option<u128>)
    ensures
        match ulid_of(s@) {
            Some(id) => r == Some(id.0),
            None => r is None,
        },
{
    ulid::Ulid::from_string(s).ok().map(|u| u.0)
}

/// `ulid::Ulid::new`: the time and random bits. Nothing is known of the value.
#[verifier::external_body]
fn fresh_ulid() -> u128 {
    ulid::Ulid::new().0
}

impl Ulid {
    /// A new id. Its text reads back as it.
    pub fn new() -> (r: Ulid)
        ensures
            ulid_of(ulid_text(r)) == Some(r),
    {
        let id = Ulid(fresh_ulid());
        proof {
            law_id_round_trip(id);
        }
        id
    }

    /// The text of the id.
    pub fn to_text(&self) -> (r: String)
        ensures
            r@ == ulid_text(*self),
    {
        encode_ulid(self.0)
    }

    /// Reads an id back from its text.
    pub fn from_text(s: &str) -> (r: Option<Ulid>)
        ensures
            r == ulid_of(s@),
    {
        match decode_ulid(s) {
            Some(value) => Some(Ulid(value)),
            None => None,
        }
    }
}

proof fn lemma_base32(n: nat, width: nat)
    requires
        n < vstd::arithmetic::power::pow(32, width),
        n <= u128::MAX,
    ensures
        base32_text(n, width).len() == width,
        base32_number(base32_text(n, width)) == n,
        forall|i: int|
            0 <= i < width ==> base32_value(#[trigger] base32_text(n, width)[i]) is Some,
    decreases width,
{
    reveal(vstd::arithmetic::power::pow);
    if width > 0 {
        let w = (width - 1) as nat;
        assert(vstd::arithmetic::power::pow(32, width) == 32 * vstd::arithmetic::power::pow(32, w));
        lemma_base32(n / 32, w);
        let s = base32_text(n, width);
        assert(s.drop_last() =~= base32_text(n / 32, w));
        assert(base32_value(base32_digit(n % 32)) == Some(n % 32));
        assert(s.last() == base32_digit(n % 32));
        assert(n / 32 * 32 + n % 32 == n);
        vstd::arithmetic::div_mod::lemma_small_mod(n, (u128::MAX + 1) as nat);
        assert forall|i: int| 0 <= i < width implies base32_value(#[trigger] s[i]) is Some by {
            if i < w {
                assert(s[i] == base32_text(n / 32, w)[i]);
            }
        }
    }
}

/// The text of an id reads back as that id.
pub proof fn law_id_round_trip(id: Ulid)
    ensures
        ulid_of(ulid_text(id)) == Some(id),
        ulid_text(id).len() == 26,
{
    assert(vstd::arithmetic::power::pow(32, 26) == 4 * (u128::MAX + 1)) by {
        reveal_with_fuel(vstd::arithmetic::power::pow, 27);
        reveal(vstd::arithmetic::power::pow);
    }
    lemma_base32(id.0 as nat, 26);
}

} // verus!
