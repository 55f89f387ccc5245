//! Process-unique, time-ordered identifiers.
//!
//! An id is a 128-bit value in the UUID version 7 layout, assembled from one
//! clock reading and a process-wide counter. The high half carries the unix
//! millisecond in its upper 48 bits, the version nibble, and the counter's top
//! 12 bits; the low half carries the variant bits and the whole 62-bit
//! counter.

use vstd::prelude::*;

verus! {

/// The bits of the counter that an id carries.
pub const COUNTER_MASK: u64 = 0x3FFF_FFFF_FFFF_FFFF;

/// The first millisecond that no longer fits an id.
pub const MILLIS_LIMIT: u64 = 0x1_0000_0000_0000;

/// The high half of the id minted at `millis` from `counter`.
pub open spec fn id_high(millis: u64, counter: u64) -> u64 {
    (millis << 16) | 0x7000 | ((counter >> 50) & 0xFFF)
}

/// The low half of the id minted from `counter`.
pub open spec fn id_low(counter: u64) -> u64 {
    0x8000_0000_0000_0000 | (counter & 0x3FFF_FFFF_FFFF_FFFF)
}

/// Whether two halves carry the version nibble `7` and the RFC variant bits.
pub open spec fn version_seven(high: u64, low: u64) -> bool {
    high & 0xF000 == 0x7000 && low >> 62 == 2
}

/// The hexadecimal digit at place `k` of an id, most significant first.
pub open spec fn id_digit(high: u64, low: u64, k: int) -> u64 {
    if k < 16 {
        (high >> ((60 - 4 * k) as u64)) & 0xF
    } else {
        (low >> ((60 - 4 * (k - 16)) as u64)) & 0xF
    }
}

/// The lower-case character of a hexadecimal digit.
pub open spec fn hex_char(d: u64) -> char {
    "0123456789abcdef"@[d as int]
}

/// An id as text: 32 hexadecimal digits in groups of 8, 4, 4, 4 and 12.
pub open spec fn id_chars(high: u64, low: u64) -> Seq<char> {
    Seq::new(
        36,
        |i: int|
            if i == 8 || i == 13 || i == 18 || i == 23 {
                '-'
            } else {
                let hyphens: int = if i < 8 {
                    0
                } else if i < 13 {
                    1
                } else if i < 18 {
                    2
                } else if i < 23 {
                    3
                } else {
                    4
                };
                hex_char(id_digit(high, low, i - hyphens))
            },
    )
}

/// Renders `uuid::Uuid::from_u64_pair` as text: lower-case hexadecimal, most
/// significant digit first, hyphenated.
#[verifier::external_body]
fn render_uuid(high: u64, low: u64) -> (text: String)
    ensures
        text@ == id_chars(high, low),
{
    uuid::Uuid::from_u64_pair(high, low).to_string()
}

/// Reads `uuid::Uuid::get_timestamp` of a version 7 id as unix time: the
/// seconds and the nanoseconds of the millisecond in the upper 48 bits.
#[verifier::external_body]
fn uuid_unix_time(high: u64, low: u64) -> (time: Option<(u64, u32)>)
    requires
        high & 0xF000 == 0x7000,
    ensures
        time == Some(((high >> 16) / 1000, ((high >> 16) % 1000 * 1_000_000) as u32)),
{
    uuid::Uuid::from_u64_pair(high, low).get_timestamp().map(|time| time.to_unix())
}

/// The state every id is minted from: the highest millisecond seen and the
/// next counter value.
#[derive(Debug)]
pub struct IdMint {
    last_millis: u64,
    counter: u64,
}

impl IdMint {
    /// The highest millisecond an id was minted at.
    pub closed spec fn last_millis(&self) -> u64 {
        self.last_millis
    }

    /// The counter the next id is minted from.
    pub closed spec fn counter(&self) -> u64 {
        self.counter
    }

    /// A mint that has minted nothing.
    pub fn new() -> (mint: Self)
        ensures
            mint.last_millis() == 0,
            mint.counter() == 1,
    {
        IdMint { last_millis: 0, counter: 1 }
    }

    /// Mints the next id at a clock reading. A clock that steps back does not:
    /// the highest reading so far stands in for it.
    pub fn mint(&mut self, now_millis: u64) -> (bits: (u64, u64))
        ensures
            minted(*old(self), now_millis, *final(self), bits),
            version_seven(bits.0, bits.1),
    {
        if now_millis > self.last_millis {
            self.last_millis = now_millis;
        }
        let millis: u64 = self.last_millis;
        let counter: u64 = self.counter & COUNTER_MASK;
        self.counter = self.counter.wrapping_add(1);
        let high: u64 = (millis << 16) | 0x7000 | ((counter >> 50) & 0xFFF);
        let low: u64 = 0x8000_0000_0000_0000 | (counter & 0x3FFF_FFFF_FFFF_FFFF);
        proof {
            let drawn = old(self).counter;
            assert(drawn & 0x3FFF_FFFF_FFFF_FFFF <= 0x3FFF_FFFF_FFFF_FFFF) by (bit_vector);
            law_id_layout(millis, counter);
        }
        (high, low)
    }
}

/// Whether `after` is the mint once it has minted `bits` at a clock reading:
/// the millisecond is the highest reading so far, the counter has moved one on,
/// and the id carries both.
pub open spec fn minted(before: IdMint, now_millis: u64, after: IdMint, bits: (u64, u64)) -> bool {
    &&& after.last_millis() == if now_millis > before.last_millis() {
        now_millis
    } else {
        before.last_millis()
    }
    &&& after.counter() == if before.counter() == u64::MAX {
        0
    } else {
        (before.counter() + 1) as u64
    }
    &&& bits == (
        id_high(after.last_millis(), before.counter() & COUNTER_MASK),
        id_low(before.counter() & COUNTER_MASK),
    )
}

/// An id, as the two halves of its 128 bits.
#[derive(Debug, Clone, Copy, PartialEq, Eq, Hash, Structural)]
pub struct IdBits {
    high: u64,
    low: u64,
}

impl View for IdBits {
    type V = (u64, u64);

    closed spec fn view(&self) -> (u64, u64) {
        (self.high, self.low)
    }
}

impl IdBits {
    #[verifier::type_invariant]
    spec fn inv(self) -> bool {
        version_seven(self.high, self.low)
    }

    /// Mints a fresh id.
    pub fn mint(mint: &mut IdMint, now_millis: u64) -> (id: Self)
        ensures
            minted(*old(mint), now_millis, *final(mint), id@),
    {
        let (high, low) = mint.mint(now_millis);
        IdBits { high, low }
    }

    /// The id with these halves; `None` unless they are in the version 7
    /// layout.
    pub fn from_pair(high: u64, low: u64) -> (id: Option<Self>)
        ensures
            match id {
                Some(id) => version_seven(high, low) && id@ == (high, low),
                None => !version_seven(high, low),
            },
    {
        if high & 0xF000 == 0x7000 && low >> 62 == 2 {
            Some(IdBits { high, low })
        } else {
            None
        }
    }

    /// Whether two ids are the same id.
    pub fn same(self, other: IdBits) -> (r: bool)
        ensures
            r == (self@ == other@),
    {
        self.high == other.high && self.low == other.low
    }

    /// The two halves.
    pub fn as_pair(self) -> (pair: (u64, u64))
        ensures
            pair == self@,
            version_seven(pair.0, pair.1),
    {
        proof {
            use_type_invariant(self);
        }
        (self.high, self.low)
    }

    /// The id as text.
    pub fn to_string(&self) -> (text: String)
        ensures
            text@ == id_chars(self@.0, self@.1),
    {
        render_uuid(self.high, self.low)
    }

    /// The millisecond the id was minted at.
    pub fn millis(self) -> (millis: u64)
        ensures
            millis == self@.0 >> 16,
    {
        proof {
            use_type_invariant(self);
        }
        match uuid_unix_time(self.high, self.low) {
            Some((seconds, nanos)) => {
                proof {
                    let high = self.high;
                    assert((high >> 16) <= 0xFFFF_FFFF_FFFF) by (bit_vector);
                }
                seconds * 1000 + (nanos as u64) / 1_000_000
            },
            None => 0,
        }
    }
}

/// Every id is a version 7 id of the RFC variant, its counter reads back whole,
/// and so does its millisecond while it fits 48 bits.
pub proof fn law_id_layout(millis: u64, counter: u64)
    requires
        counter <= COUNTER_MASK,
    ensures
        version_seven(id_high(millis, counter), id_low(counter)),
        id_low(counter) & COUNTER_MASK == counter,
        id_high(millis, counter) & 0xFFF == counter >> 50,
        millis < MILLIS_LIMIT ==> id_high(millis, counter) >> 16 == millis,
{
    let high = id_high(millis, counter);
    let low = id_low(counter);
    assert(high & 0xF000 == 0x7000) by (bit_vector)
        requires
            high == (millis << 16) | 0x7000 | ((counter >> 50) & 0xFFF),
    ;
    assert(low >> 62 == 2) by (bit_vector)
        requires
            low == 0x8000_0000_0000_0000 | (counter & 0x3FFF_FFFF_FFFF_FFFF),
    ;
    assert(low & 0x3FFF_FFFF_FFFF_FFFF == counter) by (bit_vector)
        requires
            low == 0x8000_0000_0000_0000 | (counter & 0x3FFF_FFFF_FFFF_FFFF),
            counter <= 0x3FFF_FFFF_FFFF_FFFF,
    ;
    assert(high & 0xFFF == counter >> 50) by (bit_vector)
        requires
            high == (millis << 16) | 0x7000 | ((counter >> 50) & 0xFFF),
            counter <= 0x3FFF_FFFF_FFFF_FFFF,
    ;
    if millis < MILLIS_LIMIT {
        assert(high >> 16 == millis) by (bit_vector)
            requires
                high == (millis << 16) | 0x7000 | ((counter >> 50) & 0xFFF),
                millis < 0x1_0000_0000_0000,
        ;
    }
}

/// Ids minted later compare greater: with the millisecond never stepping back
/// and the counter growing, the 128-bit values strictly increase.
pub proof fn law_ids_increase(m1: u64, c1: u64, m2: u64, c2: u64)
    requires
        m1 <= m2 < MILLIS_LIMIT,
        c1 < c2 <= COUNTER_MASK,
    ensures
        id_high(m1, c1) <= id_high(m2, c2),
        id_low(c1) < id_low(c2),
{
    let (h1, h2) = (id_high(m1, c1), id_high(m2, c2));
    let (l1, l2) = (id_low(c1), id_low(c2));
    assert(h1 <= h2) by (bit_vector)
        requires
            h1 == (m1 << 16) | 0x7000 | ((c1 >> 50) & 0xFFF),
            h2 == (m2 << 16) | 0x7000 | ((c2 >> 50) & 0xFFF),
            m1 <= m2,
            m2 < 0x1_0000_0000_0000,
            c1 < c2,
            c2 <= 0x3FFF_FFFF_FFFF_FFFF,
    ;
    assert(l1 < l2) by (bit_vector)
        requires
            l1 == 0x8000_0000_0000_0000 | (c1 & 0x3FFF_FFFF_FFFF_FFFF),
            l2 == 0x8000_0000_0000_0000 | (c2 & 0x3FFF_FFFF_FFFF_FFFF),
            c1 < c2,
            c2 <= 0x3FFF_FFFF_FFFF_FFFF,
    ;
}

/// Two ids of different counters are different ids, whatever the clock says.
pub proof fn law_ids_unique(m1: u64, c1: u64, m2: u64, c2: u64)
    requires
        c1 <= COUNTER_MASK,
        c2 <= COUNTER_MASK,
        c1 != c2,
    ensures
        (id_high(m1, c1), id_low(c1)) != (id_high(m2, c2), id_low(c2)),
{
    law_id_layout(m1, c1);
    law_id_layout(m2, c2);
}

/// A mint never repeats itself: of two ids minted one after the other, whatever
/// the clock reads, the second is the greater, and each carries the highest
/// reading so far.
pub proof fn law_mint_never_repeats(
    before: IdMint,
    first_now: u64,
    between: IdMint,
    first: (u64, u64),
    then_now: u64,
    after: IdMint,
    then: (u64, u64),
)
    requires
        before.counter() < COUNTER_MASK,
        before.last_millis() < MILLIS_LIMIT,
        first_now < MILLIS_LIMIT,
        then_now < MILLIS_LIMIT,
        minted(before, first_now, between, first),
        minted(between, then_now, after, then),
    ensures
        first.0 <= then.0,
        first.1 < then.1,
        first.0 >> 16 >= first_now,
        first.0 >> 16 == first_now || first.0 >> 16 == before.last_millis(),
        then.0 >> 16 >= then_now,
        then.0 >> 16 >= first.0 >> 16,
        before.last_millis() <= between.last_millis() <= after.last_millis(),
        between.counter() == before.counter() + 1,
{
    let (c, d) = (before.counter(), between.counter());
    assert(c & 0x3FFF_FFFF_FFFF_FFFF == c) by (bit_vector)
        requires
            c < 0x3FFF_FFFF_FFFF_FFFF,
    ;
    assert(d & 0x3FFF_FFFF_FFFF_FFFF == d) by (bit_vector)
        requires
            d <= 0x3FFF_FFFF_FFFF_FFFF,
    ;
    law_ids_increase(between.last_millis(), c, after.last_millis(), d);
    law_id_layout(between.last_millis(), c);
    law_id_layout(after.last_millis(), d);
}

} // verus!
