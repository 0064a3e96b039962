//! The identifier itself: a 128-bit number read as a 48-bit timestamp
//! followed by 80 bits of randomness.
use vstd::prelude::*;
use crate::error::Error;

verus! {

/// The greatest timestamp an identifier can carry: 2^48 - 1 milliseconds
/// since the Unix epoch.
pub const MAX_TIMESTAMP: u64 = 0xFFFF_FFFF_FFFF;

/// The greatest value of the randomness field: 2^80 - 1.
pub const MAX_RANDOMNESS: u128 = 0xFFFF_FFFF_FFFF_FFFF_FFFF;

/// The number of values the randomness field can take: 2^80. One step of the
/// timestamp is worth this much in the identifier's number.
pub open spec fn randomness_span() -> nat {
    0x1_0000_0000_0000_0000_0000
}

/// The number of values the timestamp field can take: 2^48.
pub open spec fn timestamp_span() -> nat {
    0x1_0000_0000_0000
}

/// The number of 128-bit values: 2^128.
pub open spec fn value_span() -> nat {
    0x1_0000_0000_0000_0000_0000_0000_0000_0000nat
}

/// The number whose high part is `timestamp` and whose low part is
/// `randomness`.
pub open spec fn compose(timestamp: nat, randomness: nat) -> nat {
    timestamp * randomness_span() + randomness
}

/// The timestamp field of the number `v`.
pub open spec fn timestamp_of(v: nat) -> nat {
    v / randomness_span()
}

/// The randomness field of the number `v`.
pub open spec fn randomness_of(v: nat) -> nat {
    v % randomness_span()
}

/// A 128-bit identifier. Every 128-bit number is a valid identifier; two
/// identifiers are equal when their numbers are, and they are ordered as
/// their numbers are, which is by timestamp first and by randomness second.
#[derive(Clone, Copy, Debug, PartialEq, Eq, Structural, Ord, Hash)]
pub struct Identifier {
    /// The identifier as one big-endian number.
    pub value: u128,
}

impl View for Identifier {
    type V = nat;

    /// The identifier's number.
    open spec fn view(&self) -> nat {
        self.value as nat
    }
}

/// Whether the outcome `r` of an operation is the one that `expected`
/// describes: the identifier with that number, or that error.
pub open spec fn agrees(r: Result<Identifier, Error>, expected: Result<nat, Error>) -> bool {
    match expected {
        Ok(v) => r is Ok && r->Ok_0@ == v,
        Err(e) => r == Err::<Identifier, Error>(e),
    }
}

/// Splitting a number into its two fields and composing them again gives the
/// number back; the randomness field has 80 bits, and the timestamp field of
/// a 128-bit number has 48.
pub proof fn lemma_fields(v: nat)
    ensures
        compose(timestamp_of(v), randomness_of(v)) == v,
        randomness_of(v) < randomness_span(),
        v < value_span() ==> timestamp_of(v) < timestamp_span(),
{
}

/// The fields of a composed number are the parts it was made of.
pub proof fn lemma_compose(timestamp: nat, randomness: nat)
    requires
        randomness < randomness_span(),
    ensures
        timestamp_of(compose(timestamp, randomness)) == timestamp,
        randomness_of(compose(timestamp, randomness)) == randomness,
        timestamp < timestamp_span() ==> compose(timestamp, randomness) < value_span(),
{
}

/// An identifier with the smaller timestamp is the smaller identifier,
/// whatever the two randomness fields hold.
pub proof fn lemma_timestamp_orders(a: nat, b: nat)
    requires
        timestamp_of(a) < timestamp_of(b),
    ensures
        a < b,
{
}

/// The order of identifiers is by timestamp first and by randomness second.
pub proof fn lemma_order_by_fields(a: Identifier, b: Identifier)
    ensures
        a@ < b@ <==> a.spec_timestamp() < b.spec_timestamp() || (a.spec_timestamp()
            == b.spec_timestamp() && a.spec_randomness() < b.spec_randomness()),
        a == b <==> a.spec_timestamp() == b.spec_timestamp() && a.spec_randomness()
            == b.spec_randomness(),
{
    lemma_fields(a@);
    lemma_fields(b@);
}

impl Default for Identifier {
    /// The nil identifier.
    fn default() -> (id: Identifier)
        ensures
            id@ == 0,
    {
        Identifier { value: 0 }
    }
}

impl Identifier {
    /// The timestamp field, as a number.
    pub open spec fn spec_timestamp(&self) -> nat {
        timestamp_of(self@)
    }

    /// The randomness field, as a number.
    pub open spec fn spec_randomness(&self) -> nat {
        randomness_of(self@)
    }

    /// The nil identifier: all 128 bits zero.
    pub fn nil() -> (id: Identifier)
        ensures
            id@ == 0,
            id.spec_timestamp() == 0,
            id.spec_randomness() == 0,
    {
        Identifier { value: 0 }
    }

    /// The identifier whose number is `value`.
    pub fn from_value(value: u128) -> (id: Identifier)
        ensures
            id@ == value,
    {
        Identifier { value }
    }

    /// The identifier with the given fields. A timestamp above
    /// `MAX_TIMESTAMP` is refused; of `randomness` the low 80 bits are kept.
    pub fn from_parts(timestamp: u64, randomness: u128) -> (r: Result<Identifier, Error>)
        ensures
            timestamp > MAX_TIMESTAMP ==> r == Err::<Identifier, Error>(Error::TimestampOverflow),
            timestamp <= MAX_TIMESTAMP ==> r is Ok,
            r is Ok ==> r->Ok_0@ == compose(
                timestamp as nat,
                randomness_of(randomness as nat),
            ),
            r is Ok ==> r->Ok_0.spec_timestamp() == timestamp,
            r is Ok ==> r->Ok_0.spec_randomness() == randomness_of(randomness as nat),
    {
        if timestamp > MAX_TIMESTAMP {
            return Err(Error::TimestampOverflow);
        }
        let low: u128 = randomness & MAX_RANDOMNESS;
        let high: u128 = (timestamp as u128) << 80;
        let value: u128 = high | low;
        proof {
            assert(low == randomness % 0x1_0000_0000_0000_0000_0000) by (bit_vector)
                requires
                    low == randomness & 0xFFFF_FFFF_FFFF_FFFF_FFFF,
            ;
            let wide: u128 = timestamp as u128;
            assert(high == wide * 0x1_0000_0000_0000_0000_0000) by (bit_vector)
                requires
                    wide <= 0xFFFF_FFFF_FFFF,
                    high == wide << 80,
            ;
            assert(value == high + low) by (bit_vector)
                requires
                    wide <= 0xFFFF_FFFF_FFFF,
                    high == wide << 80,
                    low <= 0xFFFF_FFFF_FFFF_FFFF_FFFF,
                    value == high | low,
            ;
            lemma_compose(timestamp as nat, low as nat);
        }
        Ok(Identifier { value })
    }

    /// The identifier's number.
    pub fn value(&self) -> (v: u128)
        ensures
            v == self@,
    {
        self.value
    }

    /// The timestamp field: milliseconds since the Unix epoch.
    pub fn timestamp(&self) -> (t: u64)
        ensures
            t == self.spec_timestamp(),
            t <= MAX_TIMESTAMP,
    {
        let v: u128 = self.value;
        let high: u128 = v >> 80;
        assert(high == v / 0x1_0000_0000_0000_0000_0000 && high <= 0xFFFF_FFFF_FFFF) by (bit_vector)
            requires
                high == v >> 80,
        ;
        high as u64
    }

    /// The randomness field: the low 80 bits.
    pub fn randomness(&self) -> (r: u128)
        ensures
            r == self.spec_randomness(),
            r <= MAX_RANDOMNESS,
    {
        let v: u128 = self.value;
        let low: u128 = v & MAX_RANDOMNESS;
        assert(low == v % 0x1_0000_0000_0000_0000_0000) by (bit_vector)
            requires
                low == v & 0xFFFF_FFFF_FFFF_FFFF_FFFF,
        ;
        low
    }

    /// Whether this is the nil identifier.
    pub fn is_nil(&self) -> (b: bool)
        ensures
            b <==> self@ == 0,
    {
        self.value == 0
    }

    /// The next identifier of the same millisecond: the same timestamp, the
    /// randomness greater by one. There is none when the randomness field is
    /// already all ones.
    pub fn increment(&self) -> (r: Option<Identifier>)
        ensures
            self.spec_randomness() == MAX_RANDOMNESS <==> r is None,
            r is Some ==> r->Some_0@ == self@ + 1,
            r is Some ==> r->Some_0.spec_timestamp() == self.spec_timestamp(),
            r is Some ==> r->Some_0.spec_randomness() == self.spec_randomness() + 1,
    {
        if self.randomness() == MAX_RANDOMNESS {
            None
        } else {
            proof {
                lemma_fields(self@);
                lemma_compose(self.spec_timestamp(), self.spec_randomness() + 1);
            }
            Some(Identifier { value: self.value + 1 })
        }
    }
}

} // verus!
