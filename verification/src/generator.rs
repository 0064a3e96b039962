//! Making new identifiers. `with_entropy` and `generate_with` take the clock
//! reading and the random bits as plain values, so that any source can stand
//! behind them, a fixed one included; the other functions ask the system.
use vstd::prelude::*;
use crate::error::Error;
use crate::identifier::{
    agrees, compose, lemma_fields, randomness_of, Identifier, MAX_TIMESTAMP,
};

verus! {

/// One draw from the system: calls `ulid::Ulid::new`, which reads the wall
/// clock and the thread's random number generator, and hands back the number
/// of the identifier it made. The high 48 bits are the current time in
/// milliseconds, the low 80 bits are random. Nothing is claimed of the
/// number: callers are verified for every value it can take. The outside
/// function does not report a randomness source that cannot be seeded; it
/// panics.
#[verifier::external_body]
pub(crate) fn system_draw() -> (v: u128) {
    ulid::Ulid::new().0
}

/// What `with_entropy` gives. `entropy` is what the randomness source
/// delivered, `None` if it could not deliver. The timestamp is judged first.
pub open spec fn with_entropy_spec(current_time_ms: u64, entropy: Option<u128>) -> Result<
    nat,
    Error,
> {
    if current_time_ms > MAX_TIMESTAMP {
        Err(Error::TimestampOverflow)
    } else {
        match entropy {
            None => Err(Error::RandomnessUnavailable),
            Some(e) => Ok(compose(current_time_ms as nat, randomness_of(e as nat))),
        }
    }
}

/// The time a call works with: the one supplied, or the clock reading when
/// none is supplied.
pub open spec fn time_or_clock(current_time_ms: Option<u64>, clock_ms: u64) -> u64 {
    match current_time_ms {
        Some(t) => t,
        None => clock_ms,
    }
}

/// What `generate_with` gives: the nil identifier when `nil` is set, else an
/// identifier stamped with `current_time_ms`, or with `clock_ms` when no time
/// is supplied.
pub open spec fn generate_spec(
    nil: bool,
    current_time_ms: Option<u64>,
    clock_ms: u64,
    entropy: Option<u128>,
) -> Result<nat, Error> {
    if nil {
        Ok(0)
    } else {
        with_entropy_spec(time_or_clock(current_time_ms, clock_ms), entropy)
    }
}

/// The identifier with timestamp `current_time_ms` and the low 80 bits of
/// `entropy` as its randomness. `entropy` is what a randomness source
/// delivered when asked for 80 bits, `None` if it failed. Any source will do,
/// a fixed value included.
pub fn with_entropy(current_time_ms: u64, entropy: Option<u128>) -> (r: Result<Identifier, Error>)
    ensures
        agrees(r, with_entropy_spec(current_time_ms, entropy)),
        r is Ok ==> r->Ok_0.spec_timestamp() == current_time_ms,
        r is Ok ==> r->Ok_0.spec_randomness() == randomness_of(entropy->Some_0 as nat),
{
    if current_time_ms > MAX_TIMESTAMP {
        return Err(Error::TimestampOverflow);
    }
    match entropy {
        None => Err(Error::RandomnessUnavailable),
        Some(e) => Identifier::from_parts(current_time_ms, e),
    }
}

/// The nil identifier when `nil` is set; else the identifier stamped with
/// `current_time_ms`, or with the clock reading `clock_ms` when no time is
/// supplied, and filled with `entropy`.
pub fn generate_with(
    nil: bool,
    current_time_ms: Option<u64>,
    clock_ms: u64,
    entropy: Option<u128>,
) -> (r: Result<Identifier, Error>)
    ensures
        agrees(r, generate_spec(nil, current_time_ms, clock_ms, entropy)),
{
    if nil {
        Ok(Identifier::nil())
    } else {
        let time: u64 = match current_time_ms {
            Some(t) => t,
            None => clock_ms,
        };
        with_entropy(time, entropy)
    }
}

impl Identifier {
    /// A new identifier with timestamp `current_time_ms` and 80 random bits
    /// from the system's source. It fails only when the timestamp does not
    /// fit in 48 bits, and then the source is not asked.
    pub fn new_random(current_time_ms: u64) -> (r: Result<Identifier, Error>)
        ensures
            current_time_ms > MAX_TIMESTAMP ==> r == Err::<Identifier, Error>(
                Error::TimestampOverflow,
            ),
            current_time_ms <= MAX_TIMESTAMP ==> r is Ok,
            r is Ok ==> r->Ok_0.spec_timestamp() == current_time_ms,
            exists|e: u128| agrees(r, #[trigger] with_entropy_spec(current_time_ms, Some(e))),
    {
        if current_time_ms > MAX_TIMESTAMP {
            assert(agrees(
                Err::<Identifier, Error>(Error::TimestampOverflow),
                with_entropy_spec(current_time_ms, Some(0u128)),
            ));
            return Err(Error::TimestampOverflow);
        }
        let draw: u128 = system_draw();
        let r = with_entropy(current_time_ms, Some(draw));
        assert(agrees(r, with_entropy_spec(current_time_ms, Some(draw))));
        r
    }
}

/// The nil identifier when `nil` is set, else a new identifier stamped with
/// the current time and filled with fresh randomness, both from the system.
pub fn generate_ulid(nil: bool) -> (id: Identifier)
    ensures
        nil ==> id@ == 0,
        exists|clock_ms: u64, e: u128|
            clock_ms <= MAX_TIMESTAMP && #[trigger] generate_spec(nil, None, clock_ms, Some(e))
                == Ok::<nat, Error>(id@),
{
    if nil {
        assert(generate_spec(nil, None, 0u64, Some(0u128)) == Ok::<nat, Error>(0nat));
        Identifier::nil()
    } else {
        let id = Identifier::from_value(system_draw());
        proof {
            lemma_fields(id@);
            let clock_ms: u64 = id.spec_timestamp() as u64;
            let e: u128 = id.spec_randomness() as u128;
            assert(generate_spec(nil, None, clock_ms, Some(e)) == Ok::<nat, Error>(id@));
        }
        id
    }
}

/// The nil identifier when `nil` is set; else a new identifier with fresh
/// randomness from the system, stamped with `current_time_ms`, or with the
/// wall clock when no time is supplied. It fails only on a supplied
/// timestamp that does not fit in 48 bits.
pub fn generate(nil: bool, current_time_ms: Option<u64>) -> (r: Result<Identifier, Error>)
    ensures
        nil ==> r is Ok && r->Ok_0@ == 0,
        !nil && current_time_ms is Some && current_time_ms->Some_0 > MAX_TIMESTAMP ==> r == Err::<
            Identifier,
            Error,
        >(Error::TimestampOverflow),
        current_time_ms is None || current_time_ms->Some_0 <= MAX_TIMESTAMP ==> r is Ok,
        !nil && current_time_ms is Some && r is Ok ==> r->Ok_0.spec_timestamp()
            == current_time_ms->Some_0,
        exists|clock_ms: u64, e: u128|
            clock_ms <= MAX_TIMESTAMP && agrees(
                r,
                #[trigger] generate_spec(nil, current_time_ms, clock_ms, Some(e)),
            ),
{
    if nil {
        let r = generate_with(true, current_time_ms, 0, Some(0));
        assert(agrees(r, generate_spec(nil, current_time_ms, 0u64, Some(0u128))));
        return r;
    }
    let draw: Identifier = Identifier::from_value(system_draw());
    let clock_ms: u64 = draw.timestamp();
    let e: u128 = draw.randomness();
    let r = generate_with(false, current_time_ms, clock_ms, Some(e));
    assert(agrees(r, generate_spec(nil, current_time_ms, clock_ms, Some(e))));
    r
}

} // verus!
