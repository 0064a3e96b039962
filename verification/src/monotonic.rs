//! Monotonic mode: a generator that remembers the identifier it issued last
//! and never issues a smaller or equal one. While the clock does not move
//! past the remembered timestamp, the next identifier is the remembered one
//! plus one; once the clock has moved on, fresh randomness is drawn.
//!
//! The generator is the only state in the library. A call takes it by
//! exclusive reference, so two calls cannot interleave; callers that share
//! one generator between threads keep it behind a lock.
use vstd::prelude::*;
use crate::codec::encode_spec;
use crate::codec_lemmas::{lemma_encode_preserves_order, text_lt};
use crate::error::Error;
use crate::generator::{system_draw, time_or_clock, with_entropy, with_entropy_spec};
use crate::identifier::{
    agrees, lemma_compose, lemma_fields, lemma_timestamp_orders, randomness_of, value_span,
    Identifier, MAX_RANDOMNESS, MAX_TIMESTAMP,
};

verus! {

/// A generator in monotonic mode. It holds the identifier that it issued
/// last, if it has issued one.
#[derive(Clone, Copy, Debug)]
pub struct MonotonicGenerator {
    previous: Option<Identifier>,
}

impl View for MonotonicGenerator {
    type V = Option<Identifier>;

    /// The identifier issued last, if any.
    closed spec fn view(&self) -> Option<Identifier> {
        self.previous
    }
}

/// The identifier whose number is `v`, for `v` below 2^128.
pub open spec fn issued(v: nat) -> Identifier
    recommends
        v < value_span(),
{
    Identifier { value: v as u128 }
}

/// What a call gives when the generator remembers `previous`, the clock
/// reads `current_time_ms` and the randomness source delivered `entropy`.
///
/// With a remembered identifier whose timestamp the clock has not passed,
/// the result is that identifier plus one, and `MonotonicOverflow` if its
/// randomness is all ones; `entropy` is not looked at. A clock that reads
/// less than the remembered timestamp is treated as one that stands still.
/// Otherwise the result is a fresh identifier stamped with the clock reading.
pub open spec fn next_spec(
    previous: Option<Identifier>,
    current_time_ms: u64,
    entropy: Option<u128>,
) -> Result<nat, Error> {
    if previous is Some && current_time_ms <= previous->Some_0.spec_timestamp() {
        if previous->Some_0.spec_randomness() == MAX_RANDOMNESS {
            Err(Error::MonotonicOverflow)
        } else {
            Ok(previous->Some_0@ + 1)
        }
    } else {
        with_entropy_spec(current_time_ms, entropy)
    }
}

/// What the generator remembers after a call that found `previous` and
/// ended in `outcome`: the identifier just issued, or what it remembered
/// before if the call failed.
pub open spec fn remembered(previous: Option<Identifier>, outcome: Result<nat, Error>) -> Option<
    Identifier,
> {
    match outcome {
        Ok(v) => Some(issued(v)),
        Err(_) => previous,
    }
}

/// What the generator remembers after a series of calls, each given as the
/// clock reading and what the randomness source delivered.
pub open spec fn state_after(start: Option<Identifier>, calls: Seq<(u64, Option<u128>)>) -> Option<
    Identifier,
>
    decreases calls.len(),
{
    if calls.len() == 0 {
        start
    } else {
        let before = state_after(start, calls.drop_last());
        remembered(before, next_spec(before, calls.last().0, calls.last().1))
    }
}

/// The outcome of call number `k` of a series, counting from zero.
pub open spec fn outcome_at(
    start: Option<Identifier>,
    calls: Seq<(u64, Option<u128>)>,
    k: int,
) -> Result<nat, Error>
    recommends
        0 <= k < calls.len(),
{
    next_spec(state_after(start, calls.take(k)), calls[k].0, calls[k].1)
}

impl Default for MonotonicGenerator {
    /// A generator that has issued nothing yet.
    fn default() -> (g: MonotonicGenerator)
        ensures
            g@ is None,
    {
        MonotonicGenerator { previous: None }
    }
}

impl MonotonicGenerator {
    /// A generator that has issued nothing yet.
    pub fn new() -> (g: MonotonicGenerator)
        ensures
            g@ is None,
    {
        MonotonicGenerator { previous: None }
    }

    /// The identifier issued last, if any.
    pub fn previous(&self) -> (p: Option<Identifier>)
        ensures
            p == self@,
    {
        self.previous
    }

    /// The next identifier, for the clock reading `current_time_ms` and for
    /// `entropy` as what the randomness source delivered. On success the
    /// identifier is remembered, and it is greater than the one remembered
    /// before; on failure the generator is unchanged.
    pub fn next(&mut self, current_time_ms: u64, entropy: Option<u128>) -> (r: Result<
        Identifier,
        Error,
    >)
        ensures
            agrees(r, next_spec(old(self)@, current_time_ms, entropy)),
            final(self)@ == remembered(old(self)@, next_spec(old(self)@, current_time_ms, entropy)),
            final(self)@ == (if r is Ok {
                Some(r->Ok_0)
            } else {
                old(self)@
            }),
            r is Ok && old(self)@ is Some ==> r->Ok_0@ > old(self)@->Some_0@,
    {
        proof {
            lemma_next_greater(self@, current_time_ms, entropy);
        }
        match self.previous {
            Some(p) => {
                if current_time_ms <= p.timestamp() {
                    match p.increment() {
                        None => {
                            return Err(Error::MonotonicOverflow);
                        },
                        Some(id) => {
                            self.previous = Some(id);
                            return Ok(id);
                        },
                    }
                }
            },
            None => {},
        }
        let r = with_entropy(current_time_ms, entropy);
        match r {
            Ok(id) => {
                self.previous = Some(id);
            },
            Err(_) => {},
        }
        r
    }

    /// The next identifier, with the system as the randomness source, for
    /// the clock reading `current_time_ms`, or for the wall clock when no
    /// reading is supplied. With a supplied reading that has not passed the
    /// remembered timestamp, the outcome does not depend on the system.
    pub fn generate(&mut self, current_time_ms: Option<u64>) -> (r: Result<Identifier, Error>)
        ensures
            current_time_ms is Some && old(self)@ is Some && current_time_ms->Some_0 <= old(
                self,
            )@->Some_0.spec_timestamp() ==> agrees(
                r,
                next_spec(old(self)@, current_time_ms->Some_0, None),
            ),
            current_time_ms is Some && !(old(self)@ is Some && current_time_ms->Some_0 <= old(
                self,
            )@->Some_0.spec_timestamp()) ==> (if current_time_ms->Some_0 <= MAX_TIMESTAMP {
                r is Ok && r->Ok_0.spec_timestamp() == current_time_ms->Some_0
            } else {
                r == Err::<Identifier, Error>(Error::TimestampOverflow)
            }),
            exists|clock_ms: u64, e: u128|
                clock_ms <= MAX_TIMESTAMP && agrees(
                    r,
                    #[trigger] next_spec(
                        old(self)@,
                        time_or_clock(current_time_ms, clock_ms),
                        Some(e),
                    ),
                ),
            final(self)@ == (if r is Ok {
                Some(r->Ok_0)
            } else {
                old(self)@
            }),
            r is Ok && old(self)@ is Some ==> r->Ok_0@ > old(self)@->Some_0@,
            r is Err ==> r->Err_0 == Error::MonotonicOverflow || r->Err_0
                == Error::TimestampOverflow,
    {
        let draw: Identifier = Identifier::from_value(system_draw());
        let clock_ms: u64 = draw.timestamp();
        let e: u128 = draw.randomness();
        let time: u64 = match current_time_ms {
            Some(t) => t,
            None => clock_ms,
        };
        let r = self.next(time, Some(e));
        proof {
            lemma_compose(time as nat, randomness_of(e as nat));
        }
        assert(agrees(
            r,
            next_spec(old(self)@, time_or_clock(current_time_ms, clock_ms), Some(e)),
        ));
        r
    }
}

/// An identifier that a call issues is a 128-bit number, and it is greater
/// than the one the generator remembered.
pub proof fn lemma_next_greater(
    previous: Option<Identifier>,
    current_time_ms: u64,
    entropy: Option<u128>,
)
    ensures
        next_spec(previous, current_time_ms, entropy) is Ok ==> {
            let v = next_spec(previous, current_time_ms, entropy)->Ok_0;
            &&& v < value_span()
            &&& issued(v)@ == v
            &&& previous is Some ==> v > previous->Some_0@
        },
{
    if next_spec(previous, current_time_ms, entropy) is Ok {
        let v = next_spec(previous, current_time_ms, entropy)->Ok_0;
        if previous is Some && current_time_ms <= previous->Some_0.spec_timestamp() {
            let p = previous->Some_0;
            lemma_fields(p@);
            lemma_compose(p.spec_timestamp(), p.spec_randomness() + 1);
        } else {
            lemma_compose(
                current_time_ms as nat,
                randomness_of(entropy->Some_0 as nat),
            );
            if previous is Some {
                lemma_timestamp_orders(previous->Some_0@, v);
            }
        }
    }
}

/// Dropping later calls from a series changes nothing about an earlier one.
proof fn lemma_outcome_of_prefix(
    start: Option<Identifier>,
    calls: Seq<(u64, Option<u128>)>,
    n: int,
    k: int,
)
    requires
        0 <= k < n <= calls.len(),
    ensures
        outcome_at(start, calls.take(n), k) == outcome_at(start, calls, k),
{
    assert(calls.take(n).take(k) =~= calls.take(k));
}

/// After a series of calls the generator remembers an identifier that is at
/// least as great as every identifier issued in the series.
proof fn lemma_state_dominates(
    start: Option<Identifier>,
    calls: Seq<(u64, Option<u128>)>,
    k: int,
)
    requires
        0 <= k < calls.len(),
        outcome_at(start, calls, k) is Ok,
    ensures
        state_after(start, calls) is Some,
        state_after(start, calls)->Some_0@ >= outcome_at(start, calls, k)->Ok_0,
    decreases calls.len(),
{
    let n = calls.len() - 1;
    let before = state_after(start, calls.drop_last());
    assert(calls.drop_last() =~= calls.take(n));
    lemma_next_greater(before, calls.last().0, calls.last().1);
    if k < n {
        lemma_outcome_of_prefix(start, calls, n, k);
        lemma_state_dominates(start, calls.drop_last(), k);
    }
}

/// In monotonic mode the identifiers come out in strictly increasing order,
/// and so do their text forms: of any two calls of a series that succeed,
/// the later one issues the greater identifier. This holds whatever the
/// clock does, and in particular while it stands still.
pub proof fn lemma_outcomes_increase(
    start: Option<Identifier>,
    calls: Seq<(u64, Option<u128>)>,
    i: int,
    j: int,
)
    requires
        0 <= i < j < calls.len(),
        outcome_at(start, calls, i) is Ok,
        outcome_at(start, calls, j) is Ok,
    ensures
        outcome_at(start, calls, i)->Ok_0 < outcome_at(start, calls, j)->Ok_0,
        text_lt(
            encode_spec(outcome_at(start, calls, i)->Ok_0),
            encode_spec(outcome_at(start, calls, j)->Ok_0),
        ),
{
    lemma_outcome_of_prefix(start, calls, j, i);
    lemma_state_dominates(start, calls.take(j), i);
    let before = state_after(start, calls.take(j));
    lemma_next_greater(before, calls[j].0, calls[j].1);
    lemma_next_greater(state_after(start, calls.take(i)), calls[i].0, calls[i].1);
    let earlier = outcome_at(start, calls, i)->Ok_0;
    let later = outcome_at(start, calls, j)->Ok_0;
    lemma_encode_preserves_order(issued(earlier), issued(later));
}

/// The number of identifiers that can still follow `p` within its
/// millisecond.
pub open spec fn room_after(p: Identifier) -> nat {
    (MAX_RANDOMNESS - p.spec_randomness()) as nat
}

/// While the clock does not move past the timestamp of `p`, a generator that
/// remembers `p` counts upwards from it and stops at the last identifier of
/// that millisecond.
proof fn lemma_held_clock_state(p: Identifier, calls: Seq<(u64, Option<u128>)>)
    requires
        forall|i: int| 0 <= i < calls.len() ==> (#[trigger] calls[i]).0 <= p.spec_timestamp(),
    ensures
        state_after(Some(p), calls) == Some(
            issued(
                p@ + (if calls.len() <= room_after(p) {
                    calls.len()
                } else {
                    room_after(p)
                }),
            ),
        ),
    decreases calls.len(),
{
    lemma_fields(p@);
    if calls.len() > 0 {
        let shorter = calls.drop_last();
        assert forall|i: int| 0 <= i < shorter.len() implies (#[trigger] shorter[i]).0
            <= p.spec_timestamp() by {
            assert(shorter[i] == calls[i]);
        }
        lemma_held_clock_state(p, shorter);
        let m: nat = if shorter.len() <= room_after(p) {
            shorter.len()
        } else {
            room_after(p)
        };
        lemma_compose(p.spec_timestamp(), p.spec_randomness() + m);
        assert(calls.last() == calls[calls.len() - 1]);
        if m < room_after(p) {
            lemma_compose(p.spec_timestamp(), p.spec_randomness() + m + 1);
        }
    }
}

/// With the clock held at the millisecond of the identifier `p` that the
/// generator remembers, call number `k`, counting from zero, issues `p`
/// plus `k + 1` as long as the randomness field has room, whatever the
/// randomness source delivers. Every call after the last identifier of the
/// millisecond fails with `MonotonicOverflow`.
pub proof fn lemma_held_clock(p: Identifier, calls: Seq<(u64, Option<u128>)>, k: int)
    requires
        0 <= k < calls.len(),
        forall|i: int| 0 <= i < calls.len() ==> (#[trigger] calls[i]).0 <= p.spec_timestamp(),
    ensures
        k < room_after(p) ==> outcome_at(Some(p), calls, k) == Ok::<nat, Error>(
            (p@ + k + 1) as nat,
        ),
        k >= room_after(p) ==> outcome_at(Some(p), calls, k) == Err::<nat, Error>(
            Error::MonotonicOverflow,
        ),
{
    let earlier = calls.take(k);
    assert forall|i: int| 0 <= i < earlier.len() implies (#[trigger] earlier[i]).0
        <= p.spec_timestamp() by {
        assert(earlier[i] == calls[i]);
    }
    lemma_held_clock_state(p, earlier);
    lemma_fields(p@);
    let m: nat = if k <= room_after(p) {
        k as nat
    } else {
        room_after(p)
    };
    lemma_compose(p.spec_timestamp(), p.spec_randomness() + m);
}

/// What a fresh generator remembers after a series of calls during which
/// the clock stands at `t`: the first identifier, made from the clock
/// reading and the first delivery of the randomness source, plus one for
/// each later call, up to the last identifier of that millisecond.
proof fn lemma_held_clock_state_from_start(t: u64, calls: Seq<(u64, Option<u128>)>)
    requires
        t <= MAX_TIMESTAMP,
        calls.len() >= 1,
        forall|i: int| 0 <= i < calls.len() ==> (#[trigger] calls[i]).0 == t,
        calls[0].1 is Some,
    ensures
        ({
            let first = issued(with_entropy_spec(t, calls[0].1)->Ok_0);
            state_after(None, calls) == Some(
                issued(
                    first@ + (if calls.len() - 1 <= room_after(first) {
                        (calls.len() - 1) as nat
                    } else {
                        room_after(first)
                    }),
                ),
            )
        }),
    decreases calls.len(),
{
    let first = issued(with_entropy_spec(t, calls[0].1)->Ok_0);
    let shorter = calls.drop_last();
    lemma_compose(t as nat, randomness_of(calls[0].1->Some_0 as nat));
    lemma_fields(first@);
    assert(calls.last() == calls[calls.len() - 1]);
    if calls.len() == 1 {
        assert(shorter.len() == 0);
        assert(state_after(None, shorter) == None::<Identifier>);
    } else {
        assert forall|i: int| 0 <= i < shorter.len() implies (#[trigger] shorter[i]).0 == t by {
            assert(shorter[i] == calls[i]);
        }
        assert(shorter[0] == calls[0]);
        lemma_held_clock_state_from_start(t, shorter);
        let m: nat = if shorter.len() - 1 <= room_after(first) {
            (shorter.len() - 1) as nat
        } else {
            room_after(first)
        };
        lemma_compose(first.spec_timestamp(), first.spec_randomness() + m);
        if m < room_after(first) {
            lemma_compose(first.spec_timestamp(), first.spec_randomness() + m + 1);
        }
    }
}

/// A fresh generator, a clock held at `t` and a randomness source that
/// delivers on the first call: the first call issues the identifier made of
/// `t` and of what was delivered, call number `k`, counting from zero,
/// issues that identifier plus `k`, and once the randomness field is all
/// ones every further call fails with `MonotonicOverflow`.
pub proof fn lemma_held_clock_from_start(t: u64, calls: Seq<(u64, Option<u128>)>, k: int)
    requires
        t <= MAX_TIMESTAMP,
        0 <= k < calls.len(),
        forall|i: int| 0 <= i < calls.len() ==> (#[trigger] calls[i]).0 == t,
        calls[0].1 is Some,
    ensures
        ({
            let first = issued(with_entropy_spec(t, calls[0].1)->Ok_0);
            &&& first.spec_timestamp() == t
            &&& first.spec_randomness() == randomness_of(calls[0].1->Some_0 as nat)
            &&& k <= room_after(first) ==> outcome_at(None, calls, k) == Ok::<nat, Error>(
                (first@ + k) as nat,
            )
            &&& k > room_after(first) ==> outcome_at(None, calls, k) == Err::<nat, Error>(
                Error::MonotonicOverflow,
            )
        }),
{
    let first = issued(with_entropy_spec(t, calls[0].1)->Ok_0);
    lemma_compose(t as nat, randomness_of(calls[0].1->Some_0 as nat));
    lemma_fields(first@);
    let earlier = calls.take(k);
    if k == 0 {
        assert(earlier.len() == 0);
    } else {
        assert forall|i: int| 0 <= i < earlier.len() implies (#[trigger] earlier[i]).0 == t by {
            assert(earlier[i] == calls[i]);
        }
        assert(earlier[0] == calls[0]);
        lemma_held_clock_state_from_start(t, earlier);
        let m: nat = if k - 1 <= room_after(first) {
            (k - 1) as nat
        } else {
            room_after(first)
        };
        lemma_compose(first.spec_timestamp(), first.spec_randomness() + m);
    }
}

} // verus!
