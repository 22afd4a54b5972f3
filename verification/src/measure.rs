//! The timed-measurement loop.
//!
//! Every trial draws one payload and times both routines on it. Which of the
//! two runs first is decided by a coin flip, so that whatever favours the
//! first or the second call of a trial (warm caches, branch predictor state,
//! frequency drift) favours neither routine over the trials. The pair that a
//! trial records is always (base, candidate), whichever ran first.

use vstd::prelude::*;
use rand::Rng;
use rand::rngs::ThreadRng;

verus! {

/// A source of payloads: each call hands out the input of one trial.
pub trait Generator {
    type Output;

    fn next_payload(&mut self) -> Self::Output;
}

/// The duration that a trial records for a reported duration: its low 64 bits.
pub open spec fn recorded(duration: u128) -> u64 {
    (duration % 0x1_0000_0000_0000_0000) as u64
}

/// Whether `elapsed` is what is recorded for a run of `routine` on `payload`.
pub open spec fn timed_by<O, P, F: Fn(P) -> (u128, O)>(routine: F, payload: P, elapsed: u64) -> bool {
    exists|out: (u128, O)| #[trigger] call_ensures(routine, (payload,), out) && elapsed == recorded(out.0)
}

/// Whether `pair` holds, in this order, what is recorded for a run of `base`
/// and for a run of `candidate` on one payload.
pub open spec fn trial_of<O, P, B: Fn(&P) -> (u128, O), C: Fn(&P) -> (u128, O)>(
    base: B,
    candidate: C,
    pair: (u64, u64),
) -> bool {
    exists|payload: P| #[trigger] timed_by(base, &payload, pair.0) && timed_by(candidate, &payload, pair.1)
}

/// `std::hint::black_box`, not verified here: hands its argument back
/// unchanged, in a way that the optimizer cannot see through, so that a call
/// whose result goes through it is not removed as dead code.
#[verifier::external_body]
pub fn black_box<T>(dummy: T) -> (ret: T)
    ensures
        ret == dummy,
{
    std::hint::black_box(dummy)
}

/// Runs `f` on `payload` and returns the duration it reports, cut to 64 bits.
/// The routine's output is kept from the optimizer and then dropped.
pub fn time_call<O, P, F: Fn(P) -> (u128, O)>(f: F, payload: P) -> (elapsed: u64)
    requires
        call_requires(f, (payload,)),
    ensures
        timed_by(f, payload, elapsed),
{
    let out = black_box(f(payload));
    let duration: u128 = out.0;
    assert(duration as u64 == duration % 0x1_0000_0000_0000_0000) by (bit_vector);
    #[verifier::truncate]
    (duration as u64)
}

/// A source of coin flips: each call decides the order of one trial.
pub trait Coin {
    /// Whether the base routine runs first in the next trial.
    fn flip(&mut self) -> bool;
}

/// `rand::rngs::ThreadRng`, opaque here: a value of it is only carried from
/// `rand::thread_rng` to the coin flips.
#[verifier::external_type_specification]
#[verifier::external_body]
pub struct ExThreadRng(ThreadRng);

/// `rand::thread_rng`, not verified here: a handle to the random number
/// generator of the calling thread. Nothing is claimed of it. It panics where
/// the generator cannot be seeded from the operating system.
pub assume_specification[ rand::thread_rng ]() -> ThreadRng;

/// `Rng::gen_ratio` of rand with a ratio of 1 in 2, not verified here: a fair
/// coin. Nothing is claimed of the outcome.
#[verifier::external_body]
fn fair_flip(rng: &mut ThreadRng) -> bool {
    rng.gen_ratio(1, 2)
}

/// The fair coin of the calling thread's random number generator.
pub struct ThreadCoin {
    rng: ThreadRng,
}

impl ThreadCoin {
    pub fn new() -> ThreadCoin {
        ThreadCoin { rng: rand::thread_rng() }
    }
}

impl Coin for ThreadCoin {
    fn flip(&mut self) -> bool {
        fair_flip(&mut self.rng)
    }
}

/// One trial: times both routines on `payload`, `base` first if `base_first`
/// and `candidate` first otherwise.
pub fn measure_trial<O, P, B: Fn(&P) -> (u128, O), C: Fn(&P) -> (u128, O)>(
    payload: &P,
    base: &B,
    candidate: &C,
    base_first: bool,
) -> (pair: (u64, u64))
    requires
        call_requires(*base, (payload,)),
        call_requires(*candidate, (payload,)),
    ensures
        timed_by(*base, payload, pair.0),
        timed_by(*candidate, payload, pair.1),
{
    if base_first {
        let base_elapsed: u64 = time_call(base, payload);
        let candidate_elapsed: u64 = time_call(candidate, payload);
        (base_elapsed, candidate_elapsed)
    } else {
        let candidate_elapsed: u64 = time_call(candidate, payload);
        let base_elapsed: u64 = time_call(base, payload);
        (base_elapsed, candidate_elapsed)
    }
}

/// Runs `iter` trials with the orders that `coin` gives and returns their
/// pairs in trial order.
///
/// Each trial draws one payload from `generator`, flips the coin for the
/// order of the two calls, and records (base, candidate) whichever ran first.
/// Both routines must accept every payload.
pub fn measure_with<
    O,
    G: Generator,
    B: Fn(&G::Output) -> (u128, O),
    C: Fn(&G::Output) -> (u128, O),
    K: Coin,
>(generator: G, base: B, candidate: C, iter: usize, coin: &mut K) -> (result: Vec<(u64, u64)>)
    requires
        forall|payload: &G::Output| call_requires(base, (payload,)),
        forall|payload: &G::Output| call_requires(candidate, (payload,)),
    ensures
        result@.len() == iter,
        forall|i: int| 0 <= i < iter ==> trial_of::<O, G::Output, B, C>(base, candidate, #[trigger] result@[i]),
{
    let mut generator = generator;
    let mut result: Vec<(u64, u64)> = Vec::with_capacity(iter);
    let mut done: usize = 0;
    while done < iter
        invariant
            done <= iter,
            result@.len() == done,
            forall|payload: &G::Output| call_requires(base, (payload,)),
            forall|payload: &G::Output| call_requires(candidate, (payload,)),
            forall|i: int| 0 <= i < done ==> trial_of::<O, G::Output, B, C>(base, candidate, #[trigger] result@[i]),
        decreases iter - done,
    {
        let payload = generator.next_payload();
        let base_first: bool = coin.flip();
        let pair = measure_trial(&payload, &base, &candidate, base_first);
        assert(timed_by(base, &payload, pair.0) && timed_by(candidate, &payload, pair.1));
        result.push(pair);
        done += 1;
    }
    result
}

/// Runs `iter` trials, the order of each decided by a fair coin, and returns
/// their pairs in trial order.
pub fn measure<O, G: Generator, B: Fn(&G::Output) -> (u128, O), C: Fn(&G::Output) -> (u128, O)>(
    generator: G,
    base: B,
    candidate: C,
    iter: usize,
) -> (result: Vec<(u64, u64)>)
    requires
        forall|payload: &G::Output| call_requires(base, (payload,)),
        forall|payload: &G::Output| call_requires(candidate, (payload,)),
    ensures
        result@.len() == iter,
        forall|i: int| 0 <= i < iter ==> trial_of::<O, G::Output, B, C>(base, candidate, #[trigger] result@[i]),
{
    let mut coin = ThreadCoin::new();
    measure_with(generator, base, candidate, iter, &mut coin)
}

} // verus!
