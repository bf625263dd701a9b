//! The batch kernel: the scalar solver applied along two parallel sequences.

use crate::precision::Precision;
use crate::solver::{
    compute_eccentric_anomaly, deterministic, lemma_solution_unique, solves, total, Operation,
};
use vstd::prelude::*;

verus! {

/// Why a batch was refused.
#[derive(Clone, Copy, Debug, PartialEq, Eq)]
pub enum KernelError {
    /// The two input sequences differ in length.
    LengthMismatch { mean_anomalies: usize, eccentricities: usize },
}

/// `sin` and `cos` answer the batch `mean`, `ecc`: all four are of one length,
/// and what stands at an index of the outputs is what the solver finds for
/// what stands at that index of the inputs.
pub open spec fn batch_solved<P, A>(
    arith: &A,
    mean: Seq<P>,
    ecc: Seq<P>,
    sin: Seq<P>,
    cos: Seq<P>,
) -> bool where
    P: Precision,
    A: Fn(Operation<P>) -> P,
{
    &&& ecc.len() == mean.len()
    &&& sin.len() == mean.len()
    &&& cos.len() == mean.len()
    &&& forall|i: int|
        0 <= i < mean.len() ==> #[trigger] solves(arith, mean[i], ecc[i], (sin[i], cos[i]))
}

/// Solves Kepler's equation for every pair of a batch.
///
/// The inputs are paired by position. Sequences of different lengths are
/// refused; otherwise every pair is solved, whether or not its run met the
/// tolerance, and the sines and the cosines come back in the order of the
/// inputs.
pub fn cpu_kepler<P, A>(
    mean_anom: &[P],
    ecc: &[P],
    arith: &A,
) -> (result: Result<(Vec<P>, Vec<P>), KernelError>) where
    P: Precision,
    A: Fn(Operation<P>) -> P,

    requires
        total(arith),
    ensures
        result is Ok <==> mean_anom@.len() == ecc@.len(),
        result matches Ok(answer) ==> batch_solved(
            arith,
            mean_anom@,
            ecc@,
            answer.0@,
            answer.1@,
        ),
        result matches Err(error) ==> error == (KernelError::LengthMismatch {
            mean_anomalies: mean_anom.len(),
            eccentricities: ecc.len(),
        }),
{
    let size = mean_anom.len();
    if ecc.len() != size {
        return Err(KernelError::LengthMismatch { mean_anomalies: size, eccentricities: ecc.len() });
    }
    let mut sin_ecc_anom: Vec<P> = Vec::with_capacity(size);
    let mut cos_ecc_anom: Vec<P> = Vec::with_capacity(size);
    let mut n: usize = 0;
    while n < size
        invariant
            total(arith),
            size == mean_anom@.len(),
            size == ecc@.len(),
            n <= size,
            sin_ecc_anom@.len() == n,
            cos_ecc_anom@.len() == n,
            forall|i: int|
                0 <= i < n ==> #[trigger] solves(
                    arith,
                    mean_anom@[i],
                    ecc@[i],
                    (sin_ecc_anom@[i], cos_ecc_anom@[i]),
                ),
        decreases size - n,
    {
        let (sin, cos) = compute_eccentric_anomaly(mean_anom[n], ecc[n], arith);
        sin_ecc_anom.push(sin);
        cos_ecc_anom.push(cos);
        n = n + 1;
    }
    Ok((sin_ecc_anom, cos_ecc_anom))
}

/// The number of pairs that a caller declares as a signed count, where it
/// can be the length of a sequence: it is neither negative nor beyond what
/// the machine addresses.
pub fn element_count(declared: i64) -> (count: Option<usize>)
    ensures
        count is Some <==> 0 <= declared <= usize::MAX,
        count matches Some(n) ==> n == declared,
{
    if declared < 0 {
        None
    } else if declared as u64 > usize::MAX as u64 {
        None
    } else {
        Some(declared as usize)
    }
}

/// Every entry of `order` is an index into a sequence of length `len`.
pub open spec fn selects(order: Seq<int>, len: nat) -> bool {
    forall|i: int| 0 <= i < order.len() ==> 0 <= #[trigger] order[i] < len
}

/// The sequence that holds, at each index, the item of `items` that `order`
/// names there. Where `order` is a permutation, so is the result.
pub open spec fn rearranged<T>(items: Seq<T>, order: Seq<int>) -> Seq<T> {
    Seq::new(order.len(), |i: int| items[order[i]])
}

/// Results stay with their inputs: a batch and its answer, rearranged alike,
/// are again a batch and its answer. This holds of every choice of indexes,
/// and so of every permutation.
pub proof fn lemma_rearranged_batch<P, A>(
    arith: &A,
    mean: Seq<P>,
    ecc: Seq<P>,
    sin: Seq<P>,
    cos: Seq<P>,
    order: Seq<int>,
) where
    P: Precision,
    A: Fn(Operation<P>) -> P,

    requires
        selects(order, mean.len()),
        batch_solved(arith, mean, ecc, sin, cos),
    ensures
        batch_solved(
            arith,
            rearranged(mean, order),
            rearranged(ecc, order),
            rearranged(sin, order),
            rearranged(cos, order),
        ),
{
    assert forall|i: int| 0 <= i < order.len() implies #[trigger] solves(
        arith,
        rearranged(mean, order)[i],
        rearranged(ecc, order)[i],
        (rearranged(sin, order)[i], rearranged(cos, order)[i]),
    ) by {
        assert(solves(arith, mean[order[i]], ecc[order[i]], (sin[order[i]], cos[order[i]])));
    }
}

/// Rearranging the inputs rearranges the outputs: with a deterministic
/// arithmetic, the answer to a rearranged batch is the answer to the batch,
/// rearranged in the same way.
pub proof fn lemma_rearranged_answer<P, A>(
    arith: &A,
    mean: Seq<P>,
    ecc: Seq<P>,
    sin: Seq<P>,
    cos: Seq<P>,
    order: Seq<int>,
    sin_after: Seq<P>,
    cos_after: Seq<P>,
) where
    P: Precision,
    A: Fn(Operation<P>) -> P,

    requires
        deterministic(arith),
        selects(order, mean.len()),
        batch_solved(arith, mean, ecc, sin, cos),
        batch_solved(arith, rearranged(mean, order), rearranged(ecc, order), sin_after, cos_after),
    ensures
        sin_after == rearranged(sin, order),
        cos_after == rearranged(cos, order),
{
    assert forall|i: int| 0 <= i < order.len() implies sin_after[i] == sin[order[i]]
        && cos_after[i] == cos[order[i]] by {
        assert(solves(arith, mean[order[i]], ecc[order[i]], (sin[order[i]], cos[order[i]])));
        assert(solves(
            arith,
            rearranged(mean, order)[i],
            rearranged(ecc, order)[i],
            (sin_after[i], cos_after[i]),
        ));
        lemma_solution_unique(
            arith,
            mean[order[i]],
            ecc[order[i]],
            (sin[order[i]], cos[order[i]]),
            (sin_after[i], cos_after[i]),
        );
    }
    assert(sin_after =~= rearranged(sin, order));
    assert(cos_after =~= rearranged(cos, order));
}

/// Pairs are solved independently of each other: a batch cut in two at any
/// index is answered by the two parts of its answer, and two answered batches
/// laid end to end are answered by their answers laid end to end.
pub proof fn lemma_batch_splits<P, A>(
    arith: &A,
    mean: Seq<P>,
    ecc: Seq<P>,
    sin: Seq<P>,
    cos: Seq<P>,
    at: int,
) where
    P: Precision,
    A: Fn(Operation<P>) -> P,

    requires
        0 <= at <= mean.len(),
        ecc.len() == mean.len(),
        sin.len() == mean.len(),
        cos.len() == mean.len(),
    ensures
        batch_solved(arith, mean, ecc, sin, cos) <==> batch_solved(
            arith,
            mean.take(at),
            ecc.take(at),
            sin.take(at),
            cos.take(at),
        ) && batch_solved(arith, mean.skip(at), ecc.skip(at), sin.skip(at), cos.skip(at)),
{
    let len = mean.len() as int;
    if batch_solved(arith, mean, ecc, sin, cos) {
        assert forall|i: int| 0 <= i < at implies #[trigger] solves(
            arith,
            mean.take(at)[i],
            ecc.take(at)[i],
            (sin.take(at)[i], cos.take(at)[i]),
        ) by {
            assert(solves(arith, mean[i], ecc[i], (sin[i], cos[i])));
        }
        assert forall|i: int| 0 <= i < len - at implies #[trigger] solves(
            arith,
            mean.skip(at)[i],
            ecc.skip(at)[i],
            (sin.skip(at)[i], cos.skip(at)[i]),
        ) by {
            assert(solves(arith, mean[at + i], ecc[at + i], (sin[at + i], cos[at + i])));
        }
    }
    if batch_solved(arith, mean.take(at), ecc.take(at), sin.take(at), cos.take(at)) && batch_solved(
        arith,
        mean.skip(at),
        ecc.skip(at),
        sin.skip(at),
        cos.skip(at),
    ) {
        assert forall|i: int| 0 <= i < len implies #[trigger] solves(
            arith,
            mean[i],
            ecc[i],
            (sin[i], cos[i]),
        ) by {
            if i < at {
                assert(solves(
                    arith,
                    mean.take(at)[i],
                    ecc.take(at)[i],
                    (sin.take(at)[i], cos.take(at)[i]),
                ));
            } else {
                assert(solves(
                    arith,
                    mean.skip(at)[i - at],
                    ecc.skip(at)[i - at],
                    (sin.skip(at)[i - at], cos.skip(at)[i - at]),
                ));
            }
        }
    }
}

} // verus!
