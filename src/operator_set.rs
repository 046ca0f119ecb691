use crate::bytes::{all_zero, bytes_lt, is_zero, lex_lt};
use crate::codec::{Address, OperatorSetParams, Uint256};
use crate::error::AuthError;
use vstd::prelude::*;

verus! {

/// A 256-bit integer that fits in 32 bits.
pub open spec fn fits_u32(w: Uint256) -> bool {
    w[1] == 0 && w[2] == 0 && w[3] == 0 && w[0] <= u32::MAX
}

/// The value of a 256-bit integer that fits in 32 bits.
pub open spec fn as_u32(w: Uint256) -> u32 {
    w[0] as u32
}

/// Every weight fits in 32 bits.
pub open spec fn all_fit_u32(ws: Seq<Uint256>) -> bool {
    forall|i: int| 0 <= i < ws.len() ==> fits_u32(#[trigger] ws[i])
}

/// The weights as 32-bit values.
pub open spec fn weights_u32(ws: Seq<Uint256>) -> Seq<u32> {
    ws.map_values(|w: Uint256| as_u32(w))
}

/// Sum of 32-bit weights.
pub open spec fn sum_u32(ws: Seq<u32>) -> int
    decreases ws.len(),
{
    if ws.len() == 0 {
        0
    } else {
        sum_u32(ws.drop_last()) + ws.last()
    }
}

/// Each operator is numerically smaller than the next one: ascending, no duplicates.
pub open spec fn strictly_ascending(ops: Seq<Address>) -> bool {
    forall|i: int| 0 <= i < ops.len() - 1 ==> lex_lt(#[trigger] ops[i]@, ops[i + 1]@)
}

/// A non-empty, strictly ascending operator list whose first address is non-zero.
pub open spec fn valid_operators(ops: Seq<Address>) -> bool {
    ops.len() >= 1 && strictly_ascending(ops) && !all_zero(ops[0]@)
}

/// The outcome of checking an operator set's invariants, in the order operators,
/// weights, threshold; weights and threshold are 32-bit values.
pub open spec fn params_check(ops: Seq<Address>, ws: Seq<Uint256>, th: Uint256) -> Result<
    (),
    AuthError,
> {
    if !valid_operators(ops) {
        Err(AuthError::InvalidOperators)
    } else if ws.len() != ops.len() || !all_fit_u32(ws) {
        Err(AuthError::InvalidWeights)
    } else if !fits_u32(th) || as_u32(th) == 0 || sum_u32(weights_u32(ws)) < as_u32(th) {
        Err(AuthError::InvalidThreshold)
    } else {
        Ok(())
    }
}

proof fn lemma_sum_u32_nonneg(ws: Seq<u32>)
    ensures
        sum_u32(ws) >= 0,
    decreases ws.len(),
{
    if ws.len() > 0 {
        lemma_sum_u32_nonneg(ws.drop_last());
    }
}

proof fn lemma_sum_u32_prefix(ws: Seq<u32>, i: int)
    requires
        0 <= i <= ws.len(),
    ensures
        sum_u32(ws.take(i)) <= sum_u32(ws),
    decreases ws.len() - i,
{
    if i < ws.len() {
        lemma_sum_u32_prefix(ws, i + 1);
        assert(ws.take(i + 1).drop_last() =~= ws.take(i));
    } else {
        assert(ws.take(i) =~= ws);
    }
}

/// Reads a 256-bit integer as 32 bits when it fits.
pub fn to_u32(w: &Uint256) -> (r: Option<u32>)
    ensures
        match r {
            Some(v) => fits_u32(*w) && v == as_u32(*w),
            None => !fits_u32(*w),
        },
{
    if w[1] == 0 && w[2] == 0 && w[3] == 0 && w[0] <= 0xffff_ffffu64 {
        Some(w[0] as u32)
    } else {
        None
    }
}

/// The weights as 32-bit values, when each fits.
pub fn weights_to_u32(ws: &Vec<Uint256>) -> (r: Option<Vec<u32>>)
    ensures
        match r {
            Some(v) => all_fit_u32(ws@) && v@ == weights_u32(ws@),
            None => !all_fit_u32(ws@),
        },
{
    let mut out: Vec<u32> = Vec::new();
    let mut i: usize = 0;
    while i < ws.len()
        invariant
            0 <= i <= ws@.len(),
            forall|j: int| 0 <= j < i ==> fits_u32(#[trigger] ws@[j]),
            out@ == weights_u32(ws@.take(i as int)),
        decreases ws@.len() - i,
    {
        match to_u32(&ws[i]) {
            Some(v) => {
                out.push(v);
            },
            None => {
                return None;
            },
        }
        i = i + 1;
        assert(out@ =~= weights_u32(ws@.take(i as int)));
    }
    assert(ws@.take(i as int) =~= ws@);
    Some(out)
}

/// Whether the operators are strictly ascending and the first one is non-zero.
pub fn is_sorted_asc_and_contains_no_duplicate(accounts: &Vec<Address>) -> (r: bool)
    requires
        accounts@.len() >= 1,
    ensures
        r == (strictly_ascending(accounts@) && !all_zero(accounts@[0]@)),
{
    let n = accounts.len();
    let mut i: usize = 0;
    while i < n - 1
        invariant
            n == accounts@.len(),
            n >= 1,
            0 <= i <= n - 1,
            forall|j: int| 0 <= j < i ==> lex_lt(#[trigger] accounts@[j]@, accounts@[j + 1]@),
        decreases n - 1 - i,
    {
        if !bytes_lt(&accounts[i], &accounts[i + 1]) {
            return false;
        }
        i = i + 1;
    }
    !is_zero(&accounts[0])
}

/// Whether the summed weights reach `threshold`.
pub fn total_weight_reaches(weights: &Vec<u32>, threshold: u32) -> (r: bool)
    ensures
        r == (sum_u32(weights@) >= threshold),
{
    if threshold == 0 {
        proof {
            lemma_sum_u32_nonneg(weights@);
        }
        return true;
    }
    let mut acc: u64 = 0;
    let mut i: usize = 0;
    while i < weights.len()
        invariant
            0 <= i <= weights@.len(),
            acc == sum_u32(weights@.take(i as int)),
            acc < threshold,
        decreases weights@.len() - i,
    {
        assert(weights@.take(i as int + 1).drop_last() =~= weights@.take(i as int));
        acc = acc + weights[i] as u64;
        i = i + 1;
        if acc >= threshold as u64 {
            proof {
                lemma_sum_u32_prefix(weights@, i as int);
            }
            return true;
        }
    }
    assert(weights@.take(i as int) =~= weights@);
    false
}

/// Checks the invariants of an operator set: operators, then weights, then threshold.
pub fn check_params(p: &OperatorSetParams) -> (r: Result<(), AuthError>)
    ensures
        r == params_check(p.operators@, p.weights@, p.threshold),
{
    if p.operators.len() == 0 || !is_sorted_asc_and_contains_no_duplicate(&p.operators) {
        return Err(AuthError::InvalidOperators);
    }
    if p.weights.len() != p.operators.len() {
        return Err(AuthError::InvalidWeights);
    }
    let weights = match weights_to_u32(&p.weights) {
        Some(w) => w,
        None => {
            return Err(AuthError::InvalidWeights);
        },
    };
    let threshold = match to_u32(&p.threshold) {
        Some(t) => t,
        None => {
            return Err(AuthError::InvalidThreshold);
        },
    };
    if threshold == 0 || !total_weight_reaches(&weights, threshold) {
        return Err(AuthError::InvalidThreshold);
    }
    Ok(())
}

} // verus!
