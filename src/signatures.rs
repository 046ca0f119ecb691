use crate::bytes::same_bytes;
use crate::codec::{keccak256, keccak256_of, recover_key, recovered_key, Address, Digest32};
use crate::error::AuthError;
use vstd::prelude::*;

verus! {

/// The recovery id carried by the last signature byte `v`, given either as 27/28 or
/// as 0/1.
pub open spec fn recovery_id(v: u8) -> u8 {
    if v >= 27 {
        (v - 27) as u8
    } else {
        v
    }
}

/// The address that signed `digest` with the 65-byte signature `sig` (r, s, v): the
/// last 20 bytes of the Keccak-256 digest of the recovered public key without its
/// SEC1 tag byte; none when the signature is malformed or recovers no key.
pub open spec fn signer_of(digest: Seq<u8>, sig: Seq<u8>) -> Option<Seq<u8>> {
    if sig.len() != 65 {
        None
    } else {
        match recovered_key(digest, sig.take(64), recovery_id(sig[64])) {
            None => None,
            Some(k) => if k.len() != 65 {
                None
            } else {
                Some(keccak256_of(k.subrange(1, 65)).subrange(12, 32))
            },
        }
    }
}

/// The signer recovered from each signature, in order.
pub open spec fn recovered_signers(digest: Seq<u8>, sigs: Seq<Seq<u8>>) -> Seq<Option<Seq<u8>>> {
    sigs.map_values(|s: Seq<u8>| signer_of(digest, s))
}

/// Copies `src[from..to]`.
fn copy_range(src: &Vec<u8>, from: usize, to: usize) -> (r: Vec<u8>)
    requires
        from <= to <= src@.len(),
    ensures
        r@ == src@.subrange(from as int, to as int),
{
    let mut out: Vec<u8> = Vec::new();
    let mut i: usize = from;
    while i < to
        invariant
            from <= i <= to,
            to <= src@.len(),
            out@ == src@.subrange(from as int, i as int),
        decreases to - i,
    {
        out.push(src[i]);
        i = i + 1;
        assert(out@ =~= src@.subrange(from as int, i as int));
    }
    out
}

/// Recovers the address that signed `message_hash` with `signature` (r, s, v).
pub fn recover(message_hash: &Digest32, signature: &Vec<u8>) -> (r: Option<Address>)
    ensures
        match r {
            Some(a) => signer_of(message_hash@, signature@) == Some(a@),
            None => signer_of(message_hash@, signature@) is None,
        },
{
    if signature.len() != 65 {
        return None;
    }
    let v = signature[64];
    let recid: u8 = if v >= 27 {
        v - 27
    } else {
        v
    };
    let rs = copy_range(signature, 0, 64);
    assert(rs@ =~= signature@.take(64));
    let key = match recover_key(message_hash, rs.as_slice(), recid) {
        Some(k) => k,
        None => {
            return None;
        },
    };
    if key.len() != 65 {
        return None;
    }
    let body = copy_range(&key, 1, 65);
    let digest = keccak256(body.as_slice());
    let mut address: Address = [0u8; 20];
    let mut i: usize = 0;
    while i < 20
        invariant
            0 <= i <= 20,
            digest@.len() == 32,
            address@.len() == 20,
            forall|j: int| 0 <= j < i ==> address@[j] == digest@[12 + j],
        decreases 20 - i,
    {
        address.set(i, digest[12 + i]);
        i = i + 1;
    }
    assert(address@ =~= digest@.subrange(12, 32));
    Some(address)
}

/// The first index at or after `cursor` whose operator is `signer`, or `ops.len()`
/// when there is none.
pub open spec fn find_from(ops: Seq<Address>, cursor: int, signer: Seq<u8>) -> int
    decreases ops.len() - cursor,
{
    if cursor < 0 || cursor >= ops.len() {
        ops.len() as int
    } else if ops[cursor]@ == signer {
        cursor
    } else {
        find_from(ops, cursor + 1, signer)
    }
}

/// The forward merge pass from signature `i`, with the operator cursor at `cursor` and
/// `acc` accumulated so far; `signers[i]` is the signer recovered from signature `i`.
pub open spec fn match_from(
    ops: Seq<Address>,
    weights: Seq<u32>,
    threshold: u32,
    signers: Seq<Option<Seq<u8>>>,
    i: int,
    cursor: int,
    acc: int,
) -> Result<(), AuthError>
    decreases signers.len() - i,
{
    if i < 0 || i >= signers.len() {
        Err(AuthError::InsufficientWeight)
    } else {
        match signers[i] {
            None => Err(AuthError::InvalidSignature),
            Some(s) => {
                let k = find_from(ops, cursor, s);
                if k >= ops.len() {
                    Err(AuthError::UnmatchedSigner)
                } else if acc + weights[k] >= threshold {
                    Ok(())
                } else {
                    match_from(ops, weights, threshold, signers, i + 1, k + 1, acc + weights[k])
                }
            },
        }
    }
}

/// Weighted threshold matching of the signers, recovered one signature at a time in
/// the order given, against the ascending operators: each signer advances a cursor
/// that never moves back, and no signature after the threshold is reached is read.
pub open spec fn signature_match(
    ops: Seq<Address>,
    weights: Seq<u32>,
    threshold: u32,
    signers: Seq<Option<Seq<u8>>>,
) -> Result<(), AuthError> {
    match_from(ops, weights, threshold, signers, 0, 0, 0)
}

/// Checks that the signatures over `message_hash`, recovered in order, carry operator
/// weight reaching `threshold`, walking the operators forward only.
pub fn validate_signatures(
    message_hash: &Digest32,
    operators: &Vec<Address>,
    weights: &Vec<u32>,
    threshold: u32,
    signatures: &Vec<Vec<u8>>,
) -> (r: Result<(), AuthError>)
    requires
        weights@.len() == operators@.len(),
    ensures
        r == signature_match(
            operators@,
            weights@,
            threshold,
            recovered_signers(message_hash@, signatures@.map_values(|s: Vec<u8>| s@)),
        ),
{
    let ghost signers = recovered_signers(
        message_hash@,
        signatures@.map_values(|s: Vec<u8>| s@),
    );
    let n = operators.len();
    let mut cursor: usize = 0;
    let mut acc: u64 = 0;
    let mut i: usize = 0;
    while i < signatures.len()
        invariant
            n == operators@.len(),
            weights@.len() == n,
            0 <= i <= signatures@.len(),
            signers == recovered_signers(message_hash@, signatures@.map_values(|s: Vec<u8>| s@)),
            cursor <= n,
            acc <= u32::MAX,
            signature_match(operators@, weights@, threshold, signers) == match_from(
                operators@,
                weights@,
                threshold,
                signers,
                i as int,
                cursor as int,
                acc as int,
            ),
        decreases signatures@.len() - i,
    {
        assert(signers[i as int] == signer_of(message_hash@, signatures@[i as int]@));
        let signer = match recover(message_hash, &signatures[i]) {
            Some(a) => a,
            None => {
                return Err(AuthError::InvalidSignature);
            },
        };
        let ghost start = cursor as int;
        while cursor < n && !same_bytes(&operators[cursor], &signer)
            invariant
                n == operators@.len(),
                start <= cursor <= n,
                find_from(operators@, start, signer@) == find_from(
                    operators@,
                    cursor as int,
                    signer@,
                ),
            decreases n - cursor,
        {
            cursor = cursor + 1;
        }
        if cursor >= n {
            return Err(AuthError::UnmatchedSigner);
        }
        acc = acc + weights[cursor] as u64;
        if acc >= threshold as u64 {
            return Ok(());
        }
        cursor = cursor + 1;
        i = i + 1;
    }
    Err(AuthError::InsufficientWeight)
}

} // verus!

verus! {

/// No operator occurs twice.
pub open spec fn distinct_operators(ops: Seq<Address>) -> bool {
    forall|i: int, j: int|
        0 <= i < ops.len() && 0 <= j < ops.len() && i != j ==> #[trigger] ops[i]@ != #[trigger] ops[j]@
}

/// `idx` lists operator positions below `bound` in strictly ascending order.
pub open spec fn ascending_indices(idx: Seq<int>, bound: int) -> bool {
    &&& forall|j: int| 0 <= j < idx.len() ==> 0 <= #[trigger] idx[j] < bound
    &&& forall|j: int| 0 <= j < idx.len() - 1 ==> #[trigger] idx[j] < idx[j + 1]
}

/// The summed weight of the first `n` operators picked by `idx`.
pub open spec fn picked_weight(weights: Seq<u32>, idx: Seq<int>, n: int) -> int
    decreases n,
{
    if n <= 0 {
        0
    } else {
        picked_weight(weights, idx, n - 1) + weights[idx[n - 1]]
    }
}

/// The operator cursor after the first `n` picked operators were matched.
pub open spec fn cursor_after(idx: Seq<int>, n: int) -> int {
    if n <= 0 {
        0
    } else {
        idx[n - 1] + 1
    }
}

proof fn lemma_find_distinct(ops: Seq<Address>, c: int, k: int)
    requires
        distinct_operators(ops),
        0 <= c <= k < ops.len(),
    ensures
        find_from(ops, c, ops[k]@) == k,
    decreases k - c,
{
    if c < k {
        assert(ops[c]@ != ops[k]@);
        lemma_find_distinct(ops, c + 1, k);
    }
}

proof fn lemma_find_absent(ops: Seq<Address>, c: int, s: Seq<u8>)
    requires
        0 <= c,
        forall|k: int| c <= k < ops.len() ==> #[trigger] ops[k]@ != s,
    ensures
        find_from(ops, c, s) == ops.len(),
    decreases ops.len() - c,
{
    if c < ops.len() {
        assert(ops[c]@ != s);
        lemma_find_absent(ops, c + 1, s);
    }
}

proof fn lemma_picked_weight_monotone(weights: Seq<u32>, idx: Seq<int>, m: int, n: int)
    requires
        0 <= m <= n,
    ensures
        picked_weight(weights, idx, m) <= picked_weight(weights, idx, n),
    decreases n - m,
{
    if m < n {
        lemma_picked_weight_monotone(weights, idx, m, n - 1);
    }
}

/// While the picked prefix stays below the threshold, matching its signers in order
/// only moves the cursor past each picked operator.
proof fn lemma_match_prefix(
    ops: Seq<Address>,
    weights: Seq<u32>,
    threshold: u32,
    signers: Seq<Option<Seq<u8>>>,
    idx: Seq<int>,
    n: int,
)
    requires
        distinct_operators(ops),
        ascending_indices(idx, ops.len() as int),
        0 <= n <= idx.len(),
        n <= signers.len(),
        forall|j: int| 0 <= j < n ==> #[trigger] signers[j] == Some(ops[idx[j]]@),
        picked_weight(weights, idx, n) < threshold,
    ensures
        signature_match(ops, weights, threshold, signers) == match_from(
            ops,
            weights,
            threshold,
            signers,
            n,
            cursor_after(idx, n),
            picked_weight(weights, idx, n),
        ),
    decreases n,
{
    if n > 0 {
        let i = n - 1;
        lemma_picked_weight_monotone(weights, idx, i, n);
        lemma_match_prefix(ops, weights, threshold, signers, idx, i);
        assert(cursor_after(idx, i) <= idx[i]);
        lemma_find_distinct(ops, cursor_after(idx, i), idx[i]);
    }
}

proof fn lemma_match_reaches(
    ops: Seq<Address>,
    weights: Seq<u32>,
    threshold: u32,
    signers: Seq<Option<Seq<u8>>>,
    idx: Seq<int>,
    n: int,
)
    requires
        distinct_operators(ops),
        ascending_indices(idx, ops.len() as int),
        idx.len() == signers.len(),
        0 <= n <= idx.len(),
        forall|j: int| 0 <= j < idx.len() ==> #[trigger] signers[j] == Some(ops[idx[j]]@),
        picked_weight(weights, idx, n) < threshold <= picked_weight(weights, idx, idx.len() as int),
    ensures
        match_from(
            ops,
            weights,
            threshold,
            signers,
            n,
            cursor_after(idx, n),
            picked_weight(weights, idx, n),
        ) == Ok::<(), AuthError>(()),
    decreases idx.len() - n,
{
    assert(n < idx.len());
    assert(cursor_after(idx, n) <= idx[n]);
    lemma_find_distinct(ops, cursor_after(idx, n), idx[n]);
    if picked_weight(weights, idx, n + 1) < threshold {
        lemma_match_reaches(ops, weights, threshold, signers, idx, n + 1);
    }
}

/// Signatures of distinct operators, given in ascending operator order, whose summed
/// weight reaches a non-zero threshold, are accepted.
pub proof fn lemma_ordered_quorum_accepted(
    ops: Seq<Address>,
    weights: Seq<u32>,
    threshold: u32,
    signers: Seq<Option<Seq<u8>>>,
    idx: Seq<int>,
)
    requires
        distinct_operators(ops),
        weights.len() == ops.len(),
        threshold > 0,
        ascending_indices(idx, ops.len() as int),
        idx.len() == signers.len(),
        forall|j: int| 0 <= j < idx.len() ==> #[trigger] signers[j] == Some(ops[idx[j]]@),
        picked_weight(weights, idx, idx.len() as int) >= threshold,
    ensures
        signature_match(ops, weights, threshold, signers) == Ok::<(), AuthError>(()),
{
    lemma_match_prefix(ops, weights, threshold, signers, idx, 0);
    lemma_match_reaches(ops, weights, threshold, signers, idx, 0);
}

/// Once signatures of operators `idx[0] < ... < idx[m]` have been matched without
/// reaching the threshold, a signature of an operator before `idx[m]` is rejected as
/// unmatched: the cursor never moves back.
pub proof fn lemma_out_of_order_rejected(
    ops: Seq<Address>,
    weights: Seq<u32>,
    threshold: u32,
    signers: Seq<Option<Seq<u8>>>,
    idx: Seq<int>,
    a: int,
)
    requires
        distinct_operators(ops),
        weights.len() == ops.len(),
        ascending_indices(idx, ops.len() as int),
        idx.len() >= 1,
        signers.len() > idx.len(),
        forall|j: int| 0 <= j < idx.len() ==> #[trigger] signers[j] == Some(ops[idx[j]]@),
        picked_weight(weights, idx, idx.len() as int) < threshold,
        0 <= a < idx[idx.len() - 1],
        signers[idx.len() as int] == Some(ops[a]@),
    ensures
        signature_match(ops, weights, threshold, signers) == Err::<(), AuthError>(
            AuthError::UnmatchedSigner,
        ),
{
    let n = idx.len() as int;
    lemma_match_prefix(ops, weights, threshold, signers, idx, n);
    assert forall|k: int| cursor_after(idx, n) <= k < ops.len() implies #[trigger] ops[k]@
        != ops[a]@ by {
        assert(ops[k]@ != ops[a]@);
    }
    lemma_find_absent(ops, cursor_after(idx, n), ops[a]@);
}

} // verus!
