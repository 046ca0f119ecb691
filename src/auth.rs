use crate::bytes::same_slice;
use crate::codec::{
    abi_decode_params, abi_decode_proof, abi_decoded_params, abi_decoded_proof, abi_encode_params,
    abi_encoded_params, keccak256, keccak256_of, Address, OperatorSetParams, Proof, Uint256,
};
use crate::error::AuthError;
use crate::operator_set::{
    all_fit_u32, as_u32, check_params, fits_u32, params_check, sum_u32, to_u32, valid_operators,
    weights_to_u32, weights_u32,
};
use crate::registry::{
    epoch_of, lemma_commit_next_epoch, lemma_epoch_of_committed, unique_fingerprints, Registry,
};
use crate::signatures::{
    ascending_indices, distinct_operators, lemma_ordered_quorum_accepted,
    lemma_out_of_order_rejected, picked_weight, recovered_signers, signature_match,
    validate_signatures,
};
use vstd::prelude::*;

verus! {

/// How many rotations a superseded operator set stays checkable for.
pub const OLD_KEY_RETENTION: u8 = 16;

/// The outcome of a rotation with the encoded parameters `params` on the history `h`:
/// decoding, the operator-set invariants, then freshness of the fingerprint.
pub open spec fn rotation_check(h: Seq<Seq<u8>>, params: Seq<u8>) -> Result<(), AuthError> {
    match abi_decoded_params(params) {
        None => Err(AuthError::MalformedParams),
        Some(t) => match params_check(t.0, t.1, t.2) {
            Err(e) => Err(e),
            Ok(_) => if epoch_of(h, keccak256_of(params)) != 0 {
                Err(AuthError::DuplicateOperators)
            } else {
                Ok(())
            },
        },
    }
}

/// The history after a rotation with `params`, or why it fails.
pub open spec fn rotated(h: Seq<Seq<u8>>, params: Seq<u8>) -> Result<Seq<Seq<u8>>, AuthError> {
    match rotation_check(h, params) {
        Err(e) => Err(e),
        Ok(_) => Ok(h.push(keccak256_of(params))),
    }
}

/// The history after rotating with each of `ps` in turn, or the first failure.
pub open spec fn rotated_all(h: Seq<Seq<u8>>, ps: Seq<Seq<u8>>) -> Result<Seq<Seq<u8>>, AuthError>
    decreases ps.len(),
{
    if ps.len() == 0 {
        Ok(h)
    } else {
        match rotated_all(h, ps.drop_last()) {
            Err(e) => Err(e),
            Ok(h2) => rotated(h2, ps.last()),
        }
    }
}

/// The fingerprint of an operator set given as values: the digest of its encoding.
pub open spec fn fingerprint_of(ops: Seq<Address>, ws: Seq<Uint256>, th: Uint256) -> Seq<u8> {
    keccak256_of(abi_encoded_params(ops, ws, th))
}

/// The operator set of a proof can be read as 32-bit weights and threshold.
pub open spec fn proof_set_fits(ops: Seq<Address>, ws: Seq<Uint256>, th: Uint256) -> bool {
    &&& ws.len() == ops.len()
    &&& fits_u32(th)
    &&& all_fit_u32(ws)
}

/// The outcome of validating a proof whose operator set is `(ops, ws, th)` and whose
/// signatures recover, one at a time and in order, to `signers`, against the history
/// `h`.
pub open spec fn proof_outcome(
    h: Seq<Seq<u8>>,
    ops: Seq<Address>,
    ws: Seq<Uint256>,
    th: Uint256,
    signers: Seq<Option<Seq<u8>>>,
) -> Result<bool, AuthError> {
    let e = epoch_of(h, fingerprint_of(ops, ws, th));
    if e == 0 || h.len() - e >= OLD_KEY_RETENTION {
        Ok(false)
    } else if !proof_set_fits(ops, ws, th) {
        Err(AuthError::MalformedProof)
    } else {
        match signature_match(ops, weights_u32(ws), as_u32(th), signers) {
            Err(x) => Err(x),
            Ok(_) => Ok(e == h.len()),
        }
    }
}

/// A committed rotation, as published to the event sink.
pub struct OperatorshipTransferred {
    pub epoch: u64,
    pub operators: Vec<Address>,
    pub weights: Vec<Uint256>,
    pub threshold: Uint256,
}

/// The weighted multi-signature authority: an owner and the operator-set registry.
pub struct AxelarAuthWeighted {
    owner: Vec<u8>,
    registry: Registry,
}

impl View for AxelarAuthWeighted {
    type V = Seq<Seq<u8>>;

    /// The committed fingerprints; epoch `e` holds entry `e - 1`.
    closed spec fn view(&self) -> Seq<Seq<u8>> {
        self.registry@
    }
}

/// Decodes a proof `(address[], uint256[], uint256, bytes[])`.
pub fn decode_proof(proof: &[u8]) -> (r: Result<Proof, AuthError>)
    ensures
        match r {
            Ok(p) => abi_decoded_proof(proof@) == Some(
                (
                    p.params.operators@,
                    p.params.weights@,
                    p.params.threshold,
                    p.signatures@.map_values(|s: Vec<u8>| s@),
                ),
            ),
            Err(e) => e == AuthError::MalformedProof && abi_decoded_proof(proof@) is None,
        },
{
    match abi_decode_proof(proof) {
        Ok((operators, weights, threshold, signatures)) => Ok(
            Proof { params: OperatorSetParams { operators, weights, threshold }, signatures },
        ),
        Err(_) => Err(AuthError::MalformedProof),
    }
}

/// Decodes rotation parameters `(address[], uint256[], uint256)`.
pub fn decode_params(params: &[u8]) -> (r: Result<OperatorSetParams, AuthError>)
    ensures
        match r {
            Ok(p) => abi_decoded_params(params@) == Some(p.view_tuple()),
            Err(e) => e == AuthError::MalformedParams && abi_decoded_params(params@) is None,
        },
{
    match abi_decode_params(params) {
        Ok(p) => Ok(p),
        Err(_) => Err(AuthError::MalformedParams),
    }
}

/// The fingerprint of an operator set: the Keccak-256 digest of its canonical encoding.
pub fn fingerprint(p: &OperatorSetParams) -> (r: [u8; 32])
    ensures
        r@ == fingerprint_of(p.operators@, p.weights@, p.threshold),
{
    let encoded = abi_encode_params(p);
    keccak256(encoded.as_slice())
}

impl AxelarAuthWeighted {
    /// The registry's invariant holds.
    pub closed spec fn wf(&self) -> bool {
        self.registry.wf()
    }

    /// The identity that may rotate operators.
    pub closed spec fn owner(&self) -> Seq<u8> {
        self.owner@
    }

    /// Committed fingerprints are unique.
    pub proof fn lemma_unique(&self)
        requires
            self.wf(),
        ensures
            unique_fingerprints(self@),
    {
        self.registry.lemma_unique();
    }

    /// An authority owned by `owner`, seeded with each encoded operator set of
    /// `recent_operators` in turn (epochs 1 to N).
    pub fn new(owner: Vec<u8>, recent_operators: Vec<Vec<u8>>) -> (r: Result<Self, AuthError>)
        ensures
            match rotated_all(Seq::empty(), recent_operators@.map_values(|p: Vec<u8>| p@)) {
                Ok(h) => r is Ok && r->Ok_0.wf() && r->Ok_0@ == h && r->Ok_0.owner() == owner@,
                Err(e) => r == Err::<Self, AuthError>(e),
            },
    {
        let ghost ps = recent_operators@.map_values(|p: Vec<u8>| p@);
        let mut contract = AxelarAuthWeighted { owner, registry: Registry::new() };
        let mut i: usize = 0;
        while i < recent_operators.len()
            invariant
                0 <= i <= recent_operators@.len(),
                ps == recent_operators@.map_values(|p: Vec<u8>| p@),
                contract.wf(),
                contract@.len() == i,
                rotated_all(Seq::empty(), ps.take(i as int)) == Ok::<Seq<Seq<u8>>, AuthError>(
                    contract@,
                ),
                contract.owner() == owner@,
            decreases recent_operators@.len() - i,
        {
            assert(ps.take(i as int + 1).drop_last() =~= ps.take(i as int));
            let caller = contract.owner.clone();
            match contract.transfer_operatorship(caller.as_slice(), recent_operators[i].clone()) {
                Ok(_) => {},
                Err(e) => {
                    proof {
                        lemma_rotated_all_stops(ps, i as int);
                    }
                    return Err(e);
                },
            }
            i = i + 1;
        }
        assert(ps.take(i as int) =~= ps);
        Ok(contract)
    }

    /// The highest committed epoch.
    pub fn current_epoch(&self) -> (r: u64)
        requires
            self.wf(),
        ensures
            r == self@.len(),
    {
        self.registry.current_epoch()
    }

    /// The epoch at which `fingerprint` was committed, or 0 if it never was.
    pub fn lookup_epoch(&self, fingerprint: &[u8; 32]) -> (r: u64)
        requires
            self.wf(),
        ensures
            r == epoch_of(self@, fingerprint@),
    {
        self.registry.lookup_epoch(fingerprint)
    }

    /// The fingerprint committed at `epoch`, if any.
    pub fn lookup_fingerprint(&self, epoch: u64) -> (r: Option<[u8; 32]>)
        requires
            self.wf(),
        ensures
            match r {
                Some(d) => 1 <= epoch <= self@.len() && d@ == self@[epoch - 1],
                None => !(1 <= epoch <= self@.len()),
            },
    {
        self.registry.lookup_fingerprint(epoch)
    }

    /// Validates `proof`, an encoded `(address[], uint256[], uint256, bytes[])`, as
    /// signed over `message_hash`. `Ok(false)` rejects a proof whose operator set is
    /// unknown, retention-expired or superseded; an error is a fault.
    pub fn validate_proof(&self, message_hash: [u8; 32], proof: &[u8]) -> (r: Result<
        bool,
        AuthError,
    >)
        requires
            self.wf(),
        ensures
            match abi_decoded_proof(proof@) {
                None => r == Err::<bool, AuthError>(AuthError::MalformedProof),
                Some(t) => r == proof_outcome(
                    self@,
                    t.0,
                    t.1,
                    t.2,
                    recovered_signers(message_hash@, t.3),
                ),
            },
    {
        let proof = decode_proof(proof)?;
        let p = &proof.params;
        let operators_hash = fingerprint(p);
        let operators_epoch = self.registry.lookup_epoch(&operators_hash);
        let epoch = self.registry.current_epoch();
        if operators_epoch == 0 || epoch - operators_epoch >= OLD_KEY_RETENTION as u64 {
            return Ok(false);
        }
        if p.weights.len() != p.operators.len() {
            return Err(AuthError::MalformedProof);
        }
        let threshold = match to_u32(&p.threshold) {
            Some(t) => t,
            None => {
                return Err(AuthError::MalformedProof);
            },
        };
        let weights = match weights_to_u32(&p.weights) {
            Some(w) => w,
            None => {
                return Err(AuthError::MalformedProof);
            },
        };
        match validate_signatures(&message_hash, &p.operators, &weights, threshold, &proof.signatures) {
            Ok(()) => Ok(operators_epoch == epoch),
            Err(e) => Err(e),
        }
    }

    /// Rotates to the operator set encoded in `params`, if `caller` is the owner: checks
    /// the set's invariants, commits its fingerprint (the digest of `params` itself) at
    /// the next epoch and returns what the rotation event publishes. On any error
    /// nothing changes.
    pub fn transfer_operatorship(&mut self, caller: &[u8], params: Vec<u8>) -> (r: Result<
        OperatorshipTransferred,
        AuthError,
    >)
        requires
            old(self).wf(),
            old(self)@.len() < u64::MAX,
        ensures
            final(self).wf(),
            final(self).owner() == old(self).owner(),
            caller@ != old(self).owner() ==> r is Err && r->Err_0 == AuthError::NotOwner
                && final(self)@ == old(self)@,
            caller@ == old(self).owner() ==> match rotated(old(self)@, params@) {
                Err(e) => r is Err && r->Err_0 == e && final(self)@ == old(self)@,
                Ok(h) => r is Ok && final(self)@ == h && r->Ok_0.epoch == h.len()
                    && abi_decoded_params(params@) == Some(
                    (r->Ok_0.operators@, r->Ok_0.weights@, r->Ok_0.threshold),
                ),
            },
    {
        if !same_slice(caller, self.owner.as_slice()) {
            return Err(AuthError::NotOwner);
        }
        self.internal_transfer_operatorship(params)
    }

    fn internal_transfer_operatorship(&mut self, params: Vec<u8>) -> (r: Result<
        OperatorshipTransferred,
        AuthError,
    >)
        requires
            old(self).wf(),
            old(self)@.len() < u64::MAX,
        ensures
            final(self).wf(),
            final(self).owner() == old(self).owner(),
            match rotated(old(self)@, params@) {
                Err(e) => r is Err && r->Err_0 == e && final(self)@ == old(self)@,
                Ok(h) => r is Ok && final(self)@ == h && r->Ok_0.epoch == h.len()
                    && abi_decoded_params(params@) == Some(
                    (r->Ok_0.operators@, r->Ok_0.weights@, r->Ok_0.threshold),
                ),
            },
    {
        let p = decode_params(params.as_slice())?;
        check_params(&p)?;
        let new_operators_hash = keccak256(params.as_slice());
        let epoch = self.registry.commit(new_operators_hash)?;
        Ok(
            OperatorshipTransferred {
                epoch,
                operators: p.operators,
                weights: p.weights,
                threshold: p.threshold,
            },
        )
    }
}

proof fn lemma_rotated_all_stops(ps: Seq<Seq<u8>>, i: int)
    requires
        0 <= i < ps.len(),
        rotated_all(Seq::empty(), ps.take(i + 1)) is Err,
    ensures
        rotated_all(Seq::empty(), ps) == rotated_all(Seq::empty(), ps.take(i + 1)),
    decreases ps.len() - i,
{
    if i + 1 < ps.len() {
        assert(ps.take(i + 2).drop_last() =~= ps.take(i + 1));
        lemma_rotated_all_stops(ps, i + 1);
    } else {
        assert(ps.take(i + 1) =~= ps);
    }
}

/// Seeding with operator sets in turn, when it succeeds, commits the `i`-th of them at
/// epoch `i + 1`: epochs are assigned 1, 2, 3, ... with no gap and no reuse.
pub proof fn lemma_seeded_epochs(ps: Seq<Seq<u8>>)
    ensures
        match rotated_all(Seq::empty(), ps) {
            Ok(h) => h.len() == ps.len() && unique_fingerprints(h) && forall|i: int|
                0 <= i < ps.len() ==> epoch_of(h, keccak256_of(#[trigger] ps[i])) == i + 1,
            Err(_) => true,
        },
{
    lemma_rotated_all_history(ps);
    if let Ok(h) = rotated_all(Seq::empty(), ps) {
        assert forall|i: int| 0 <= i < ps.len() implies epoch_of(h, keccak256_of(#[trigger] ps[i]))
            == i + 1 by {
            lemma_epoch_of_committed(h, i + 1);
        }
    }
}

proof fn lemma_rotated_all_history(ps: Seq<Seq<u8>>)
    ensures
        match rotated_all(Seq::empty(), ps) {
            Ok(h) => h.len() == ps.len() && unique_fingerprints(h) && forall|i: int|
                0 <= i < ps.len() ==> h[i] == keccak256_of(#[trigger] ps[i]),
            Err(_) => true,
        },
    decreases ps.len(),
{
    if ps.len() > 0 {
        let prev = ps.drop_last();
        lemma_rotated_all_history(prev);
        if let Ok(h) = rotated_all(Seq::empty(), prev) {
            if let Ok(h2) = rotated(h, ps.last()) {
                lemma_commit_next_epoch(h, keccak256_of(ps.last()), keccak256_of(ps.last()));
                assert forall|i: int| 0 <= i < ps.len() implies h2[i] == keccak256_of(
                    #[trigger] ps[i],
                ) by {
                    if i < prev.len() {
                        assert(prev[i] == ps[i]);
                    }
                }
            }
        }
    }
}

/// A rotation commits its fingerprint, the digest of the encoded parameters, at the
/// next epoch, and leaves the epoch of every other fingerprint unchanged.
pub proof fn lemma_rotation_next_epoch(h: Seq<Seq<u8>>, params: Seq<u8>, g: Seq<u8>)
    requires
        unique_fingerprints(h),
        rotated(h, params) is Ok,
    ensures
        unique_fingerprints(rotated(h, params)->Ok_0),
        epoch_of(rotated(h, params)->Ok_0, keccak256_of(params)) == h.len() + 1,
        g != keccak256_of(params) ==> epoch_of(rotated(h, params)->Ok_0, g) == epoch_of(h, g),
{
    lemma_commit_next_epoch(h, keccak256_of(params), g);
}

/// Rotation rejects a decoded operator set whose operators are empty, unsorted,
/// duplicated or start at the zero address; then one whose weights differ in number
/// from its operators or do not fit in 32 bits; then one whose threshold is zero, does
/// not fit in 32 bits, or is above the total weight.
pub proof fn lemma_rotation_rejects_invalid_sets(
    h: Seq<Seq<u8>>,
    params: Seq<u8>,
    ops: Seq<Address>,
    ws: Seq<Uint256>,
    th: Uint256,
)
    requires
        abi_decoded_params(params) == Some((ops, ws, th)),
    ensures
        !valid_operators(ops) ==> rotated(h, params) == Err::<Seq<Seq<u8>>, AuthError>(
            AuthError::InvalidOperators,
        ),
        valid_operators(ops) && (ws.len() != ops.len() || !all_fit_u32(ws)) ==> rotated(h, params)
            == Err::<Seq<Seq<u8>>, AuthError>(AuthError::InvalidWeights),
        valid_operators(ops) && ws.len() == ops.len() && all_fit_u32(ws) && (!fits_u32(th)
            || as_u32(th) == 0 || sum_u32(weights_u32(ws)) < as_u32(th)) ==> rotated(h, params)
            == Err::<Seq<Seq<u8>>, AuthError>(AuthError::InvalidThreshold),
{
}

/// Rotating twice with the same encoded parameters fails the second time as a
/// duplicate, which leaves the history, and so the epoch, as it was.
pub proof fn lemma_rotation_not_repeatable(h: Seq<Seq<u8>>, params: Seq<u8>)
    requires
        rotated(h, params) is Ok,
    ensures
        rotated(rotated(h, params)->Ok_0, params) == Err::<Seq<Seq<u8>>, AuthError>(
            AuthError::DuplicateOperators,
        ),
{
    let h2 = rotated(h, params)->Ok_0;
    assert(h2[h.len() as int] == keccak256_of(params));
}

/// A proof of the current epoch's operator set, whose signatures come from distinct
/// operators in ascending operator order and carry weight reaching its non-zero
/// threshold, is accepted.
pub proof fn lemma_current_quorum_accepted(
    h: Seq<Seq<u8>>,
    ops: Seq<Address>,
    ws: Seq<Uint256>,
    th: Uint256,
    signers: Seq<Option<Seq<u8>>>,
    idx: Seq<int>,
)
    requires
        unique_fingerprints(h),
        h.len() >= 1,
        h.last() == fingerprint_of(ops, ws, th),
        proof_set_fits(ops, ws, th),
        as_u32(th) > 0,
        distinct_operators(ops),
        ascending_indices(idx, ops.len() as int),
        idx.len() == signers.len(),
        forall|j: int| 0 <= j < idx.len() ==> #[trigger] signers[j] == Some(ops[idx[j]]@),
        picked_weight(weights_u32(ws), idx, idx.len() as int) >= as_u32(th),
    ensures
        proof_outcome(h, ops, ws, th, signers) == Ok::<bool, AuthError>(true),
{
    lemma_epoch_of_committed(h, h.len() as int);
    lemma_ordered_quorum_accepted(
        ops,
        weights_u32(ws),
        as_u32(th),
        signers,
        idx,
    );
}

/// A proof of a live operator set whose signatures go back to an operator before one
/// already matched, while the weight matched so far is below the threshold, fails as
/// unmatched.
pub proof fn lemma_out_of_order_proof_rejected(
    h: Seq<Seq<u8>>,
    ops: Seq<Address>,
    ws: Seq<Uint256>,
    th: Uint256,
    signers: Seq<Option<Seq<u8>>>,
    idx: Seq<int>,
    a: int,
)
    requires
        unique_fingerprints(h),
        1 <= epoch_of(h, fingerprint_of(ops, ws, th)),
        h.len() - epoch_of(h, fingerprint_of(ops, ws, th)) < OLD_KEY_RETENTION,
        proof_set_fits(ops, ws, th),
        distinct_operators(ops),
        ascending_indices(idx, ops.len() as int),
        idx.len() >= 1,
        signers.len() > idx.len(),
        forall|j: int| 0 <= j < idx.len() ==> #[trigger] signers[j] == Some(ops[idx[j]]@),
        picked_weight(weights_u32(ws), idx, idx.len() as int) < as_u32(th),
        0 <= a < idx[idx.len() - 1],
        signers[idx.len() as int] == Some(ops[a]@),
    ensures
        proof_outcome(h, ops, ws, th, signers) == Err::<bool, AuthError>(
            AuthError::UnmatchedSigner,
        ),
{
    lemma_out_of_order_rejected(
        ops,
        weights_u32(ws),
        as_u32(th),
        signers,
        idx,
        a,
    );
}

/// A proof of the operator set committed at epoch `e` is accepted as current only
/// while `e` is the current epoch, and is rejected outright once 16 or more rotations
/// have superseded it.
pub proof fn lemma_superseded_proof(
    h: Seq<Seq<u8>>,
    ops: Seq<Address>,
    ws: Seq<Uint256>,
    th: Uint256,
    signers: Seq<Option<Seq<u8>>>,
    e: int,
)
    requires
        unique_fingerprints(h),
        1 <= e <= h.len(),
        h[e - 1] == fingerprint_of(ops, ws, th),
    ensures
        proof_outcome(h, ops, ws, th, signers) == Ok::<bool, AuthError>(true) ==> e == h.len(),
        h.len() - e >= OLD_KEY_RETENTION ==> proof_outcome(h, ops, ws, th, signers) == Ok::<
            bool,
            AuthError,
        >(false),
{
    lemma_epoch_of_committed(h, e);
}

} // verus!
