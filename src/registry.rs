use crate::bytes::same_bytes;
use crate::codec::Digest32;
use crate::error::AuthError;
use vstd::prelude::*;

verus! {

/// The epoch of fingerprint `f` in the history `h` (epoch `e` holds `h[e - 1]`), or 0
/// when it was never committed.
pub open spec fn epoch_of(h: Seq<Seq<u8>>, f: Seq<u8>) -> int {
    if exists|i: int| 0 <= i < h.len() && #[trigger] h[i] == f {
        (choose|i: int| 0 <= i < h.len() && #[trigger] h[i] == f) + 1
    } else {
        0
    }
}

/// No fingerprint occurs twice in the history.
pub open spec fn unique_fingerprints(h: Seq<Seq<u8>>) -> bool {
    forall|i: int, j: int|
        0 <= i < h.len() && 0 <= j < h.len() && #[trigger] h[i] == #[trigger] h[j] ==> i == j
}

/// The fingerprint committed at `epoch`, if any.
pub open spec fn fingerprint_at(h: Seq<Seq<u8>>, epoch: int) -> Option<Seq<u8>> {
    if 1 <= epoch <= h.len() {
        Some(h[epoch - 1])
    } else {
        None
    }
}

/// In a history of unique fingerprints, the fingerprint committed `e`-th has epoch `e`:
/// epochs run 1, 2, 3, ... in commit order, with no gap and no reuse.
pub proof fn lemma_epoch_of_committed(h: Seq<Seq<u8>>, e: int)
    requires
        unique_fingerprints(h),
        1 <= e <= h.len(),
    ensures
        epoch_of(h, h[e - 1]) == e,
{
    assert(h[e - 1] == h[e - 1]);
}

/// A fingerprint has epoch 0 exactly when it was never committed.
pub proof fn lemma_epoch_zero_iff_uncommitted(h: Seq<Seq<u8>>, f: Seq<u8>)
    ensures
        (epoch_of(h, f) == 0) == !h.contains(f),
{
    if h.contains(f) {
        let i = choose|i: int| 0 <= i < h.len() && h[i] == f;
        assert(h[i] == f);
    }
}

/// Committing a fingerprint not yet committed keeps fingerprints unique, gives it the
/// next epoch, and leaves the epoch of every other fingerprint unchanged.
pub proof fn lemma_commit_next_epoch(h: Seq<Seq<u8>>, f: Seq<u8>, g: Seq<u8>)
    requires
        unique_fingerprints(h),
        epoch_of(h, f) == 0,
    ensures
        unique_fingerprints(h.push(f)),
        epoch_of(h.push(f), f) == h.len() + 1,
        g != f ==> epoch_of(h.push(f), g) == epoch_of(h, g),
{
    let h2 = h.push(f);
    assert forall|i: int, j: int|
        0 <= i < h2.len() && 0 <= j < h2.len() && #[trigger] h2[i] == #[trigger] h2[j] implies i
        == j by {
        if i < h.len() && j == h.len() {
            assert(h[i] == f);
        }
        if j < h.len() && i == h.len() {
            assert(h[j] == f);
        }
    }
    lemma_epoch_of_committed(h2, h.len() + 1 as int);
    assert(h2[h.len() as int] == f);
    if g != f {
        if exists|i: int| 0 <= i < h.len() && #[trigger] h[i] == g {
            let c = choose|i: int| 0 <= i < h.len() && #[trigger] h[i] == g;
            assert(h2[c] == g);
            let c2 = choose|i: int| 0 <= i < h2.len() && #[trigger] h2[i] == g;
            assert(c2 == c);
        } else {
            assert forall|i: int| 0 <= i < h2.len() implies #[trigger] h2[i] != g by {
                if i < h.len() {
                    assert(h[i] != g);
                }
            }
        }
    }
}

/// Epoch-indexed store of operator-set fingerprints. Epoch 0 is never assigned; epoch
/// `e >= 1` holds the fingerprint of the `e`-th committed operator set.
pub struct Registry {
    current_epoch: u64,
    hashes: Vec<Digest32>,
}

impl View for Registry {
    type V = Seq<Seq<u8>>;

    closed spec fn view(&self) -> Seq<Seq<u8>> {
        self.hashes@.map_values(|d: Digest32| d@)
    }
}

impl Registry {
    /// The current epoch agrees with the history, whose fingerprints are unique.
    pub closed spec fn wf(&self) -> bool {
        &&& self.current_epoch == self.hashes@.len()
        &&& unique_fingerprints(self@)
    }

    /// Committed fingerprints are unique.
    pub proof fn lemma_unique(&self)
        requires
            self.wf(),
        ensures
            unique_fingerprints(self@),
    {
    }

    /// An empty registry at epoch 0.
    pub fn new() -> (r: Registry)
        ensures
            r.wf(),
            r@ == Seq::<Seq<u8>>::empty(),
    {
        Registry { current_epoch: 0, hashes: Vec::new() }
    }

    /// The highest committed epoch.
    pub fn current_epoch(&self) -> (r: u64)
        requires
            self.wf(),
        ensures
            r == self@.len(),
    {
        self.current_epoch
    }

    /// The epoch at which `fingerprint` was committed, or 0 if it never was.
    pub fn lookup_epoch(&self, fingerprint: &Digest32) -> (r: u64)
        requires
            self.wf(),
        ensures
            r == epoch_of(self@, fingerprint@),
    {
        let mut i: usize = 0;
        while i < self.hashes.len()
            invariant
                self.wf(),
                0 <= i <= self.hashes@.len(),
                forall|j: int| 0 <= j < i ==> #[trigger] self@[j] != fingerprint@,
            decreases self.hashes@.len() - i,
        {
            if same_bytes(&self.hashes[i], fingerprint) {
                let ghost c = choose|j: int|
                    0 <= j < self@.len() && #[trigger] self@[j] == fingerprint@;
                assert(self@[i as int] == fingerprint@);
                assert(c == i);
                return (i + 1) as u64;
            }
            i = i + 1;
        }
        0
    }

    /// The fingerprint committed at `epoch`, if any.
    pub fn lookup_fingerprint(&self, epoch: u64) -> (r: Option<Digest32>)
        requires
            self.wf(),
        ensures
            match r {
                Some(d) => fingerprint_at(self@, epoch as int) == Some(d@),
                None => fingerprint_at(self@, epoch as int) is None,
            },
    {
        if epoch >= 1 && epoch <= self.current_epoch {
            let i: usize = self.hashes.len() - (self.current_epoch - epoch) as usize - 1;
            Some(self.hashes[i])
        } else {
            None
        }
    }

    /// Assigns the next epoch to a fingerprint not yet committed.
    pub fn commit(&mut self, fingerprint: Digest32) -> (r: Result<u64, AuthError>)
        requires
            old(self).wf(),
            old(self)@.len() < u64::MAX,
        ensures
            final(self).wf(),
            epoch_of(old(self)@, fingerprint@) != 0 ==> r == Err::<u64, AuthError>(
                AuthError::DuplicateOperators,
            ) && final(self)@ == old(self)@,
            epoch_of(old(self)@, fingerprint@) == 0 ==> r == Ok::<u64, AuthError>(
                (old(self)@.len() + 1) as u64,
            ) && final(self)@ == old(self)@.push(fingerprint@),
    {
        if self.lookup_epoch(&fingerprint) > 0 {
            return Err(AuthError::DuplicateOperators);
        }
        let epoch = self.current_epoch + 1;
        let ghost h = self@;
        self.hashes.push(fingerprint);
        self.current_epoch = epoch;
        assert(self@ =~= h.push(fingerprint@));
        assert forall|i: int, j: int|
            0 <= i < self@.len() && 0 <= j < self@.len() && #[trigger] self@[i] == #[trigger] self@[j]
                implies i == j by {
            if i < h.len() && j == h.len() {
                assert(h[i] == fingerprint@);
            }
            if j < h.len() && i == h.len() {
                assert(h[j] == fingerprint@);
            }
        }
        Ok(epoch)
    }
}

} // verus!
