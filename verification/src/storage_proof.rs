//! The storage-proof model: a witness that claims specific key/value data
//! is part of the state a root commits to, and its all-or-nothing
//! verification.
//!
//! Verification is a pure function of the root and the witness: it never
//! trusts part of a failing proof, and it does not care how recent the
//! root is — only that the caller obtained it from a finalized header.

use vstd::prelude::*;

verus! {

/// One claimed key/value pair of a witness.
pub struct StorageItem {
    /// The storage key.
    pub key: u64,
    /// The committed bytes under that key.
    pub value: Vec<u8>,
}

/// A storage-proof witness: the root it commits to and the key/value
/// pairs it reveals, keys strictly increasing.
pub struct StorageProof {
    /// The state root this witness is consistent with.
    pub root: u64,
    /// The revealed key/value pairs.
    pub items: Vec<StorageItem>,
}

/// Why a witness failed verification.
#[derive(Clone, Copy, PartialEq, Eq, Structural, Debug)]
pub enum ProofError {
    /// The witness itself is malformed (keys out of order or repeated).
    BadProofStructure,
    /// The witness commits to a different root than the given one.
    RootMismatch,
    /// A requested key is not revealed by the witness.
    MissingKey,
}

/// A structurally valid witness reveals its keys in strictly increasing
/// order (so no key twice).
pub open spec fn proof_well_structured(proof: StorageProof) -> bool {
    forall|i: int, j: int| 0 <= i < j < proof.items@.len()
        ==> #[trigger] proof.items@[i].key < #[trigger] proof.items@[j].key
}

/// The bytes a witness reveals under `key`, if any.
pub open spec fn spec_lookup(items: Seq<StorageItem>, key: u64) -> Option<Seq<u8>>
    decreases items.len(),
{
    if items.len() == 0 {
        None
    } else if items[0].key == key {
        Some(items[0].value@)
    } else {
        spec_lookup(items.drop_first(), key)
    }
}

/// Everything `verify_storage_proof` promises of a run that returned `r`
/// for `root`, `proof` and `keys`: each failure comes exactly when its
/// condition holds (checked in this order), and success reveals exactly
/// the requested values.
pub open spec fn verification_outcome(
    root: u64,
    proof: StorageProof,
    keys: Seq<u64>,
    r: Result<Vec<Vec<u8>>, ProofError>,
) -> bool {
    &&& (r == Err::<Vec<Vec<u8>>, ProofError>(ProofError::BadProofStructure)
        <==> !proof_well_structured(proof))
    &&& (r == Err::<Vec<Vec<u8>>, ProofError>(ProofError::RootMismatch)
        <==> proof_well_structured(proof) && proof.root != root)
    &&& (r == Err::<Vec<Vec<u8>>, ProofError>(ProofError::MissingKey)
        <==> proof_well_structured(proof) && proof.root == root
            && exists|i: int| 0 <= i < keys.len()
                && spec_lookup(proof.items@, #[trigger] keys[i]) is None)
    &&& (r is Ok <==> proof_well_structured(proof) && proof.root == root
            && forall|i: int| 0 <= i < keys.len()
                ==> spec_lookup(proof.items@, #[trigger] keys[i]) is Some)
    &&& (r matches Ok(values) ==> values@.len() == keys.len()
            && forall|i: int| 0 <= i < keys.len()
                ==> spec_lookup(proof.items@, #[trigger] keys[i]) == Some(values@[i]@))
}

/// Copy a byte vector.
fn copy_bytes(src: &Vec<u8>) -> (r: Vec<u8>)
    ensures
        r@ == src@,
{
    let mut out: Vec<u8> = Vec::new();
    let mut i: usize = 0;
    while i < src.len()
        invariant
            0 <= i <= src@.len(),
            out@ == src@.subrange(0, i as int),
        decreases src@.len() - i,
    {
        out.push(src[i]);
        i = i + 1;
        proof {
            assert(out@ =~= src@.subrange(0, i as int));
        }
    }
    proof {
        assert(src@.subrange(0, src@.len() as int) =~= src@);
    }
    out
}

/// Look up one key in the witness.
fn lookup(items: &Vec<StorageItem>, key: u64) -> (r: Option<Vec<u8>>)
    ensures
        r is Some <==> spec_lookup(items@, key) is Some,
        r matches Some(value) ==> spec_lookup(items@, key) == Some(value@),
{
    let mut i: usize = 0;
    proof {
        assert(items@.skip(0) =~= items@);
    }
    while i < items.len()
        invariant
            0 <= i <= items@.len(),
            spec_lookup(items@, key) == spec_lookup(items@.skip(i as int), key),
            forall|j: int| 0 <= j < i ==> (#[trigger] items@[j].key) != key,
        decreases items@.len() - i,
    {
        if items[i].key == key {
            proof {
                assert(items@.skip(i as int)[0] == items@[i as int]);
            }
            return Some(copy_bytes(&items[i].value));
        }
        i = i + 1;
        proof {
            assert(items@.skip(i - 1).drop_first() =~= items@.skip(i as int));
            assert(items@.skip(i - 1)[0] == items@[i - 1]);
        }
    }
    proof {
        assert(items@.skip(items@.len() as int).len() == 0);
    }
    None
}

/// Verify that the witness is consistent with `root` and reveals every
/// requested key. All-or-nothing: any failure rejects the whole batch,
/// in the fixed order structure, root, missing key.
pub fn verify_storage_proof(root: u64, proof: &StorageProof, keys: &Vec<u64>) -> (r: Result<
    Vec<Vec<u8>>,
    ProofError,
>)
    ensures
        verification_outcome(root, *proof, keys@, r),
{
    // Structure: keys strictly increasing.
    let mut i: usize = 1;
    while i < proof.items.len()
        invariant
            1 <= i <= proof.items@.len() || proof.items@.len() == 0,
            forall|a: int, b: int| 0 <= a < b < i
                ==> #[trigger] proof.items@[a].key < #[trigger] proof.items@[b].key,
        decreases proof.items@.len() - i,
    {
        if proof.items[i - 1].key >= proof.items[i].key {
            return Err(ProofError::BadProofStructure);
        }
        i = i + 1;
        proof {
            assert forall|a: int, b: int| 0 <= a < b < i
                implies #[trigger] proof.items@[a].key < #[trigger] proof.items@[b].key by {
                if b == i - 1 && a < b - 1 {
                    assert(proof.items@[a].key < proof.items@[b - 1].key);
                }
            }
        }
    }
    if proof.root != root {
        return Err(ProofError::RootMismatch);
    }
    let mut values: Vec<Vec<u8>> = Vec::new();
    let mut k: usize = 0;
    while k < keys.len()
        invariant
            0 <= k <= keys@.len(),
            values@.len() == k,
            proof_well_structured(*proof),
            proof.root == root,
            forall|j: int| 0 <= j < k
                ==> spec_lookup(proof.items@, #[trigger] keys@[j]) == Some(values@[j]@),
        decreases keys@.len() - k,
    {
        let found = lookup(&proof.items, keys[k]);
        match found {
            Some(value) => {
                values.push(value);
            },
            None => {
                return Err(ProofError::MissingKey);
            },
        }
        k = k + 1;
    }
    Ok(values)
}

} // verus!
