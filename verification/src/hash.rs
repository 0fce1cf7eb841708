//! Merkle digest primitives: domain-separated leaf and node digests, and
//! verification of inclusion and consistency proofs against a trusted root.

use vstd::prelude::*;
use crate::bytes::{bytes_eq, copy_bytes};
use ursa::hash::Digest;

verus! {

/// Digest of a byte string under the pool's hash function (SHA-256).
pub uninterp spec fn sha256_of(input: Seq<u8>) -> Seq<u8>;

/// Number of bytes in a digest.
pub const HASHBYTES: usize = 32;

/// The well-known digest of empty input under SHA-256.
pub const EMPTY_HASH_BYTES: [u8; 32] = [
    227, 176, 196, 66, 152, 252, 28, 20, 154, 251, 244, 200, 153, 111, 185, 36, 39, 174, 65, 228,
    100, 155, 147, 76, 164, 149, 153, 27, 120, 82, 184, 85,
];

/// The bytes hashed for a leaf: a `0x00` domain byte, then the payload.
pub open spec fn leaf_preimage(data: Seq<u8>) -> Seq<u8> {
    seq![0u8] + data
}

/// The bytes hashed for an internal node: a `0x01` domain byte, then the two
/// child digests.
pub open spec fn node_preimage(left: Seq<u8>, right: Seq<u8>) -> Seq<u8> {
    seq![1u8] + left + right
}

/// Digest of a leaf holding `data`.
pub open spec fn leaf_hash_of(data: Seq<u8>) -> Seq<u8> {
    sha256_of(leaf_preimage(data))
}

/// Digest of an internal node over two child digests.
pub open spec fn node_hash_of(left: Seq<u8>, right: Seq<u8>) -> Seq<u8> {
    sha256_of(node_preimage(left, right))
}

/// Relies on `ursa::hash::sha2::Sha256` (ursa's re-export of SHA-256): the
/// digest is 32 bytes and is a function of the input bytes alone.
#[verifier::external_body]
pub fn digest(input: &[u8]) -> (r: Vec<u8>)
    ensures
        r@ == sha256_of(input@),
        r@.len() == 32,
{
    let mut ctx = ursa::hash::sha2::Sha256::new();
    ctx.update(input);
    ctx.finalize().to_vec()
}

/// Domain separation: the bytes hashed for a leaf are never the bytes hashed
/// for an internal node, whatever the payload and the child digests.
pub proof fn lemma_domain_separation(data: Seq<u8>, left: Seq<u8>, right: Seq<u8>)
    ensures
        leaf_preimage(data) != node_preimage(left, right),
{
    assert(leaf_preimage(data)[0] == 0u8);
    assert(node_preimage(left, right)[0] == 1u8);
}

/// Digest of one leaf: `0x00` followed by the payload bytes.
pub fn hash_leaf(data: &Vec<u8>) -> (r: Vec<u8>)
    ensures
        r@ == leaf_hash_of(data@),
        r@.len() == 32,
{
    let mut buf: Vec<u8> = Vec::new();
    buf.push(0u8);
    let mut i: usize = 0;
    while i < data.len()
        invariant
            i <= data@.len(),
            buf@ == seq![0u8] + data@.subrange(0, i as int),
        decreases data@.len() - i,
    {
        buf.push(data[i]);
        proof {
            assert(buf@ =~= seq![0u8] + data@.subrange(0, i as int + 1));
        }
        i += 1;
    }
    proof {
        assert(buf@ =~= leaf_preimage(data@));
    }
    digest(buf.as_slice())
}

/// Digest of one internal node: `0x01` followed by the two child digests.
pub fn hash_nodes(left: &Vec<u8>, right: &Vec<u8>) -> (r: Vec<u8>)
    ensures
        r@ == node_hash_of(left@, right@),
        r@.len() == 32,
{
    let mut buf: Vec<u8> = Vec::new();
    buf.push(1u8);
    let mut i: usize = 0;
    while i < left.len()
        invariant
            i <= left@.len(),
            buf@ == seq![1u8] + left@.subrange(0, i as int),
        decreases left@.len() - i,
    {
        buf.push(left[i]);
        proof {
            assert(buf@ =~= seq![1u8] + left@.subrange(0, i as int + 1));
        }
        i += 1;
    }
    proof {
        assert(buf@ =~= seq![1u8] + left@);
    }
    let mut j: usize = 0;
    while j < right.len()
        invariant
            j <= right@.len(),
            buf@ == seq![1u8] + left@ + right@.subrange(0, j as int),
        decreases right@.len() - j,
    {
        buf.push(right[j]);
        proof {
            assert(buf@ =~= seq![1u8] + left@ + right@.subrange(0, j as int + 1));
        }
        j += 1;
    }
    proof {
        assert(buf@ =~= node_preimage(left@, right@));
    }
    digest(buf.as_slice())
}

/// One level of a Merkle path: the sibling digest and the side it sits on.
pub struct ProofStep {
    pub sibling: Vec<u8>,
    pub sibling_on_left: bool,
}

/// Abstract value of one proof step.
pub open spec fn step_view(s: ProofStep) -> (bool, Seq<u8>) {
    (s.sibling_on_left, s.sibling@)
}

/// Abstract value of a whole proof path.
pub open spec fn path_view(p: Seq<ProofStep>) -> Seq<(bool, Seq<u8>)> {
    p.map_values(|s: ProofStep| step_view(s))
}

/// The root recomputed from a starting digest by folding the sibling digests
/// of a path over `node_hash_of`, leaf end first.
pub open spec fn root_from(h: Seq<u8>, path: Seq<(bool, Seq<u8>)>) -> Seq<u8>
    decreases path.len(),
{
    if path.len() == 0 {
        h
    } else {
        let step = path[0];
        let parent = if step.0 {
            node_hash_of(step.1, h)
        } else {
            node_hash_of(h, step.1)
        };
        root_from(parent, path.drop_first())
    }
}

/// Checks an inclusion (audit) proof: recomputes the root from the leaf
/// payload and the sibling path and compares it byte-for-byte with a root
/// the caller already trusts.
pub fn verify_inclusion(leaf: &Vec<u8>, path: &Vec<ProofStep>, root: &Vec<u8>) -> (r: bool)
    ensures
        r == (root_from(leaf_hash_of(leaf@), path_view(path@)) == root@),
{
    let mut h = hash_leaf(leaf);
    proof {
        assert(path_view(path@).skip(0) =~= path_view(path@));
    }
    let mut i: usize = 0;
    while i < path.len()
        invariant
            i <= path@.len(),
            root_from(leaf_hash_of(leaf@), path_view(path@)) == root_from(
                h@,
                path_view(path@).skip(i as int),
            ),
        decreases path@.len() - i,
    {
        let step = &path[i];
        proof {
            assert(path_view(path@)[i as int] == step_view(path@[i as int]));
            assert(path_view(path@).skip(i as int)[0] == path_view(path@)[i as int]);
            assert(path_view(path@).skip(i as int).drop_first() =~= path_view(path@).skip(
                i as int + 1,
            ));
        }
        if step.sibling_on_left {
            h = hash_nodes(&step.sibling, &h);
        } else {
            h = hash_nodes(&h, &step.sibling);
        }
        i += 1;
    }
    proof {
        assert(path_view(path@).skip(path@.len() as int) =~= Seq::<(bool, Seq<u8>)>::empty());
    }
    bytes_eq(&h, root)
}

/// Checks a consistency proof: the new tree must be strictly larger than the
/// old one, and the sibling path folded onto the old trusted root must
/// recompute the new root.
pub fn verify_consistency(
    old_size: u64,
    new_size: u64,
    old_root: &Vec<u8>,
    new_root: &Vec<u8>,
    path: &Vec<ProofStep>,
) -> (r: bool)
    ensures
        r == (old_size < new_size && root_from(old_root@, path_view(path@)) == new_root@),
{
    if old_size >= new_size {
        return false;
    }
    let mut h = copy_bytes(old_root);
    proof {
        assert(path_view(path@).skip(0) =~= path_view(path@));
    }
    let mut i: usize = 0;
    while i < path.len()
        invariant
            i <= path@.len(),
            root_from(old_root@, path_view(path@)) == root_from(
                h@,
                path_view(path@).skip(i as int),
            ),
        decreases path@.len() - i,
    {
        let step = &path[i];
        proof {
            assert(path_view(path@)[i as int] == step_view(path@[i as int]));
            assert(path_view(path@).skip(i as int)[0] == path_view(path@)[i as int]);
            assert(path_view(path@).skip(i as int).drop_first() =~= path_view(path@).skip(
                i as int + 1,
            ));
        }
        if step.sibling_on_left {
            h = hash_nodes(&step.sibling, &h);
        } else {
            h = hash_nodes(&h, &step.sibling);
        }
        i += 1;
    }
    proof {
        assert(path_view(path@).skip(path@.len() as int) =~= Seq::<(bool, Seq<u8>)>::empty());
    }
    bytes_eq(&h, new_root)
}

} // verus!
