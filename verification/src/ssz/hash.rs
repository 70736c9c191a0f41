//! SHA-256 Merkle trees over 32-byte chunks.

use crate::types::bytes::Bytes32;
use sha2::Digest;
use vstd::arithmetic::power2;
use vstd::prelude::*;

verus! {

/// The SHA-256 digest of a byte string.
pub uninterp spec fn sha256(data: Seq<u8>) -> Seq<u8>;

/// `sha2::Sha256::digest`: the SHA-256 digest of `data`, named by [`sha256`].
#[verifier::external_body]
fn sha256_digest(data: &[u8]) -> (r: [u8; 32])
    ensures
        r@ == sha256(data@),
{
    sha2::Sha256::digest(data).into()
}

/// The parent of two tree nodes.
pub open spec fn parent(left: Bytes32, right: Bytes32) -> Bytes32 {
    Bytes32::of(sha256(left@ + right@))
}

/// Hashes two sibling nodes into their parent.
pub fn hash_nodes(left: &Bytes32, right: &Bytes32) -> (r: Bytes32)
    ensures
        r == parent(*left, *right),
{
    let mut data: Vec<u8> = Vec::with_capacity(64);
    data.extend_from_slice(left.as_slice());
    data.extend_from_slice(right.as_slice());
    assert(data@ =~= left@ + right@);
    let r = Bytes32(sha256_digest(data.as_slice()));
    proof {
        Bytes32::lemma_of(r);
    }
    r
}

/// The root of a full tree of the given depth whose leaves are all zero.
pub open spec fn zero_root(depth: nat) -> Bytes32
    decreases depth,
{
    if depth == 0 {
        Bytes32::zero_value()
    } else {
        parent(zero_root((depth - 1) as nat), zero_root((depth - 1) as nat))
    }
}

/// The root of the binary tree with `2^depth` leaves: the given leaves from the
/// left, zero chunks behind them.
pub open spec fn tree_root(leaves: Seq<Bytes32>, depth: nat) -> Bytes32
    decreases depth,
{
    if depth == 0 {
        if leaves.len() == 0 {
            Bytes32::zero_value()
        } else {
            leaves[0]
        }
    } else {
        let half = power2::pow2((depth - 1) as nat) as int;
        let left = if leaves.len() <= half { leaves } else { leaves.subrange(0, half) };
        let right = if leaves.len() <= half {
            Seq::<Bytes32>::empty()
        } else {
            leaves.subrange(half, leaves.len() as int)
        };
        parent(tree_root(left, (depth - 1) as nat), tree_root(right, (depth - 1) as nat))
    }
}

proof fn lemma_empty_tree(depth: nat)
    ensures
        tree_root(Seq::empty(), depth) == zero_root(depth),
    decreases depth,
{
    if depth > 0 {
        power2::lemma_pow2_pos((depth - 1) as nat);
        lemma_empty_tree((depth - 1) as nat);
    }
}

/// The smallest depth whose tree has room for `count` leaves.
pub open spec fn tree_depth(count: nat) -> nat
    decreases count,
{
    if count <= 1 {
        0
    } else {
        1 + tree_depth((count + 1) / 2)
    }
}

/// A tree of this depth holds `count` leaves.
pub proof fn lemma_tree_depth_holds(count: nat)
    ensures
        count <= power2::pow2(tree_depth(count)),
    decreases count,
{
    power2::lemma2_to64();
    if count > 1 {
        lemma_tree_depth_holds((count + 1) / 2);
        power2::lemma_pow2_unfold(tree_depth(count));
    }
}

fn compute_depth(count: usize) -> (r: usize)
    ensures
        r == tree_depth(count as nat),
        r <= 64,
{
    let mut c: usize = count;
    let mut d: usize = 0;
    proof {
        power2::lemma2_to64();
    }
    let ghost mut room: nat = power2::pow2(64);
    assert(room == 0x10000000000000000) by {
        power2::lemma2_to64_rest();
    }
    while c > 1
        invariant
            d <= 64,
            c <= room,
            room == power2::pow2((64 - d) as nat),
            d + tree_depth(c as nat) == tree_depth(count as nat),
        decreases c,
    {
        proof {
            if d == 64 {
                assert(power2::pow2(0) == 1) by {
                    power2::lemma2_to64();
                }
                assert(false);
            }
            power2::lemma_pow2_unfold((64 - d) as nat);
            room = power2::pow2((63 - d) as nat);
        }
        c = c / 2 + c % 2;
        d = d + 1;
    }
    d
}

/// The zero roots of depths `0..=depth`.
fn zero_roots(depth: usize) -> (r: Vec<Bytes32>)
    requires
        depth <= 64,
    ensures
        r@.len() == depth + 1,
        forall|d: int| 0 <= d <= depth ==> r@[d] == zero_root(d as nat),
{
    let mut out: Vec<Bytes32> = Vec::new();
    out.push(Bytes32::zero());
    let mut d: usize = 0;
    while d < depth
        invariant
            d <= depth <= 64,
            out@.len() == d + 1,
            forall|k: int| 0 <= k <= d ==> out@[k] == zero_root(k as nat),
        decreases depth - d,
    {
        let next = hash_nodes(&out[d], &out[d]);
        assert(next == zero_root((d + 1) as nat));
        out.push(next);
        d = d + 1;
    }
    out
}

fn tree_root_of(leaves: &[Bytes32], depth: usize, zeros: &Vec<Bytes32>) -> (r: Bytes32)
    requires
        depth <= 64,
        zeros@.len() > depth,
        forall|d: int| 0 <= d <= depth ==> zeros@[d] == zero_root(d as nat),
        leaves@.len() <= power2::pow2(depth as nat),
    ensures
        r == tree_root(leaves@, depth as nat),
    decreases depth,
{
    if leaves.len() == 0 {
        proof {
            assert(leaves@ =~= Seq::empty());
            lemma_empty_tree(depth as nat);
        }
        return zeros[depth];
    }
    if depth == 0 {
        return leaves[0];
    }
    let below: usize = depth - 1;
    proof {
        power2::lemma_pow2_unfold(depth as nat);
    }
    // A half of `2^63` leaves cannot be filled by a slice.
    if below >= 63 {
        proof {
            power2::lemma2_to64_rest();
        }
    }
    let fits: bool = if below >= 63 { leaves.len() as u64 <= 0x8000000000000000u64 } else {
        leaves.len() as u64 <= power_of_two(below)
    };
    if fits {
        let left = tree_root_of(leaves, below, zeros);
        proof {
            lemma_empty_tree(below as nat);
        }
        hash_nodes(&left, &zeros[below])
    } else {
        let half: usize = if below >= 63 { 0x8000000000000000u64 as usize } else { power_of_two(below) as usize };
        let left = tree_root_of(vstd::slice::slice_subrange(leaves, 0, half), below, zeros);
        let right = tree_root_of(
            vstd::slice::slice_subrange(leaves, half, leaves.len()),
            below,
            zeros,
        );
        hash_nodes(&left, &right)
    }
}

/// `2^k` for `k < 63`.
fn power_of_two(k: usize) -> (r: u64)
    requires
        k < 63,
    ensures
        r == power2::pow2(k as nat),
{
    let mut r: u64 = 1;
    let mut i: usize = 0;
    proof {
        power2::lemma2_to64();
    }
    while i < k
        invariant
            i <= k < 63,
            r == power2::pow2(i as nat),
        decreases k - i,
    {
        proof {
            power2::lemma_pow2_unfold((i + 1) as nat);
            power2::lemma_pow2_strictly_increases((i + 1) as nat, 63);
            power2::lemma2_to64_rest();
        }
        r = r * 2;
        i = i + 1;
    }
    r
}

/// The root over `leaves` in a tree sized for `limit` of them.
pub open spec fn merkle_root(leaves: Seq<Bytes32>, limit: nat) -> Bytes32 {
    tree_root(leaves, tree_depth(if limit >= leaves.len() { limit } else { leaves.len() }))
}

/// Hashes `leaves` in a tree sized for `limit` of them.
pub fn merkleize_limit(leaves: &[Bytes32], limit: usize) -> (r: Bytes32)
    ensures
        r == merkle_root(leaves@, limit as nat),
{
    let room: usize = if limit >= leaves.len() { limit } else { leaves.len() };
    let depth: usize = compute_depth(room);
    let zeros = zero_roots(depth);
    proof {
        lemma_tree_depth_holds(room as nat);
    }
    tree_root_of(leaves, depth, &zeros)
}

/// The root of a container with three fields.
pub fn merkleize_three(a: &Bytes32, b: &Bytes32, c: &Bytes32) -> (r: Bytes32)
    ensures
        r == container_root(seq![*a, *b, *c]),
{
    let fields: [Bytes32; 3] = [*a, *b, *c];
    assert(fields@ =~= seq![*a, *b, *c]);
    merkleize(fields.as_slice())
}

/// The root of a container with five fields.
pub fn merkleize_five(a: &Bytes32, b: &Bytes32, c: &Bytes32, d: &Bytes32, e: &Bytes32) -> (r:
    Bytes32)
    ensures
        r == container_root(seq![*a, *b, *c, *d, *e]),
{
    let fields: [Bytes32; 5] = [*a, *b, *c, *d, *e];
    assert(fields@ =~= seq![*a, *b, *c, *d, *e]);
    merkleize(fields.as_slice())
}

/// The root of a container with the given field roots.
pub open spec fn container_root(fields: Seq<Bytes32>) -> Bytes32 {
    merkle_root(fields, fields.len())
}

/// Hashes the field roots of a container.
pub fn merkleize(fields: &[Bytes32]) -> (r: Bytes32)
    ensures
        r == container_root(fields@),
{
    merkleize_limit(fields, fields.len())
}

/// The 32-byte chunk of `bytes` at chunk position `i`, zero-padded.
pub open spec fn chunk_bytes(bytes: Seq<u8>, i: int) -> Seq<u8> {
    Seq::new(32, |j: int| if 32 * i + j < bytes.len() { bytes[32 * i + j] } else { 0u8 })
}

/// `bytes` cut into zero-padded 32-byte chunks.
pub open spec fn chunks(bytes: Seq<u8>) -> Seq<Bytes32> {
    Seq::new((bytes.len() + 31) as nat / 32, |i: int| Bytes32::of(chunk_bytes(bytes, i)))
}

/// Cuts `bytes` into zero-padded 32-byte chunks.
pub fn to_chunks(bytes: &[u8]) -> (r: Vec<Bytes32>)
    ensures
        r@ == chunks(bytes@),
{
    let n: usize = bytes.len();
    let count: usize = n / 32 + (if n % 32 == 0 { 0usize } else { 1usize });
    let mut out: Vec<Bytes32> = Vec::new();
    let mut i: usize = 0;
    while i < count
        invariant
            i <= count,
            n == bytes@.len(),
            count == (n + 31) / 32,
            out@.len() == i,
            forall|k: int| 0 <= k < i ==> out@[k] == Bytes32::of(chunk_bytes(bytes@, k)),
        decreases count - i,
    {
        let mut chunk: [u8; 32] = Bytes32::zero().0;
        let mut j: usize = 0;
        while j < 32
            invariant
                j <= 32,
                n == bytes@.len(),
                32 * i < n,
                forall|k: int| 0 <= k < j ==> chunk@[k] == chunk_bytes(bytes@, i as int)[k],
                forall|k: int| j <= k < 32 ==> chunk@[k] == 0u8,
            decreases 32 - j,
        {
            if j < n - 32 * i {
                chunk[j] = bytes[32 * i + j];
            }
            j = j + 1;
        }
        proof {
            assert(chunk@ =~= chunk_bytes(bytes@, i as int));
            Bytes32::lemma_of(Bytes32(chunk));
        }
        out.push(Bytes32(chunk));
        i = i + 1;
    }
    assert(out@ =~= chunks(bytes@));
    out
}

/// The tree root of a byte string of fixed length.
pub open spec fn vector_root(bytes: Seq<u8>) -> Bytes32 {
    container_root(chunks(bytes))
}

/// Hashes a byte string of fixed length.
pub fn vector_root_of(bytes: &[u8]) -> (r: Bytes32)
    ensures
        r == vector_root(bytes@),
{
    let leaves = to_chunks(bytes);
    merkleize(leaves.as_slice())
}

/// The tree root of a byte list of at most `limit` bytes.
pub open spec fn byte_list_root(bytes: Seq<u8>, limit: nat) -> Bytes32 {
    with_length(
        merkle_root(
            chunks(bytes),
            (limit / 32 + (if limit % 32 == 0 { 0nat } else { 1nat })),
        ),
        bytes.len() as u64,
    )
}

/// Hashes a byte list of at most `limit` bytes.
pub fn byte_list_root_of(bytes: &[u8], limit: usize) -> (r: Bytes32)
    ensures
        r == byte_list_root(bytes@, limit as nat),
{
    let leaves = to_chunks(bytes);
    let room: usize = limit / 32 + (if limit % 32 == 0 { 0usize } else { 1usize });
    let root = merkleize_limit(leaves.as_slice(), room);
    mix_in_length(&root, bytes.len())
}

/// The little-endian bytes of `n`, padded to one chunk.
pub open spec fn number_chunk(n: u64) -> Bytes32 {
    Bytes32::of(chunk_bytes(crate::ssz::u64_bytes(n), 0))
}

/// One chunk holding `n` in little-endian order.
pub fn number_root(n: u64) -> (r: Bytes32)
    ensures
        r == number_chunk(n),
{
    let mut bytes: Vec<u8> = Vec::new();
    crate::ssz::put_u64(&mut bytes, n);
    assert(bytes@ =~= crate::ssz::u64_bytes(n));
    let c = to_chunks(bytes.as_slice());
    c[0]
}

/// A list root bound to the list's length.
pub open spec fn with_length(root: Bytes32, len: u64) -> Bytes32 {
    parent(root, number_chunk(len))
}

/// Binds a list root to the list's length.
pub fn mix_in_length(root: &Bytes32, len: usize) -> (r: Bytes32)
    ensures
        r == with_length(*root, len as u64),
{
    hash_nodes(root, &number_root(len as u64))
}

} // verus!
