use vstd::prelude::*;
use crate::leaf::{Hash32, keccak256, keccak256_of};

verus! {

/// An inner node: the digest of the left child's bytes followed by the right's.
pub open spec fn node_hash(left: Hash32, right: Hash32) -> Hash32 {
    keccak256_of(left@ + right@)
}

/// The level above `s`: neighbours are paired from the left; a last node
/// without a partner is carried up unchanged.
pub open spec fn next_level(s: Seq<Hash32>) -> Seq<Hash32> {
    Seq::new(
        ((s.len() + 1) / 2) as nat,
        |k: int|
            if 2 * k + 1 < s.len() {
                node_hash(s[2 * k], s[2 * k + 1])
            } else {
                s[2 * k]
            },
    )
}

/// The root over a non-empty sequence of leaves; one leaf is its own root.
pub open spec fn root_of(s: Seq<Hash32>) -> Hash32
    decreases s.len(),
{
    if s.len() <= 1 {
        s[0]
    } else {
        root_of(next_level(s))
    }
}

/// The root over the leaves, absent when there are none.
pub open spec fn root_opt(s: Seq<Hash32>) -> Option<Hash32> {
    if s.len() == 0 {
        None
    } else {
        Some(root_of(s))
    }
}

/// The inclusion proof of leaf `i`: the bytes of the siblings on the way up,
/// bottom first; a level where the node has no partner adds nothing.
pub open spec fn proof_of(s: Seq<Hash32>, i: int) -> Seq<u8>
    decreases s.len(),
{
    if s.len() <= 1 {
        Seq::empty()
    } else {
        let sibling = if i % 2 == 1 {
            s[i - 1]@
        } else if i + 1 < s.len() {
            s[i + 1]@
        } else {
            Seq::empty()
        };
        sibling + proof_of(next_level(s), i / 2)
    }
}

/// Walks a proof up from `h`, the node at position `i` of a level of `n`
/// nodes; the result is the root it leads to, absent when the proof's bytes do
/// not fit the path.
pub open spec fn walk(h: Hash32, i: int, n: int, proof: Seq<u8>) -> Option<Hash32>
    decreases n,
{
    if n <= 1 {
        if proof.len() == 0 {
            Some(h)
        } else {
            None
        }
    } else if i % 2 == 0 && i + 1 >= n {
        walk(h, i / 2, (n + 1) / 2, proof)
    } else if proof.len() < 32 {
        None
    } else {
        let sibling = proof.subrange(0, 32);
        let up = if i % 2 == 1 {
            keccak256_of(sibling + h@)
        } else {
            keccak256_of(h@ + sibling)
        };
        walk(up, i / 2, (n + 1) / 2, proof.subrange(32, proof.len() as int))
    }
}

/// A proof is a whole number of 32-byte siblings.
pub proof fn lemma_proof_len(s: Seq<Hash32>, i: int)
    ensures
        proof_of(s, i).len() % 32 == 0,
    decreases s.len(),
{
    if s.len() > 1 {
        lemma_proof_len(next_level(s), i / 2);
    }
}

/// Every leaf's proof, walked up from that leaf, leads to the root.
pub proof fn lemma_proof_leads_to_root(s: Seq<Hash32>, i: int)
    requires
        0 <= i < s.len(),
    ensures
        walk(s[i], i, s.len() as int, proof_of(s, i)) == Some(root_of(s)),
    decreases s.len(),
{
    if s.len() > 1 {
        let up = next_level(s);
        lemma_proof_leads_to_root(up, i / 2);
        let rest = proof_of(up, i / 2);
        if i % 2 == 0 && i + 1 >= s.len() {
            assert(proof_of(s, i) =~= rest);
        } else {
            let sibling = if i % 2 == 1 { s[i - 1] } else { s[i + 1] };
            let p = proof_of(s, i);
            assert(p =~= sibling@ + rest);
            assert(p.subrange(0, 32) =~= sibling@);
            assert(p.subrange(32, p.len() as int) =~= rest);
        }
    }
}

/// The digest of two nodes side by side.
fn hash_pair(left: &Hash32, right: &Hash32) -> (r: Hash32)
    ensures
        r == node_hash(*left, *right),
{
    let mut buf: Vec<u8> = Vec::new();
    let mut k: usize = 0;
    while k < 32
        invariant
            k <= 32,
            buf@ =~= left@.subrange(0, k as int),
        decreases 32 - k,
    {
        buf.push(left[k]);
        k = k + 1;
    }
    assert(left@.subrange(0, 32) =~= left@);
    let mut k: usize = 0;
    while k < 32
        invariant
            k <= 32,
            buf@ =~= left@ + right@.subrange(0, k as int),
        decreases 32 - k,
    {
        buf.push(right[k]);
        k = k + 1;
    }
    assert(right@.subrange(0, 32) =~= right@);
    keccak256(buf.as_slice())
}

/// Builds the level above `s`.
fn build_next_level(s: &Vec<Hash32>) -> (r: Vec<Hash32>)
    ensures
        r@ == next_level(s@),
{
    let mut r: Vec<Hash32> = Vec::new();
    let mut k: usize = 0;
    let half: usize = s.len() / 2 + s.len() % 2;
    while k < half
        invariant
            half == (s.len() + 1) / 2,
            k <= half,
            r@.len() == k,
            forall|j: int| 0 <= j < k ==> r@[j] == #[trigger] next_level(s@)[j],
        decreases half - k,
    {
        if 2 * k + 1 < s.len() {
            let h = hash_pair(&s[2 * k], &s[2 * k + 1]);
            r.push(h);
        } else {
            r.push(s[2 * k]);
        }
        k = k + 1;
    }
    assert(r@ =~= next_level(s@));
    r
}

fn copy_hashes(s: &Vec<Hash32>) -> (r: Vec<Hash32>)
    ensures
        r@ == s@,
{
    let mut r: Vec<Hash32> = Vec::new();
    let mut k: usize = 0;
    while k < s.len()
        invariant
            k <= s.len(),
            r@ =~= s@.subrange(0, k as int),
        decreases s.len() - k,
    {
        r.push(s[k]);
        k = k + 1;
    }
    assert(r@ =~= s@);
    r
}

/// The root over `leaves`, absent when there are none.
pub fn compute_root(leaves: &Vec<Hash32>) -> (r: Option<Hash32>)
    ensures
        r == root_opt(leaves@),
{
    if leaves.len() == 0 {
        return None;
    }
    let mut level: Vec<Hash32> = copy_hashes(leaves);
    assert(level@ =~= leaves@);
    while level.len() > 1
        invariant
            level.len() >= 1,
            root_of(level@) == root_of(leaves@),
        decreases level.len(),
    {
        level = build_next_level(&level);
    }
    Some(level[0])
}

/// The inclusion proof of leaf `index`.
pub fn build_proof(leaves: &Vec<Hash32>, index: usize) -> (r: Vec<u8>)
    requires
        index < leaves.len(),
    ensures
        r@ == proof_of(leaves@, index as int),
{
    let mut level: Vec<Hash32> = copy_hashes(leaves);
    let mut i: usize = index;
    let mut acc: Vec<u8> = Vec::new();
    assert(level@ =~= leaves@);
    while level.len() > 1
        invariant
            i < level.len(),
            acc@ + proof_of(level@, i as int) == proof_of(leaves@, index as int),
        decreases level.len(),
    {
        let ghost before = acc@;
        if i % 2 == 1 {
            append_hash(&mut acc, &level[i - 1]);
        } else if i + 1 < level.len() {
            append_hash(&mut acc, &level[i + 1]);
        }
        let ghost sibling = if i % 2 == 1 {
            level@[i - 1]@
        } else if i + 1 < level.len() {
            level@[i + 1]@
        } else {
            Seq::empty()
        };
        assert(acc@ =~= before + sibling);
        let ghost up = next_level(level@);
        assert(before + (sibling + proof_of(up, i as int / 2)) =~= (before + sibling) + proof_of(up, i as int / 2));
        level = build_next_level(&level);
        i = i / 2;
    }
    assert(acc@ + proof_of(level@, i as int) =~= acc@);
    acc
}

fn append_hash(acc: &mut Vec<u8>, h: &Hash32)
    ensures
        final(acc)@ == old(acc)@ + h@,
{
    let ghost start = old(acc)@;
    let mut k: usize = 0;
    while k < 32
        invariant
            k <= 32,
            acc@ =~= start + h@.subrange(0, k as int),
        decreases 32 - k,
    {
        acc.push(h[k]);
        k = k + 1;
    }
    assert(h@.subrange(0, 32) =~= h@);
}

/// The digest of `h` beside the 32 proof bytes at `pos`, on the side that
/// `sibling_left` gives.
fn hash_with_sibling(h: &Hash32, proof: &[u8], pos: usize, sibling_left: bool) -> (r: Hash32)
    requires
        pos + 32 <= proof@.len(),
    ensures
        r == (if sibling_left {
            keccak256_of(proof@.subrange(pos as int, pos + 32) + h@)
        } else {
            keccak256_of(h@ + proof@.subrange(pos as int, pos + 32))
        }),
{
    let mut sib: Vec<u8> = Vec::new();
    let mut k: usize = 0;
    let len: usize = proof.len();
    while k < 32
        invariant
            k <= 32,
            len == proof@.len(),
            pos + 32 <= proof@.len(),
            sib@ =~= proof@.subrange(pos as int, pos + k),
        decreases 32 - k,
    {
        sib.push(proof[pos + k]);
        k = k + 1;
    }
    let mut buf: Vec<u8> = Vec::new();
    if sibling_left {
        buf.append(&mut sib);
        append_hash(&mut buf, h);
    } else {
        append_hash(&mut buf, h);
        buf.append(&mut sib);
    }
    keccak256(buf.as_slice())
}

/// Walks `proof` up from `leaf` at position `index` among `n` leaves.
pub fn walk_proof(leaf: Hash32, index: usize, n: usize, proof: &[u8]) -> (r: Option<Hash32>)
    ensures
        r == walk(leaf, index as int, n as int, proof@),
{
    let mut h: Hash32 = leaf;
    let mut i: usize = index;
    let mut m: usize = n;
    let mut pos: usize = 0;
    assert(proof@.subrange(0, proof@.len() as int) =~= proof@);
    while m > 1
        invariant
            pos <= proof@.len(),
            walk(h, i as int, m as int, proof@.subrange(pos as int, proof@.len() as int))
                == walk(leaf, index as int, n as int, proof@),
        decreases m,
    {
        let ghost rest = proof@.subrange(pos as int, proof@.len() as int);
        if i % 2 == 0 && i + 1 >= m {
        } else if proof.len() - pos < 32 {
            return None;
        } else {
            assert(rest.subrange(0, 32) =~= proof@.subrange(pos as int, pos + 32));
            assert(rest.subrange(32, rest.len() as int) =~= proof@.subrange(
                pos + 32,
                proof@.len() as int,
            ));
            h = hash_with_sibling(&h, proof, pos, i % 2 == 1);
            pos = pos + 32;
        }
        i = i / 2;
        m = m / 2 + m % 2;
    }
    if pos == proof.len() {
        Some(h)
    } else {
        None
    }
}

} // verus!
