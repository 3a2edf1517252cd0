//! Proofs of membership in a Merkle-Patricia trie: a row of trie nodes, from
//! the root down, that leads along the key to a value.
//!
//! A proof comes from a caller who is not trusted, so the verification has
//! an answer for every row of bytes and panics on none; for that reason it
//! is part of the verified code. The nodes are taken in their order, each by
//! the hash under which the one before refers to it; nodes after the one
//! that holds the value are not looked at. A node that lies embedded in its
//! parent is not followed: a trie whose values are longer than 32 bytes, as
//! every receipt is, holds none.

use crate::primitives::{bytes_eq, keccak256, keccak256_digest, H256};
use crate::rlp::{decode_list, decode_string, list_of, string_of, views};
use vstd::prelude::*;

verus! {

/// The half-bytes of `key`, the upper half of each byte first.
pub open spec fn nibbles(key: Seq<u8>) -> Seq<u8> {
    Seq::new(
        2 * key.len(),
        |i: int|
            if i % 2 == 0 {
                key[i / 2] / 16
            } else {
                key[i / 2] % 16
            },
    )
}

/// The stretch of a key that a leaf or an extension node covers.
pub struct NodePath {
    /// Whether the node is a leaf.
    pub is_leaf: bool,
    /// The half-bytes that the node covers.
    pub nibbles: Seq<u8>,
}

/// What the compact form `p` of a path stands for. The upper half of the
/// first byte tells a leaf from an extension and an odd from an even number
/// of half-bytes; an odd path starts in the lower half of the first byte.
pub open spec fn compact_path(p: Seq<u8>) -> Option<NodePath> {
    if p.len() == 0 || p[0] / 16 > 3 {
        None
    } else if (p[0] / 16) % 2 == 1 {
        Some(NodePath { is_leaf: p[0] / 16 >= 2, nibbles: seq![p[0] % 16] + nibbles(p.skip(1)) })
    } else if p[0] % 16 != 0 {
        None
    } else {
        Some(NodePath { is_leaf: p[0] / 16 >= 2, nibbles: nibbles(p.skip(1)) })
    }
}

/// The hash by which a node refers to a child: a string of 32 bytes.
pub open spec fn child_hash(item: Seq<u8>) -> Option<Seq<u8>> {
    match string_of(item) {
        Some(h) => if h.len() == 32 {
            Some(h)
        } else {
            None
        },
        None => None,
    }
}

/// Whether `path` begins with `prefix`.
pub open spec fn starts_with(path: Seq<u8>, prefix: Seq<u8>) -> bool {
    prefix.len() <= path.len() && path.subrange(0, prefix.len() as int) == prefix
}

/// Where one node leads for the rest of a key.
pub enum Step {
    /// The node holds the value of the key.
    Found(Seq<u8>),
    /// The key goes on in the child with this hash, with this rest of the key.
    Descend(Seq<u8>, Seq<u8>),
    /// The node does not lead to a value of the key.
    Fail,
}

/// Where a branch node with the given items leads for `path`.
pub open spec fn branch_step(items: Seq<Seq<u8>>, path: Seq<u8>) -> Step {
    if path.len() == 0 {
        match string_of(items[16]) {
            Some(v) => if v.len() > 0 {
                Step::Found(v)
            } else {
                Step::Fail
            },
            None => Step::Fail,
        }
    } else if path[0] >= 16 {
        Step::Fail
    } else {
        match child_hash(items[path[0] as int]) {
            Some(h) => Step::Descend(h, path.skip(1)),
            None => Step::Fail,
        }
    }
}

/// Where a leaf or an extension node with the given items leads for `path`.
pub open spec fn short_step(items: Seq<Seq<u8>>, path: Seq<u8>) -> Step {
    match string_of(items[0]) {
        None => Step::Fail,
        Some(p) => match compact_path(p) {
            None => Step::Fail,
            Some(covered) => if covered.is_leaf {
                if covered.nibbles == path {
                    match string_of(items[1]) {
                        Some(v) => Step::Found(v),
                        None => Step::Fail,
                    }
                } else {
                    Step::Fail
                }
            } else if starts_with(path, covered.nibbles) {
                match child_hash(items[1]) {
                    Some(h) => Step::Descend(h, path.skip(covered.nibbles.len() as int)),
                    None => Step::Fail,
                }
            } else {
                Step::Fail
            },
        },
    }
}

/// Where the encoded node `node` leads for `path`. A node is a list of 17
/// items (a branch) or of two (a leaf or an extension); children are
/// referred to by hash.
pub open spec fn node_step(node: Seq<u8>, path: Seq<u8>) -> Step {
    match list_of(node) {
        None => Step::Fail,
        Some(items) => if items.len() == 17 {
            branch_step(items, path)
        } else if items.len() == 2 {
            short_step(items, path)
        } else {
            Step::Fail
        },
    }
}

/// The value that `proof` proves for `path` under the root hash `root`:
/// the first node has the hash `root`, each node leads to the next by its
/// hash, and the last one holds the value. `None` where the proof does not
/// lead to a value.
pub open spec fn proved_value(root: Seq<u8>, path: Seq<u8>, proof: Seq<Seq<u8>>) -> Option<Seq<u8>>
    decreases proof.len(),
{
    if proof.len() == 0 || keccak256_digest(proof[0]) != root {
        None
    } else {
        match node_step(proof[0], path) {
            Step::Found(v) => Some(v),
            Step::Descend(h, rest) => proved_value(h, rest, proof.skip(1)),
            Step::Fail => None,
        }
    }
}

/// The half-bytes of `key`.
pub fn to_nibbles(key: &[u8]) -> (r: Vec<u8>)
    ensures
        r@ == nibbles(key@),
{
    let mut r: Vec<u8> = Vec::new();
    let mut i: usize = 0;
    while i < key.len()
        invariant
            i <= key@.len(),
            r@.len() == 2 * i,
            forall|j: int| 0 <= j < 2 * i ==> r@[j] == nibbles(key@)[j],
        decreases key@.len() - i,
    {
        r.push(key[i] / 16);
        r.push(key[i] % 16);
        i += 1;
    }
    assert(r@ =~= nibbles(key@));
    r
}

/// Reads the compact form of a path.
fn read_compact(p: &Vec<u8>) -> (r: Option<(bool, Vec<u8>)>)
    ensures
        match r {
            Some((is_leaf, nibs)) => compact_path(p@) == Some(NodePath { is_leaf, nibbles: nibs@ }),
            None => compact_path(p@) is None,
        },
{
    if p.len() == 0 {
        return None;
    }
    let flag: u8 = p[0] / 16;
    if flag > 3 {
        return None;
    }
    let odd = flag % 2 == 1;
    if !odd && p[0] % 16 != 0 {
        return None;
    }
    let mut nibs: Vec<u8> = Vec::new();
    if odd {
        nibs.push(p[0] % 16);
    }
    let ghost front = nibs@;
    let ghost tail = nibbles(p@.skip(1));
    let mut i: usize = 1;
    while i < p.len()
        invariant
            1 <= i <= p@.len(),
            tail == nibbles(p@.skip(1)),
            nibs@.len() == front.len() + 2 * (i - 1),
            forall|j: int| 0 <= j < front.len() ==> nibs@[j] == front[j],
            forall|j: int| 0 <= j < 2 * (i - 1) ==> nibs@[front.len() + j] == tail[j],
        decreases p@.len() - i,
    {
        nibs.push(p[i] / 16);
        nibs.push(p[i] % 16);
        i += 1;
    }
    assert(nibs@ =~= front + tail);
    assert(Seq::<u8>::empty() + tail =~= tail);
    Some((flag >= 2, nibs))
}

/// Reads the hash by which a node refers to a child.
fn read_child_hash(item: &Vec<u8>) -> (r: Option<H256>)
    ensures
        match r {
            Some(h) => child_hash(item@) == Some(h@),
            None => child_hash(item@) is None,
        },
{
    let bytes = match decode_string(item.as_slice()) {
        Some(b) => b,
        None => { return None; },
    };
    if bytes.len() != 32 {
        return None;
    }
    let mut h: H256 = [0u8; 32];
    let mut i: usize = 0;
    while i < 32
        invariant
            i <= 32,
            bytes@.len() == 32,
            forall|j: int| 0 <= j < i ==> h@[j] == bytes@[j],
        decreases 32 - i,
    {
        h[i] = bytes[i];
        i += 1;
    }
    assert(h@ =~= bytes@);
    Some(h)
}

/// Whether the half-bytes of `path` from `pos` on begin with `prefix`.
fn path_starts_with(path: &Vec<u8>, pos: usize, prefix: &Vec<u8>) -> (r: bool)
    requires
        pos <= path@.len(),
    ensures
        r == starts_with(path@.skip(pos as int), prefix@),
{
    let ghost rest = path@.skip(pos as int);
    let total = path.len();
    if prefix.len() > total - pos {
        return false;
    }
    let mut i: usize = 0;
    while i < prefix.len()
        invariant
            i <= prefix@.len(),
            pos + prefix@.len() <= path@.len() == total,
            rest == path@.skip(pos as int),
            forall|j: int| 0 <= j < i ==> rest[j] == prefix@[j],
        decreases prefix@.len() - i,
    {
        if path[pos + i] != prefix[i] {
            assert(rest.subrange(0, prefix@.len() as int)[i as int] != prefix@[i as int]);
            return false;
        }
        i += 1;
    }
    assert(rest.subrange(0, prefix@.len() as int) =~= prefix@);
    true
}

/// Where one node leads, with the rest of the key given as a position in it.
pub enum NodeStep {
    /// The node holds the value of the key.
    Found(Vec<u8>),
    /// The key goes on in the child with this hash, from this position.
    Descend(H256, usize),
    /// The node does not lead to a value of the key.
    Fail,
}

/// Where the encoded node `node` leads for the half-bytes of `path` from `pos` on.
pub fn step_through(node: &Vec<u8>, path: &Vec<u8>, pos: usize) -> (r: NodeStep)
    requires
        pos <= path@.len(),
    ensures
        match r {
            NodeStep::Found(v) => node_step(node@, path@.skip(pos as int)) == Step::Found(v@),
            NodeStep::Descend(h, next) => pos <= next <= path@.len() && node_step(
                node@,
                path@.skip(pos as int),
            ) == Step::Descend(h@, path@.skip(next as int)),
            NodeStep::Fail => node_step(node@, path@.skip(pos as int)) is Fail,
        },
{
    let ghost rest = path@.skip(pos as int);
    let total = path.len();
    let items = match decode_list(node.as_slice()) {
        Some(items) => items,
        None => { return NodeStep::Fail; },
    };
    assert(forall|i: int| 0 <= i < items@.len() ==> views(items@)[i] == items@[i]@);
    if items.len() == 17 {
        if pos == total {
            match decode_string(items[16].as_slice()) {
                Some(v) => if v.len() > 0 {
                    NodeStep::Found(v)
                } else {
                    NodeStep::Fail
                },
                None => NodeStep::Fail,
            }
        } else {
            let nibble = path[pos];
            assert(rest[0] == nibble);
            if nibble >= 16 {
                return NodeStep::Fail;
            }
            match read_child_hash(&items[nibble as usize]) {
                Some(h) => {
                    assert(rest.skip(1) =~= path@.skip(pos + 1));
                    NodeStep::Descend(h, pos + 1)
                },
                None => NodeStep::Fail,
            }
        }
    } else if items.len() == 2 {
        let compact = match decode_string(items[0].as_slice()) {
            Some(c) => c,
            None => { return NodeStep::Fail; },
        };
        let (is_leaf, covered) = match read_compact(&compact) {
            Some(c) => c,
            None => { return NodeStep::Fail; },
        };
        let begins = path_starts_with(path, pos, &covered);
        if is_leaf {
            if begins && covered.len() == total - pos {
                assert(rest.subrange(0, covered@.len() as int) =~= rest);
                match decode_string(items[1].as_slice()) {
                    Some(v) => NodeStep::Found(v),
                    None => NodeStep::Fail,
                }
            } else {
                assert(covered@ != rest) by {
                    if covered@ == rest {
                        assert(rest.subrange(0, rest.len() as int) =~= rest);
                    }
                }
                NodeStep::Fail
            }
        } else if begins {
            match read_child_hash(&items[1]) {
                Some(h) => {
                    assert(rest.skip(covered@.len() as int) =~= path@.skip(pos + covered@.len()));
                    NodeStep::Descend(h, pos + covered.len())
                },
                None => NodeStep::Fail,
            }
        } else {
            NodeStep::Fail
        }
    } else {
        NodeStep::Fail
    }
}

/// The value that `proof` proves for `key` under the root hash `root`.
pub fn verify_proof(root: &H256, key: &[u8], proof: &Vec<Vec<u8>>) -> (r: Option<Vec<u8>>)
    ensures
        match r {
            Some(v) => proved_value(root@, nibbles(key@), views(proof@)) == Some(v@),
            None => proved_value(root@, nibbles(key@), views(proof@)) is None,
        },
{
    let path = to_nibbles(key);
    let ghost nodes = views(proof@);
    let mut expected: H256 = *root;
    let mut pos: usize = 0;
    let mut i: usize = 0;
    assert(path@.skip(0) =~= path@);
    assert(nodes.skip(0) =~= nodes);
    while i < proof.len()
        invariant
            i <= proof@.len(),
            pos <= path@.len(),
            nodes == views(proof@),
            proved_value(root@, nibbles(key@), nodes) == proved_value(
                expected@,
                path@.skip(pos as int),
                nodes.skip(i as int),
            ),
        decreases proof@.len() - i,
    {
        let node = &proof[i];
        proof {
            assert(nodes.skip(i as int)[0] == node@);
            assert(nodes.skip(i as int).skip(1) =~= nodes.skip(i + 1));
        }
        let digest = keccak256(node.as_slice());
        if !bytes_eq(digest.as_slice(), expected.as_slice()) {
            return None;
        }
        match step_through(node, &path, pos) {
            NodeStep::Found(v) => { return Some(v); },
            NodeStep::Descend(h, next) => {
                expected = h;
                pos = next;
            },
            NodeStep::Fail => { return None; },
        }
        i += 1;
    }
    None
}

} // verus!
