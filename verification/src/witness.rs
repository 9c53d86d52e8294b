//! Witnesses: the stored paths from notes to the root of the commitment tree.
//!
//! A witness holds the tree as it was when the note was added, the subtrees completed since,
//! and the subtree being filled now. `incrementalmerkletree` makes a path of it where the
//! parts fit together.

use incrementalmerkletree::witness::IncrementalWitness;
use incrementalmerkletree::MerklePath;
use sapling_crypto::{Node, Note};
use vstd::prelude::*;
use vstd::slice::slice_subrange;
use zcash_primitives::merkle_tree::read_incremental_witness;

verus! {

/// `sapling_crypto::Node`, carried through unread.
#[verifier::external_type_specification]
#[verifier::external_body]
pub struct ExNode(Node);

/// `incrementalmerkletree::witness::IncrementalWitness`, carried through unread.
#[verifier::external_type_specification]
#[verifier::external_body]
#[verifier::reject_recursive_types(H)]
pub struct ExIncrementalWitness<H, const DEPTH: u8>(IncrementalWitness<H, DEPTH>);

/// `incrementalmerkletree::MerklePath`, carried through unread.
#[verifier::external_type_specification]
#[verifier::external_body]
#[verifier::reject_recursive_types(H)]
pub struct ExMerklePath<H, const DEPTH: u8>(MerklePath<H, DEPTH>);

/// The depth of the Sapling note commitment tree.
pub const TREE_DEPTH: usize = 32;

/// How many bytes a witness is read from at most; that of a whole tree takes less than half
/// of them.
pub const WITNESS_LIMIT: usize = 7_167;

/// The bytes that a witness is read from: it stands at the front of what is stored.
pub open spec fn witness_front(bytes: Seq<u8>) -> Seq<u8> {
    if bytes.len() > WITNESS_LIMIT {
        bytes.take(WITNESS_LIMIT as int)
    } else {
        bytes
    }
}

/// Cuts stored bytes down to those that a witness is read from.
pub fn front_of(bytes: &Vec<u8>) -> (front: &[u8])
    ensures
        front@ == witness_front(bytes@),
{
    let stored = bytes.as_slice();
    if stored.len() > WITNESS_LIMIT {
        slice_subrange(stored, 0, WITNESS_LIMIT)
    } else {
        stored
    }
}

/// The witness that `read_incremental_witness` reads from the bytes, where it succeeds.
pub uninterp spec fn parsed_witness(bytes: Seq<u8>) -> Option<IncrementalWitness<Node, 32>>;

/// Calls `read_incremental_witness`, which reads or rejects bytes by their contents alone, and
/// ignores those behind the witness. Which error reports a rejection is left open. The call
/// panics where a witness claims hundreds of completed subtrees, for which there is no room
/// in bytes within the limit.
#[verifier::external_body]
pub(crate) fn read_witness(bytes: &[u8]) -> (r: Result<
    IncrementalWitness<Node, 32>,
    std::io::Error,
>)
    requires
        bytes@.len() <= WITNESS_LIMIT,
    ensures
        match r {
            Ok(witness) => parsed_witness(bytes@) == Some(witness),
            Err(_) => parsed_witness(bytes@) is None,
        },
{
    read_incremental_witness(bytes)
}

/// Which parts of a witness are there.
#[verifier::ext_equal]
pub struct PartsView {
    /// The nodes of the tree up to the note that are present: the two newest leaves, then
    /// the roots of the complete subtrees to their left, smallest first.
    pub slots: Seq<bool>,
    /// The number of subtrees completed since.
    pub filled: usize,
    /// There is a subtree being filled now.
    pub cursor: bool,
}

/// What a `PartsView` describes.
pub struct Parts {
    pub slots: Vec<bool>,
    pub filled: usize,
    pub cursor: bool,
}

impl View for Parts {
    type V = PartsView;

    open spec fn view(&self) -> PartsView {
        PartsView { slots: self.slots@, filled: self.filled, cursor: self.cursor }
    }
}

/// The parts that `IncrementalWitness::tree`, `filled` and `cursor` show.
pub uninterp spec fn witness_parts(witness: IncrementalWitness<Node, 32>) -> PartsView;

/// Reads which parts a witness has. A tree has two leaves and no more than one parent for
/// each of the levels above them.
#[verifier::external_body]
pub(crate) fn parts(witness: &IncrementalWitness<Node, 32>) -> (r: Parts)
    ensures
        r@ == witness_parts(*witness),
        2 <= r.slots@.len() <= TREE_DEPTH + 1,
{
    let tree = witness.tree();
    let mut slots = vec![tree.left().is_some(), tree.right().is_some()];
    slots.extend(tree.parents().iter().map(|node| node.is_some()));
    Parts { slots, filled: witness.filled().len(), cursor: witness.cursor().is_some() }
}

/// The number of nodes that are absent.
pub open spec fn absent(present: Seq<bool>) -> int
    decreases present.len(),
{
    if present.len() == 0 {
        0
    } else {
        absent(present.drop_last()) + if present.last() {
            0int
        } else {
            1int
        }
    }
}

/// The position of the absent node that comes after `skip` others; where there are not as
/// many, that many positions behind the end.
pub open spec fn absent_after(present: Seq<bool>, skip: int) -> int
    decreases present.len(),
{
    if present.len() == 0 || skip >= absent(present) {
        present.len() + skip - absent(present)
    } else {
        absent_after(present.drop_last(), skip)
    }
}

/// The depth of the subtree being filled after `filled` others: the two leaves are at the
/// bottom, and each parent lies one level above the one before.
pub open spec fn cursor_depth(slots: Seq<bool>, filled: int) -> int {
    let at = absent_after(slots, filled);
    if at < 2 {
        0
    } else {
        at - 1
    }
}

/// The parts fit together: a subtree being filled now lies above the leaves, and reaches no
/// higher than one level above the tree, for which an empty root is known.
pub open spec fn fits(parts: PartsView) -> bool {
    parts.cursor ==> 0 < cursor_depth(parts.slots, parts.filled as int) <= TREE_DEPTH + 1
}

proof fn lemma_absent_of_prefix(present: Seq<bool>, i: int)
    requires
        0 <= i <= present.len(),
    ensures
        0 <= absent(present.take(i)) <= absent(present) <= present.len(),
    decreases present.len(),
{
    if i == present.len() {
        assert(present.take(i) =~= present);
        if i > 0 {
            lemma_absent_of_prefix(present.drop_last(), i - 1);
        }
    } else {
        assert(present.drop_last().take(i) =~= present.take(i));
        lemma_absent_of_prefix(present.drop_last(), i);
    }
}

/// The absent node at position `i` comes after those absent before it.
proof fn lemma_absent_after(present: Seq<bool>, i: int)
    requires
        0 <= i < present.len(),
        !present[i],
    ensures
        absent_after(present, absent(present.take(i))) == i,
    decreases present.len(),
{
    let skip = absent(present.take(i));
    assert(present.take(i + 1).drop_last() =~= present.take(i));
    assert(absent(present.take(i + 1)) == skip + 1);
    lemma_absent_of_prefix(present, i + 1);
    let front = present.drop_last();
    if i == present.len() - 1 {
        assert(present.take(i) =~= front);
        assert(absent_after(front, skip) == i);
    } else {
        assert(front.take(i) =~= present.take(i));
        assert(front[i] == present[i]);
        lemma_absent_after(front, i);
    }
}

/// Decides whether the parts of a witness fit together.
pub fn parts_fit(parts: &Parts) -> (r: bool)
    requires
        2 <= parts.slots@.len() <= TREE_DEPTH + 1,
    ensures
        r == fits(parts@),
{
    if !parts.cursor {
        return true;
    }
    let ghost all = parts.slots@;
    proof {
        lemma_absent_of_prefix(all, all.len() as int);
    }
    if parts.filled > 2 * TREE_DEPTH + 3 {
        return false;
    }
    let mut skip: usize = parts.filled;
    let mut i: usize = 0;
    assert(all.take(0) =~= Seq::<bool>::empty());
    while i < parts.slots.len()
        invariant
            i <= all.len(),
            all == parts.slots@,
            parts.cursor,
            2 <= all.len() <= TREE_DEPTH + 1,
            skip + absent(all.take(i as int)) == parts.filled,
        decreases all.len() - i,
    {
        assert(all.take(i + 1).drop_last() =~= all.take(i as int));
        if !parts.slots[i] {
            if skip == 0 {
                proof {
                    lemma_absent_after(all, i as int);
                }
                return i >= 2;
            }
            skip = skip - 1;
        }
        i = i + 1;
    }
    assert(all.take(i as int) =~= all);
    i + skip - 1 <= TREE_DEPTH + 1
}

/// The path that `IncrementalWitness::path` finds.
pub uninterp spec fn witness_path(witness: IncrementalWitness<Node, 32>) -> Option<
    MerklePath<Node, 32>,
>;

/// Calls `IncrementalWitness::path`. The path depends on the witness alone, and is there
/// where the tree up to the note has a left leaf. The call panics where the parts of the
/// witness do not fit together.
#[verifier::external_body]
pub(crate) fn find_path(witness: &IncrementalWitness<Node, 32>) -> (path: Option<
    MerklePath<Node, 32>,
>)
    requires
        fits(witness_parts(*witness)),
    ensures
        path == witness_path(*witness),
        path is Some == witness_parts(*witness).slots[0],
{
    witness.path()
}

/// The root that `MerklePath::root` computes for the commitment of a note.
pub uninterp spec fn path_root(note: Note, path: MerklePath<Node, 32>) -> Seq<u8>;

/// Calls `MerklePath::root` on the commitment of a note; the root depends on the two alone.
#[verifier::external_body]
pub(crate) fn find_root(note: &Note, path: &MerklePath<Node, 32>) -> (root: [u8; 32])
    ensures
        root@ == path_root(*note, *path),
{
    path.root(Node::from_cmu(&note.cmu())).to_bytes()
}

} // verus!
