//! Commitments to lists of digests: a tree of hashes, whose root commits to
//! all leaves, and paths that show one leaf to be under a root.

use crate::shared_math::b_field_element::is_power_of_two;
use crate::shared_math::b_field_element::lemma_pow2_step;
use crate::shared_math::b_field_element::pow2;
use crate::utils::blake3_digest;
use crate::utils::blake3_hash;
use vstd::prelude::*;

verus! {

/// A digest: the 32 bytes of a hash.
pub type Digest = [u8; 32];

/// The views of a list of digests.
pub open spec fn digest_views(digests: Seq<Digest>) -> Seq<Seq<u8>> {
    Seq::new(digests.len(), |i: int| digests[i]@)
}

/// The hash of a node: that of its two children, one after the other.
pub open spec fn node_hash(left: Seq<u8>, right: Seq<u8>) -> Seq<u8> {
    blake3_hash(left + right)
}

/// The level above a level of a tree: the hashes of its pairs.
pub open spec fn next_level(level: Seq<Seq<u8>>) -> Seq<Seq<u8>> {
    Seq::new(level.len() / 2, |i: int| node_hash(level[2 * i], level[2 * i + 1]))
}

/// The place of the sibling of the node at place `index` of its level.
pub open spec fn sibling(index: int) -> int {
    if index % 2 == 0 {
        index + 1
    } else {
        index - 1
    }
}

/// The root that a leaf at place `index` leads to along a path of
/// siblings, lowest first.
pub open spec fn root_from_path(leaf: Seq<u8>, index: int, path: Seq<Seq<u8>>) -> Seq<u8>
    decreases path.len(),
{
    if path.len() == 0 {
        leaf
    } else {
        let parent = if index % 2 == 0 {
            node_hash(leaf, path[0])
        } else {
            node_hash(path[0], leaf)
        };
        root_from_path(parent, index / 2, path.drop_first())
    }
}

/// The path of siblings from the node at place `index` of level `k` up to
/// the root.
pub open spec fn path_from(levels: Seq<Seq<Seq<u8>>>, k: int, index: int) -> Seq<Seq<u8>>
    decreases levels.len() - k,
{
    if k + 1 >= levels.len() {
        Seq::<Seq<u8>>::empty()
    } else {
        seq![levels[k][sibling(index)]] + path_from(levels, k + 1, index / 2)
    }
}

/// Whether the levels are those of a tree: each level above the first is
/// the level above the one below it, and the last is the root alone.
pub open spec fn levels_form_tree(levels: Seq<Seq<Seq<u8>>>) -> bool {
    &&& levels.len() >= 1
    &&& levels.last().len() == 1
    &&& forall|k: int|
        0 <= k < levels.len() - 1 ==> (#[trigger] levels[k]).len() == 2 * levels[k + 1].len()
            && levels[k + 1] == next_level(levels[k])
}

/// The levels of the tree over the given leaves: the leaves, then the
/// levels above them up to the root.
pub open spec fn levels_of(leaves: Seq<Seq<u8>>) -> Seq<Seq<Seq<u8>>>
    decreases leaves.len(),
{
    if leaves.len() <= 1 {
        seq![leaves]
    } else {
        seq![leaves] + levels_of(next_level(leaves))
    }
}

/// The root of the tree over the given leaves.
pub open spec fn root_of(leaves: Seq<Seq<u8>>) -> Seq<u8> {
    levels_of(leaves).last()[0]
}

/// The path of siblings from leaf `index` of the tree over the given leaves
/// up to its root.
pub open spec fn path_of(leaves: Seq<Seq<u8>>, index: int) -> Seq<Seq<u8>> {
    path_from(levels_of(leaves), 0, index)
}

/// Whether each of the digests has the length of a digest.
pub open spec fn digests_sized(digests: Seq<Seq<u8>>) -> bool {
    forall|i: int| 0 <= i < digests.len() ==> (#[trigger] digests[i]).len() == 32
}

/// Whether each node of each level has the length of a digest.
pub open spec fn levels_sized(levels: Seq<Seq<Seq<u8>>>) -> bool {
    forall|k: int| 0 <= k < levels.len() ==> digests_sized(#[trigger] levels[k])
}

/// The levels over a number of leaves that is a power of two form a tree,
/// of fewer levels than the number of leaves has bits.
pub proof fn lemma_levels_of_form_tree(leaves: Seq<Seq<u8>>, bits: nat)
    requires
        is_power_of_two(leaves.len()),
        leaves.len() < pow2(bits),
    ensures
        levels_form_tree(levels_of(leaves)),
        levels_of(leaves)[0] == leaves,
        levels_of(leaves).len() <= bits,
    decreases leaves.len(),
{
    let levels = levels_of(leaves);
    if bits > 0 {
        lemma_pow2_step((bits - 1) as nat);
    }
    if leaves.len() > 1 {
        let above = next_level(leaves);
        assert(bits >= 2) by {
            if bits == 1 {
                lemma_pow2_step(0);
            }
        }
        lemma_levels_of_form_tree(above, (bits - 1) as nat);
        let rest = levels_of(above);
        assert(levels =~= seq![leaves] + rest);
        assert(levels.last() == rest.last());
        assert forall|k: int| 0 <= k < levels.len() - 1 implies (#[trigger] levels[k]).len() == 2
            * levels[k + 1].len() && levels[k + 1] == next_level(levels[k]) by {
            if k == 0 {
                assert(levels[1] == rest[0]);
            } else {
                assert(levels[k] == rest[k - 1]);
                assert(levels[k + 1] == rest[k]);
            }
        }
    }
}

/// The path of a leaf leads to the root of the tree over the leaves.
pub proof fn lemma_path_of_leads_to_root(leaves: Seq<Seq<u8>>, index: int)
    requires
        is_power_of_two(leaves.len()),
        leaves.len() < pow2(64),
        0 <= index < leaves.len(),
    ensures
        root_from_path(leaves[index], index, path_of(leaves, index)) == root_of(leaves),
        path_of(leaves, index).len() < 64,
{
    lemma_levels_of_form_tree(leaves, 64);
    lemma_path_leads_to_root(levels_of(leaves), 0, index);
}

/// The siblings on a path are nodes of the levels.
pub proof fn lemma_path_is_sized(levels: Seq<Seq<Seq<u8>>>, k: int, index: int)
    requires
        levels_form_tree(levels),
        levels_sized(levels),
        0 <= k < levels.len(),
        0 <= index < levels[k].len(),
    ensures
        digests_sized(path_from(levels, k, index)),
    decreases levels.len() - k,
{
    if k + 1 < levels.len() {
        assert(levels[k].len() == 2 * levels[k + 1].len());
        lemma_path_is_sized(levels, k + 1, index / 2);
        let path = path_from(levels, k, index);
        let rest = path_from(levels, k + 1, index / 2);
        assert(path =~= seq![levels[k][sibling(index)]] + rest);
        assert(digests_sized(levels[k]));
        assert forall|i: int| 0 <= i < path.len() implies (#[trigger] path[i]).len() == 32 by {
            if i > 0 {
                assert(path[i] == rest[i - 1]);
            }
        }
    }
}

/// In a tree whose nodes have the length of a digest, so have the root
/// and the siblings on the path of each leaf.
pub proof fn lemma_root_and_path_are_sized(leaves: Seq<Seq<u8>>, index: int)
    requires
        is_power_of_two(leaves.len()),
        leaves.len() < pow2(64),
        levels_sized(levels_of(leaves)),
        0 <= index < leaves.len(),
    ensures
        root_of(leaves).len() == 32,
        digests_sized(path_of(leaves, index)),
{
    let levels = levels_of(leaves);
    lemma_levels_of_form_tree(leaves, 64);
    lemma_path_is_sized(levels, 0, index);
    assert(digests_sized(levels.last()));
}

/// Levels that form a tree are the levels of the tree over the first of
/// them.
pub proof fn lemma_levels_are_levels_of(levels: Seq<Seq<Seq<u8>>>)
    requires
        levels_form_tree(levels),
    ensures
        levels == levels_of(levels[0]),
    decreases levels.len(),
{
    if levels.len() == 1 {
        assert(levels =~= seq![levels[0]]);
    } else {
        let rest = levels.subrange(1, levels.len() as int);
        assert(levels[0].len() == 2 * levels[1].len());
        assert(rest.last() == levels.last());
        assert forall|k: int| 0 <= k < rest.len() - 1 implies (#[trigger] rest[k]).len() == 2
            * rest[k + 1].len() && rest[k + 1] == next_level(rest[k]) by {
            assert(rest[k] == levels[k + 1]);
            assert(levels[k + 1].len() == 2 * levels[k + 2].len());
        }
        lemma_levels_are_levels_of(rest);
        assert(rest[0] == next_level(levels[0]));
        assert(levels[0].len() >= 2) by {
            lemma_levels_nonempty(rest, 0);
        }
        assert(levels =~= seq![levels[0]] + rest);
    }
}

/// No level of a tree is empty.
pub proof fn lemma_levels_nonempty(levels: Seq<Seq<Seq<u8>>>, k: int)
    requires
        levels_form_tree(levels),
        0 <= k < levels.len(),
    ensures
        levels[k].len() >= 1,
    decreases levels.len() - k,
{
    if k < levels.len() - 1 {
        lemma_levels_nonempty(levels, k + 1);
        assert(levels[k].len() == 2 * levels[k + 1].len());
    }
}

/// Every leaf of a tree leads to its root along its path.
pub proof fn lemma_path_leads_to_root(levels: Seq<Seq<Seq<u8>>>, k: int, index: int)
    requires
        levels_form_tree(levels),
        0 <= k < levels.len(),
        0 <= index < levels[k].len(),
    ensures
        root_from_path(levels[k][index], index, path_from(levels, k, index)) == levels.last()[0],
        path_from(levels, k, index).len() == levels.len() - 1 - k,
    decreases levels.len() - k,
{
    if k + 1 < levels.len() {
        let path = path_from(levels, k, index);
        assert(levels[k].len() == 2 * levels[k + 1].len());
        assert(levels[k + 1] == next_level(levels[k]));
        let j = index / 2;
        assert(path.drop_first() =~= path_from(levels, k + 1, j));
        assert(levels[k + 1][j] == node_hash(levels[k][2 * j], levels[k][2 * j + 1]));
        lemma_path_leads_to_root(levels, k + 1, j);
    }
}

/// The hash of a node from the digests of its children.
pub fn hash_pair(left: &Digest, right: &Digest) -> (r: Digest)
    ensures
        r@ == node_hash(left@, right@),
{
    let mut both: Vec<u8> = Vec::new();
    let mut i: usize = 0;
    while i < 32
        invariant
            i <= 32,
            both@ == left@.subrange(0, i as int),
        decreases 32 - i,
    {
        both.push(left[i]);
        assert(both@ =~= left@.subrange(0, i + 1));
        i = i + 1;
    }
    let mut i: usize = 0;
    while i < 32
        invariant
            i <= 32,
            both@ == left@.subrange(0, 32) + right@.subrange(0, i as int),
        decreases 32 - i,
    {
        both.push(right[i]);
        assert(both@ =~= left@.subrange(0, 32) + right@.subrange(0, i + 1));
        i = i + 1;
    }
    assert(both@ =~= left@ + right@);
    blake3_digest(both.as_slice())
}

/// Whether two digests are the same.
pub fn same_digest(a: &Digest, b: &Digest) -> (r: bool)
    ensures
        r == (a@ == b@),
{
    let mut i: usize = 0;
    while i < 32
        invariant
            i <= 32,
            forall|j: int| 0 <= j < i ==> a[j] == b[j],
        decreases 32 - i,
    {
        if a[i] != b[i] {
            return false;
        }
        i = i + 1;
    }
    assert(a@ =~= b@);
    true
}

/// A tree of hashes over a list of leaves, whose number is a power of two.
#[derive(Debug, Clone)]
pub struct MerkleTree {
    /// The levels of the tree, the leaves first and the root last.
    pub levels: Vec<Vec<Digest>>,
}

impl MerkleTree {
    /// The levels of the tree as sequences of bytes.
    pub open spec fn level_views(&self) -> Seq<Seq<Seq<u8>>> {
        Seq::new(self.levels.len() as nat, |k: int| digest_views(self.levels[k]@))
    }

    /// Whether the levels are those of a tree.
    pub open spec fn well_formed(&self) -> bool {
        levels_form_tree(self.level_views())
    }

    /// The leaves of the tree.
    pub open spec fn leaves(&self) -> Seq<Seq<u8>> {
        self.level_views()[0]
    }

    /// The root of the tree.
    pub open spec fn root(&self) -> Seq<u8> {
        self.level_views().last()[0]
    }

    /// The tree over the given leaves; `None` unless their number is a power
    /// of two.
    #[verifier::loop_isolation(false)]
    pub fn from_digests(leaves: Vec<Digest>) -> (r: Option<MerkleTree>)
        ensures
            r is Some <==> is_power_of_two(leaves.len() as nat),
            r is Some ==> r->Some_0.well_formed() && r->Some_0.leaves() == digest_views(leaves@)
                && r->Some_0.level_views() == levels_of(digest_views(leaves@)),
    {
        if leaves.len() == 0 {
            return None;
        }
        let ghost first = digest_views(leaves@);
        let mut levels: Vec<Vec<Digest>> = Vec::new();
        levels.push(leaves);
        loop
            invariant
                levels.len() >= 1,
                levels[0].len() >= 1,
                digest_views(levels[0]@) == first,
                levels[levels.len() - 1].len() >= 1,
                is_power_of_two(levels[0].len() as nat) == is_power_of_two(
                    levels[levels.len() - 1].len() as nat,
                ),
                forall|k: int|
                    0 <= k < levels.len() - 1 ==> (#[trigger] levels[k]).len() == 2 * levels[k
                        + 1].len() && digest_views(levels[k + 1]@) == next_level(
                        digest_views(levels[k]@),
                    ),
            decreases levels[levels.len() - 1].len(),
        {
            let top = levels.len() - 1;
            let n = levels[top].len();
            if n == 1 {
                let tree = MerkleTree { levels };
                proof {
                    let views = tree.level_views();
                    assert(views.last().len() == 1);
                    assert forall|k: int| 0 <= k < views.len() - 1 implies (#[trigger] views[k]).len()
                        == 2 * views[k + 1].len() && views[k + 1] == next_level(views[k]) by {
                        assert(tree.levels[k].len() == 2 * tree.levels[k + 1].len());
                    }
                    lemma_levels_are_levels_of(views);
                }
                return Some(tree);
            }
            if n % 2 != 0 {
                return None;
            }
            let mut above: Vec<Digest> = Vec::new();
            let mut i: usize = 0;
            while i < n / 2
                invariant
                    i <= n / 2,
                    top == levels.len() - 1,
                    n == levels[top as int].len(),
                    n % 2 == 0,
                    above.len() == i,
                    forall|j: int|
                        0 <= j < i ==> (#[trigger] above[j])@ == node_hash(
                            levels[top as int][2 * j]@,
                            levels[top as int][2 * j + 1]@,
                        ),
                decreases n / 2 - i,
            {
                above.push(hash_pair(&levels[top][2 * i], &levels[top][2 * i + 1]));
                i = i + 1;
            }
            assert(digest_views(above@) =~= next_level(digest_views(levels[top as int]@)));
            assert(is_power_of_two(n as nat) == is_power_of_two((n / 2) as nat));
            levels.push(above);
        }
    }

    /// The root of the tree.
    pub fn get_root(&self) -> (r: Digest)
        requires
            self.well_formed(),
        ensures
            r@ == self.root(),
            r@ == root_of(self.leaves()),
    {
        proof {
            lemma_levels_are_levels_of(self.level_views());
        }
        assert(self.level_views().last() == digest_views(self.levels[self.levels.len() - 1]@));
        self.levels[self.levels.len() - 1][0]
    }

    /// The number of leaves of the tree.
    pub fn get_leaf_count(&self) -> (r: usize)
        requires
            self.well_formed(),
        ensures
            r == self.leaves().len(),
    {
        self.levels[0].len()
    }

    /// The path of siblings from the leaf at `index` up to the root.
    pub fn get_authentication_path(&self, index: usize) -> (r: Vec<Digest>)
        requires
            self.well_formed(),
            index < self.leaves().len(),
        ensures
            digest_views(r@) == path_from(self.level_views(), 0, index as int),
            digest_views(r@) == path_of(self.leaves(), index as int),
            root_from_path(self.leaves()[index as int], index as int, digest_views(r@))
                == self.root(),
    {
        let ghost views = self.level_views();
        let mut path: Vec<Digest> = Vec::new();
        let mut place: usize = index;
        let mut k: usize = 0;
        let last = self.levels.len() - 1;
        proof {
            lemma_path_leads_to_root(views, 0, index as int);
            lemma_levels_are_levels_of(views);
        }
        while k < last
            invariant
                k <= last,
                last == self.levels.len() - 1,
                self.well_formed(),
                views == self.level_views(),
                place < self.levels[k as int].len(),
                path.len() == k,
                digest_views(path@) + path_from(views, k as int, place as int) == path_from(
                    views,
                    0,
                    index as int,
                ),
            decreases last - k,
        {
            assert(views[k as int].len() == 2 * views[k + 1].len());
            assert(views[k as int] == digest_views(self.levels[k as int]@));
            assert(views[k + 1] == digest_views(self.levels[k + 1]@));
            let other = if place % 2 == 0 {
                place + 1
            } else {
                place - 1
            };
            let ghost before = digest_views(path@);
            path.push(self.levels[k][other]);
            proof {
                assert(digest_views(path@) =~= before.push(views[k as int][sibling(place as int)]));
                assert(path_from(views, k as int, place as int) =~= seq![
                    views[k as int][sibling(place as int)],
                ] + path_from(views, k + 1, place as int / 2));
                assert(digest_views(path@) + path_from(views, k + 1, place as int / 2) =~= before
                    + path_from(views, k as int, place as int));
            }
            place = place / 2;
            k = k + 1;
        }
        proof {
            assert(path_from(views, last as int, place as int) =~= Seq::<Seq<u8>>::empty());
            assert(digest_views(path@) =~= path_from(views, 0, index as int));
        }
        path
    }

    /// Whether the leaf at place `index` leads to the root along the path.
    pub fn verify_authentication_path(
        root: &Digest,
        index: usize,
        leaf: &Digest,
        path: &Vec<Digest>,
    ) -> (r: bool)
        ensures
            r == (root_from_path(leaf@, index as int, digest_views(path@)) == root@),
    {
        let ghost views = digest_views(path@);
        let mut node: Digest = *leaf;
        let mut place: usize = index;
        let mut k: usize = 0;
        proof {
            assert(views.subrange(0, views.len() as int) =~= views);
        }
        while k < path.len()
            invariant
                k <= path.len(),
                views == digest_views(path@),
                root_from_path(node@, place as int, views.subrange(k as int, views.len() as int))
                    == root_from_path(leaf@, index as int, views),
            decreases path.len() - k,
        {
            proof {
                let rest = views.subrange(k as int, views.len() as int);
                assert(rest[0] == path[k as int]@);
                assert(rest.drop_first() =~= views.subrange(k + 1, views.len() as int));
            }
            node = if place % 2 == 0 {
                hash_pair(&node, &path[k])
            } else {
                hash_pair(&path[k], &node)
            };
            place = place / 2;
            k = k + 1;
        }
        same_digest(&node, root)
    }
}

/// The nodes of a tree have the length of a digest.
pub proof fn lemma_tree_is_sized(tree: MerkleTree)
    requires
        tree.well_formed(),
    ensures
        levels_sized(levels_of(tree.leaves())),
        tree.level_views() == levels_of(tree.leaves()),
{
    let levels = tree.level_views();
    lemma_levels_are_levels_of(levels);
    assert forall|k: int| 0 <= k < levels.len() implies digests_sized(#[trigger] levels[k]) by {
        assert forall|i: int| 0 <= i < levels[k].len() implies (#[trigger] levels[k][i]).len()
            == 32 by {
            assert(levels[k][i] == tree.levels[k]@[i]@);
        }
    }
}

} // verus!
