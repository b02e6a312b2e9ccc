use vstd::arithmetic::div_mod::{
    lemma_div_denominator, lemma_div_is_ordered, lemma_fundamental_div_mod,
    lemma_multiply_divide_lt,
};
use vstd::arithmetic::power2::{
    lemma2_to64, lemma2_to64_rest, lemma_pow2_adds, lemma_pow2_pos, lemma_pow2_strictly_increases,
    lemma_pow2_unfold, pow2,
};
use vstd::prelude::*;

use crate::field::{all_valid, vals, Felt};
use crate::sponge::{sponge_hash, Poseidon2Hash};

verus! {

/// The hash of an internal tree node from its two children, in (left,
/// right) order: the fixed-length two-element sponge hash.
pub open spec fn pair_hash(l: nat, r: nat) -> nat {
    sponge_hash(seq![l, r], false)
}

/// The value stored in leaf slot `i`: the `i`-th supplied value, or the
/// default where none was supplied.
pub open spec fn leaf_val(leaves: Seq<nat>, def: nat, i: nat) -> nat {
    if i < leaves.len() {
        leaves[i as int]
    } else {
        def
    }
}

/// The value of node `j` of the complete binary tree of the given depth,
/// in the 1-indexed array layout: node 1 is the root, node `j`'s children
/// are `2j` and `2j + 1`, nodes at and beyond `2^depth` are leaves, and
/// the unused slot 0 holds zero.
pub open spec fn node_val(depth: nat, leaves: Seq<nat>, def: nat, j: nat) -> nat
    decreases pow2(depth + 1) - j,
    via node_val_decreases
{
    if j == 0 {
        0
    } else if j >= pow2(depth) {
        leaf_val(leaves, def, (j - pow2(depth)) as nat)
    } else {
        pair_hash(
            node_val(depth, leaves, def, 2 * j),
            node_val(depth, leaves, def, 2 * j + 1),
        )
    }
}

#[via_fn]
proof fn node_val_decreases(depth: nat, leaves: Seq<nat>, def: nat, j: nat) {
    if j != 0 && j < pow2(depth) {
        lemma_pow2_adds(depth, 1);
        lemma2_to64();
        lemma_pow2_pos(depth);
    }
}

/// One step of the branch reconstruction: hash the accumulator with the
/// sibling, the sibling standing on the right when `dir` says so.
pub open spec fn step(acc: nat, dir: bool, sib: nat) -> nat {
    if dir {
        pair_hash(acc, sib)
    } else {
        pair_hash(sib, acc)
    }
}

/// The accumulator after following a whole authentication path, taken in
/// leaf-to-root order, starting from the leaf value.
pub open spec fn acc_after(leaf: nat, path: Seq<(bool, nat)>) -> nat
    decreases path.len(),
{
    if path.len() == 0 {
        leaf
    } else {
        step(acc_after(leaf, path.drop_last()), path.last().0, path.last().1)
    }
}

/// Every intermediate accumulator value, leaf-to-root: entry `k` is the
/// node value one level above the ones entry `k - 1` reached.
pub open spec fn branch_vals(leaf: nat, path: Seq<(bool, nat)>) -> Seq<nat> {
    Seq::new(path.len(), |k: int| acc_after(leaf, path.take(k + 1)))
}

/// The mathematical content of an executable path: direction bits and
/// sibling values.
pub open spec fn path_view(p: Seq<(bool, Felt)>) -> Seq<(bool, nat)> {
    p.map_values(|q: (bool, Felt)| (q.0, q.1.val()))
}

/// Every sibling on the path is a canonical field element.
pub open spec fn path_valid(p: Seq<(bool, Felt)>) -> bool {
    forall|i: int| 0 <= i < p.len() ==> (#[trigger] p[i]).1.valid()
}

/// The pairwise hash both Merkle components agree on: the fixed-length
/// sponge hash of exactly the two child values, left first.
pub fn tree_node_hash(left: Felt, right: Felt) -> (r: Felt)
    requires
        left.valid(),
        right.valid(),
    ensures
        r.val() == pair_hash(left.val(), right.val()),
        r.valid(),
{
    let mut pair: Vec<Felt> = Vec::new();
    pair.push(left);
    pair.push(right);
    let r = Poseidon2Hash::hash(pair.as_slice(), false);
    proof {
        assert(vals(pair@) =~= seq![left.val(), right.val()]);
    }
    r
}

/// 2^e as a machine integer.
#[verifier::loop_isolation(false)]
fn pow2_exec(e: usize) -> (r: usize)
    requires
        pow2(e as nat) <= usize::MAX,
    ensures
        r == pow2(e as nat),
{
    proof {
        lemma2_to64();
    }
    let mut r: usize = 1;
    let mut k: usize = 0;
    while k < e
        invariant
            k <= e,
            r == pow2(k as nat),
        decreases e - k,
    {
        proof {
            lemma_pow2_unfold(k as nat + 1);
            if k as nat + 1 < e as nat {
                lemma_pow2_strictly_increases(k as nat + 1, e as nat);
            }
        }
        r = r * 2;
        k = k + 1;
    }
    r
}

/// Builds the complete binary tree of the given depth: slot 0 unused and
/// zero, slots from `2^depth` on the leaves in input order (padded with
/// the default), every internal node the pairwise hash of its children.
#[verifier::loop_isolation(false)]
pub fn merkle_tree_internal(depth: usize, values: &[Felt], def: Felt) -> (r: Vec<Felt>)
    requires
        all_valid(values@),
        def.valid(),
        pow2(depth as nat + 1) <= usize::MAX,
    ensures
        r.len() == pow2(depth as nat + 1),
        all_valid(r@),
        forall|j: int| 0 <= j < r.len() ==> (#[trigger] r@[j]).val() == node_val(
            depth as nat,
            vals(values@),
            def.val(),
            j as nat,
        ),
{
    proof {
        lemma_pow2_unfold(depth as nat + 1);
        lemma_pow2_pos(depth as nat);
        lemma2_to64_rest();
        if depth as nat + 1 > 64 {
            lemma_pow2_strictly_increases(64, depth as nat + 1);
        }
    }
    let nodes_len = pow2_exec(depth + 1);
    let inner_nodes_len = nodes_len / 2;
    assert(inner_nodes_len == pow2(depth as nat));
    let mut nodes: Vec<Felt> = Vec::new();
    let mut f: usize = 0;
    while f < nodes_len
        invariant
            nodes.len() == f <= nodes_len,
            all_valid(nodes@),
            forall|j: int| 0 <= j < f ==> (#[trigger] nodes@[j]).val() == 0,
        decreases nodes_len - f,
    {
        nodes.push(Felt::zero());
        f = f + 1;
    }
    let mut node = nodes_len - 1;
    while node >= 1
        invariant
            0 <= node < nodes_len,
            nodes.len() == nodes_len,
            all_valid(nodes@),
            nodes@[0].val() == 0,
            forall|j: int| node < j < nodes_len ==> (#[trigger] nodes@[j]).val() == node_val(
                depth as nat,
                vals(values@),
                def.val(),
                j as nat,
            ),
        decreases node,
    {
        if node >= inner_nodes_len {
            let val_index = node - inner_nodes_len;
            let v = if val_index < values.len() {
                values[val_index]
            } else {
                def
            };
            nodes.set(node, v);
        } else {
            let left_child = nodes[2 * node];
            let right_child = nodes[2 * node + 1];
            let h = tree_node_hash(left_child, right_child);
            nodes.set(node, h);
        }
        node = node - 1;
    }
    nodes
}

/// Recomputes the chain of hashes from a leaf value up to the root,
/// following the authentication path in leaf-to-root order; entry `k` of
/// the result is the reconstructed node value `k + 1` levels above the
/// leaf, so the last entry is the root.
#[verifier::loop_isolation(false)]
pub fn merkle_branch_internal(leaf: Felt, path: &[(bool, Felt)]) -> (r: Vec<Felt>)
    requires
        leaf.valid(),
        path_valid(path@),
    ensures
        r.len() == path@.len(),
        all_valid(r@),
        vals(r@) == branch_vals(leaf.val(), path_view(path@)),
{
    let mut acc = leaf;
    let mut r: Vec<Felt> = Vec::new();
    let mut i: usize = 0;
    while i < path.len()
        invariant
            0 <= i <= path@.len(),
            r.len() == i,
            acc.valid(),
            all_valid(r@),
            acc.val() == acc_after(leaf.val(), path_view(path@).take(i as int)),
            forall|k: int| 0 <= k < i ==> (#[trigger] r@[k]).val() == acc_after(
                leaf.val(),
                path_view(path@).take(k + 1),
            ),
        decreases path@.len() - i,
    {
        let (dir, sib) = path[i];
        acc = if dir {
            tree_node_hash(acc, sib)
        } else {
            tree_node_hash(sib, acc)
        };
        r.push(acc);
        proof {
            assert(path_view(path@).take(i + 1).drop_last() =~= path_view(path@).take(i as int));
            assert(path_view(path@).take(i + 1).last() == (path@[i as int].0, path@[i as int].1.val()));
        }
        i = i + 1;
    }
    proof {
        assert(vals(r@) =~= branch_vals(leaf.val(), path_view(path@)));
    }
    r
}

/// The ancestor of leaf slot `i` that stands `k` levels above the leaf
/// row, in the 1-indexed array layout.
pub open spec fn ancestor(depth: nat, i: nat, k: nat) -> nat {
    (pow2(depth) + i) / pow2(k)
}

/// The authentication path of leaf slot `i`, read directly off the tree,
/// in leaf-to-root order: at each level the direction says whether the
/// sibling is the right child, and the sibling value is that node's value.
pub open spec fn auth_path(depth: nat, leaves: Seq<nat>, def: nat, i: nat) -> Seq<(bool, nat)> {
    Seq::new(
        depth,
        |k: int|
            {
                let a = ancestor(depth, i, k as nat);
                (
                    a % 2 == 0,
                    node_val(
                        depth,
                        leaves,
                        def,
                        if a % 2 == 0 {
                            a + 1
                        } else {
                            (a - 1) as nat
                        },
                    ),
                )
            },
    )
}

/// After following the first `k` levels of the authentication path the
/// accumulator holds exactly the value of the leaf's ancestor `k` levels
/// up.
#[verifier::rlimit(100)]
proof fn lemma_branch_prefix(depth: nat, leaves: Seq<nat>, def: nat, i: nat, k: nat)
    requires
        i < pow2(depth),
        k <= depth,
    ensures
        acc_after(
            node_val(depth, leaves, def, pow2(depth) + i),
            auth_path(depth, leaves, def, i).take(k as int),
        ) == node_val(depth, leaves, def, ancestor(depth, i, k)),
    decreases k,
{
    let start = pow2(depth) + i;
    let path = auth_path(depth, leaves, def, i);
    let leaf = node_val(depth, leaves, def, start);
    lemma_pow2_pos(depth);
    if k == 0 {
        assert(path.take(0) =~= Seq::<(bool, nat)>::empty());
        lemma2_to64();
        assert(ancestor(depth, i, 0) == start);
    } else {
        lemma_branch_prefix(depth, leaves, def, i, (k - 1) as nat);
        let a = ancestor(depth, i, (k - 1) as nat);
        let a2 = ancestor(depth, i, k);
        lemma_pow2_pos((k - 1) as nat);
        lemma_pow2_pos(k);
        lemma_pow2_pos((depth - k) as nat);
        // One more level of division: the ancestor at level k is the
        // parent of the ancestor at level k - 1.
        assert(pow2(k) == pow2((k - 1) as nat) * 2) by {
            lemma_pow2_adds((k - 1) as nat, 1);
            lemma2_to64();
        }
        lemma_div_denominator(start as int, pow2((k - 1) as nat) as int, 2);
        assert(a2 == a / 2);
        // The ancestor one level down lies in the subtree: at least 2, so
        // its parent is a real node, and below 2^depth, so the parent is
        // an internal node whose children the definition unfolds to.
        assert(pow2((depth - k) as nat) * 2 == pow2((depth + 1 - k) as nat)) by {
            lemma_pow2_adds((depth - k) as nat, 1);
            lemma2_to64();
        }
        assert(pow2(depth) == pow2(k) * pow2((depth - k) as nat)) by {
            lemma_pow2_adds(k, (depth - k) as nat);
        }
        assert(pow2(depth + 1) == pow2(k) * pow2((depth + 1 - k) as nat)) by {
            lemma_pow2_adds(k, (depth + 1 - k) as nat);
        }
        assert(pow2(depth + 1) == pow2(depth) * 2) by {
            lemma_pow2_adds(depth, 1);
            lemma2_to64();
        }
        assert(a2 >= pow2((depth - k) as nat)) by {
            lemma_div_is_ordered(
                (pow2(k) * pow2((depth - k) as nat)) as int,
                start as int,
                pow2(k) as int,
            );
            vstd::arithmetic::div_mod::lemma_div_multiples_vanish(
                pow2((depth - k) as nat) as int,
                pow2(k) as int,
            );
        }
        assert(a2 < pow2((depth + 1 - k) as nat)) by {
            lemma_multiply_divide_lt(
                start as int,
                pow2(k) as int,
                pow2((depth + 1 - k) as nat) as int,
            );
        }
        assert(a2 >= 1);
        assert(a2 < pow2(depth)) by {
            if ((depth + 1 - k) as nat) < depth {
                lemma_pow2_strictly_increases((depth + 1 - k) as nat, depth);
            }
        }
        // Tie the ancestor to its parent's children.
        lemma_fundamental_div_mod(a as int, 2);
        assert(a == 2 * a2 + (a % 2));
        assert(path.take(k as int).drop_last() =~= path.take(k as int - 1));
        assert(path.take(k as int).last() == path[k as int - 1]);
        assert(node_val(depth, leaves, def, a2) == pair_hash(
            node_val(depth, leaves, def, 2 * a2),
            node_val(depth, leaves, def, 2 * a2 + 1),
        ));
        if a % 2 == 0 {
            assert(a == 2 * a2);
            assert(step(node_val(depth, leaves, def, a), true, node_val(depth, leaves, def, a + 1))
                == node_val(depth, leaves, def, a2));
        } else {
            assert(a == 2 * a2 + 1);
            assert(step(
                node_val(depth, leaves, def, a),
                false,
                node_val(depth, leaves, def, (a - 1) as nat),
            ) == node_val(depth, leaves, def, a2));
        }
    }
}

/// Merkle consistency: build a tree, read the authentication path of any
/// leaf slot straight off it, and reconstruct from that leaf's stored
/// value; the last reconstructed value is the tree's root.
pub proof fn lemma_merkle_consistency(depth: nat, leaves: Seq<nat>, def: nat, i: nat)
    requires
        i < pow2(depth),
        depth > 0,
    ensures
        auth_path(depth, leaves, def, i).len() == depth,
        branch_vals(
            node_val(depth, leaves, def, pow2(depth) + i),
            auth_path(depth, leaves, def, i),
        ).last() == node_val(depth, leaves, def, 1),
{
    let start = pow2(depth) + i;
    let path = auth_path(depth, leaves, def, i);
    let leaf = node_val(depth, leaves, def, start);
    lemma_branch_prefix(depth, leaves, def, i, depth);
    assert(path.take(depth as int) =~= path);
    lemma_pow2_pos(depth);
    assert(pow2(depth + 1) == pow2(depth) * 2) by {
        lemma_pow2_adds(depth, 1);
        lemma2_to64();
    }
    // The ancestor all the way up is the root: the leaf index divided by
    // 2^depth is exactly 1.
    assert(ancestor(depth, i, depth) == 1) by {
        lemma_div_is_ordered(pow2(depth) as int, start as int, pow2(depth) as int);
        vstd::arithmetic::div_mod::lemma_div_multiples_vanish(1, pow2(depth) as int);
        lemma_multiply_divide_lt(start as int, pow2(depth) as int, 2);
    }
    assert(branch_vals(leaf, path).last() == acc_after(leaf, path.take(depth as int)));
}

/// Two-input hash matches the pairwise hash: hashing the two-element
/// sequence `[a, b]` fixed-length is exactly the pairwise node hash.
pub proof fn lemma_two_input_hash(a: nat, b: nat)
    ensures
        sponge_hash(seq![a, b], false) == pair_hash(a, b),
{
}

} // verus!
