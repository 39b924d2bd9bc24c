//! The buddy tree as a mathematical object.
//!
//! A tree of order `n` covers `2^n` units. Node states are stored
//! breadth-first: the root is at index 0 and the children of node `i` are
//! `2i + 1` (left, lower half) and `2i + 2` (right, upper half). A node is
//! named here by its path from the root (`false` = left, `true` = right).
use vstd::prelude::*;
use vstd::arithmetic::power2::{pow2, lemma_pow2_unfold, lemma_pow2_adds, lemma_pow2_pos, lemma_pow2_strictly_increases, lemma2_to64};

verus! {

/// Node state: the whole block is free.
pub const UNUSED: u8 = 0;
/// Node state: the whole block is handed out.
pub const USED: u8 = 1;
/// Node state: the block is split and its halves are described by the children.
pub const SPLIT: u8 = 2;
/// Node state: split, and both halves are USED or FULL.
pub const FULL: u8 = 3;

pub open spec fn internal(s: u8) -> bool {
    s == SPLIT || s == FULL
}

pub open spec fn is_full(s: u8) -> bool {
    s == USED || s == FULL
}

/// Index in the breadth-first layout of the node reached by path `p`.
pub open spec fn idx(p: Seq<bool>) -> nat
    decreases p.len(),
{
    if p.len() == 0 {
        0
    } else {
        2 * idx(p.drop_last()) + 1 + (if p.last() { 1nat } else { 0nat })
    }
}

/// Height of node `p` in a tree of order `order` (leaves have height 0).
pub open spec fn lvl(order: nat, p: Seq<bool>) -> nat {
    (order - p.len()) as nat
}

/// First unit covered by node `p`.
pub open spec fn off(order: nat, p: Seq<bool>) -> nat
    decreases p.len(),
{
    if p.len() == 0 {
        0
    } else {
        off(order, p.drop_last()) + (if p.last() { pow2(lvl(order, p)) } else { 0 })
    }
}

/// Unit `u` lies in the block of node `p`.
pub open spec fn in_node(order: nat, p: Seq<bool>, u: nat) -> bool {
    off(order, p) <= u < off(order, p) + pow2(lvl(order, p))
}

/// The allocated block `(first unit, log2 of its size)` that holds unit `u`,
/// found by walking from node `p` towards `u`.
pub open spec fn owner(t: Seq<u8>, order: nat, p: Seq<bool>, u: nat) -> Option<(nat, nat)>
    decreases order - p.len(),
{
    let s = t[idx(p) as int];
    if s == USED {
        Some((off(order, p), lvl(order, p)))
    } else if internal(s) && p.len() < order {
        if u < off(order, p) + pow2((lvl(order, p) - 1) as nat) {
            owner(t, order, p.push(false), u)
        } else {
            owner(t, order, p.push(true), u)
        }
    } else {
        None
    }
}

/// Some block below node `p` is handed out.
pub open spec fn has_alloc(t: Seq<u8>, order: nat, p: Seq<bool>) -> bool
    decreases order - p.len(),
{
    let s = t[idx(p) as int];
    if s == USED {
        true
    } else if internal(s) && p.len() < order {
        has_alloc(t, order, p.push(false)) || has_alloc(t, order, p.push(true))
    } else {
        false
    }
}

/// The subtree at `p` is well formed: states are 2-bit values, split nodes
/// are above the leaves and hold an allocation, full nodes have full children.
pub open spec fn node_wf(t: Seq<u8>, order: nat, p: Seq<bool>) -> bool
    decreases order - p.len(),
{
    let s = t[idx(p) as int];
    if !(s < 4) {
        false
    } else if internal(s) {
        if p.len() < order {
            &&& node_wf(t, order, p.push(false))
            &&& node_wf(t, order, p.push(true))
            &&& has_alloc(t, order, p)
            &&& s == FULL ==> is_full(t[idx(p.push(false)) as int]) && is_full(
                t[idx(p.push(true)) as int],
            )
        } else {
            false
        }
    } else {
        true
    }
}

/// Largest order a tree may have.
pub const MAX_ORDER: usize = 30;

pub open spec fn tree_wf(t: Seq<u8>, order: nat) -> bool {
    &&& order <= MAX_ORDER
    &&& t.len() >= pow2(order + 1) - 1
    &&& node_wf(t, order, Seq::empty())
}

/// For each unit of the tree, the allocated block holding it, if any.
pub open spec fn units(t: Seq<u8>, order: nat) -> Seq<Option<(nat, nat)>> {
    Seq::new(pow2(order), |u: int| owner(t, order, Seq::empty(), u as nat))
}

/// `q` extends `p` (`p` is a prefix of `q`).
pub open spec fn extends(q: Seq<bool>, p: Seq<bool>) -> bool {
    p.len() <= q.len() && q.subrange(0, p.len() as int) =~= p
}

/// All strict prefixes of `p` from length `from` on are split or full nodes.
pub open spec fn path_internal(t: Seq<u8>, p: Seq<bool>, from: nat) -> bool {
    forall|k: int| from <= k < p.len() ==> #[trigger] internal(t[idx(p.take(k)) as int])
}

/// All strict prefixes of `p` are split nodes.
pub open spec fn path_split(t: Seq<u8>, p: Seq<bool>) -> bool {
    forall|k: int| 0 <= k < p.len() ==> #[trigger] t[idx(p.take(k)) as int] == SPLIT
}

pub open spec fn same_class(a: u8, b: u8) -> bool {
    &&& (a == USED <==> b == USED)
    &&& (internal(a) <==> internal(b))
}

// ---------------------------------------------------------------------------
// Indices
pub proof fn lemma_idx_bound(p: Seq<bool>)
    ensures
        pow2(p.len()) <= idx(p) + 1 < pow2(p.len() + 1),
    decreases p.len(),
{
    lemma_pow2_unfold(p.len() + 1);
    if p.len() > 0 {
        lemma_idx_bound(p.drop_last());
        lemma_pow2_unfold(p.len());
    } else {
        lemma_pow2_unfold(1);
        lemma2_to64();
    }
}

pub proof fn lemma_idx_injective(p: Seq<bool>, q: Seq<bool>)
    requires
        idx(p) == idx(q),
    ensures
        p == q,
    decreases p.len(),
{
    lemma_idx_bound(p);
    lemma_idx_bound(q);
    if p.len() < q.len() {
        if p.len() + 1 < q.len() {
            lemma_pow2_strictly_increases(p.len() + 1, q.len());
        }
    } else if q.len() < p.len() {
        if q.len() + 1 < p.len() {
            lemma_pow2_strictly_increases(q.len() + 1, p.len());
        }
    } else if p.len() > 0 {
        let a = p.drop_last();
        let b = q.drop_last();
        assert(p.last() == q.last());
        lemma_idx_injective(a, b);
        assert(p =~= a.push(p.last()));
        assert(q =~= b.push(q.last()));
    } else {
        assert(p =~= q);
    }
}

/// Nodes of a tree of order `order` lie within `pow2(order + 1) - 1` entries.
pub proof fn lemma_idx_in_tree(p: Seq<bool>, order: nat)
    requires
        p.len() <= order,
    ensures
        idx(p) < pow2(order + 1) - 1,
{
    lemma_idx_bound(p);
    if p.len() < order {
        lemma_pow2_strictly_increases(p.len() + 1, order + 1);
    }
}

// ---------------------------------------------------------------------------
// Offsets
pub proof fn lemma_off_formula(order: nat, p: Seq<bool>)
    requires
        p.len() <= order,
    ensures
        off(order, p) == (idx(p) + 1 - pow2(p.len())) * pow2(lvl(order, p)),
        off(order, p) + pow2(lvl(order, p)) <= pow2(order),
        off(order, p) % pow2(lvl(order, p)) == 0,
    decreases p.len(),
{
    lemma_idx_bound(p);
    lemma_pow2_pos(lvl(order, p));
    if p.len() == 0 {
        lemma2_to64();
    } else {
        let a = p.drop_last();
        lemma_off_formula(order, a);
        lemma_idx_bound(a);
        lemma_pow2_unfold(p.len());
        lemma_pow2_unfold(lvl(order, a));
        assert(lvl(order, a) == lvl(order, p) + 1);
        let m = idx(a) + 1 - pow2(a.len());
        let h = pow2(lvl(order, p));
        let bb: int = if p.last() { 1 } else { 0 };
        assert(idx(p) + 1 - pow2(p.len()) == 2 * m + bb);
        assert(off(order, p) == m * (2 * h) + bb * h);
        assert(m * (2 * h) + bb * h == (2 * m + bb) * h) by (nonlinear_arith);
    }
    let m = idx(p) + 1 - pow2(p.len());
    let h = pow2(lvl(order, p));
    assert(0 <= m < pow2(p.len()));
    lemma_pow2_adds(p.len(), lvl(order, p));
    assert(p.len() + lvl(order, p) == order);
    assert(m * h + h <= pow2(p.len()) * h) by (nonlinear_arith)
        requires
            m < pow2(p.len()),
            h > 0,
    ;
    assert((m * h) % (h as int) == 0) by (nonlinear_arith)
        requires
            h > 0,
    ;
}

pub proof fn lemma_child_range(order: nat, p: Seq<bool>, b: bool)
    requires
        p.len() < order,
    ensures
        lvl(order, p.push(b)) + 1 == lvl(order, p),
        pow2(lvl(order, p)) == 2 * pow2(lvl(order, p.push(b))),
        off(order, p.push(b)) == off(order, p) + (if b { pow2(lvl(order, p.push(b))) } else { 0 }),
        idx(p.push(b)) == 2 * idx(p) + 1 + (if b { 1nat } else { 0nat }),
{
    let c = p.push(b);
    assert(c.drop_last() =~= p);
    lemma_pow2_unfold(lvl(order, p));
}

// ---------------------------------------------------------------------------
// Paths
pub proof fn lemma_take_push(p: Seq<bool>, b: bool, k: int)
    requires
        0 <= k <= p.len(),
    ensures
        p.push(b).take(k) == p.take(k),
{
    assert(p.push(b).take(k) =~= p.take(k));
}

/// Below split or full ancestors, the owner of a unit is found at the node.
pub proof fn lemma_path_owner(t: Seq<u8>, order: nat, p: Seq<bool>, u: nat)
    requires
        p.len() <= order,
        path_internal(t, p, 0),
        in_node(order, p, u),
    ensures
        owner(t, order, Seq::empty(), u) == owner(t, order, p, u),
    decreases p.len(),
{
    if p.len() == 0 {
        assert(p =~= Seq::<bool>::empty());
    } else {
        let a = p.drop_last();
        assert(p =~= a.push(p.last()));
        lemma_child_range(order, a, p.last());
        assert forall|k: int| 0 <= k < a.len() implies #[trigger] internal(t[idx(a.take(k)) as int]) by {
            lemma_take_push(a, p.last(), k);
            assert(internal(t[idx(p.take(k)) as int]));
        }
        assert(p.take(a.len() as int) =~= a);
        assert(internal(t[idx(p.take(a.len() as int)) as int]));
        lemma_path_owner(t, order, a, u);
    }
}

/// Along split or full ancestors, the subtree below is well formed.
pub proof fn lemma_path_wf(t: Seq<u8>, order: nat, p: Seq<bool>)
    requires
        p.len() <= order,
        path_internal(t, p, 0),
        node_wf(t, order, Seq::empty()),
    ensures
        node_wf(t, order, p),
    decreases p.len(),
{
    if p.len() == 0 {
        assert(p =~= Seq::<bool>::empty());
    } else {
        let a = p.drop_last();
        assert(p =~= a.push(p.last()));
        assert forall|k: int| 0 <= k < a.len() implies #[trigger] internal(t[idx(a.take(k)) as int]) by {
            lemma_take_push(a, p.last(), k);
            assert(internal(t[idx(p.take(k)) as int]));
        }
        assert(p.take(a.len() as int) =~= a);
        assert(internal(t[idx(p.take(a.len() as int)) as int]));
        lemma_path_wf(t, order, a);
    }
}


// ---------------------------------------------------------------------------
// What the walk towards a unit sees
pub open spec fn sibling(q: Seq<bool>) -> Seq<bool> {
    q.drop_last().push(!q.last())
}

/// The owner of `u` depends only on the classes of the nodes whose block holds `u`.
pub proof fn lemma_owner_frame(t: Seq<u8>, t2: Seq<u8>, order: nat, p: Seq<bool>, u: nat)
    requires
        p.len() <= order,
        in_node(order, p, u),
        forall|q: Seq<bool>|
            q.len() <= order && #[trigger] in_node(order, q, u) ==> same_class(
                t[idx(q) as int],
                t2[idx(q) as int],
            ),
    ensures
        owner(t2, order, p, u) == owner(t, order, p, u),
    decreases order - p.len(),
{
    assert(same_class(t[idx(p) as int], t2[idx(p) as int]));
    if p.len() < order {
        let s = t[idx(p) as int];
        if s != USED && internal(s) {
            lemma_child_range(order, p, false);
            lemma_child_range(order, p, true);
            if u < off(order, p) + pow2((lvl(order, p) - 1) as nat) {
                lemma_owner_frame(t, t2, order, p.push(false), u);
            } else {
                lemma_owner_frame(t, t2, order, p.push(true), u);
            }
        }
    }
}

/// Writing `s` at node `q` leaves the owner of `u` alone when `q`'s block
/// does not hold `u` or `s` is of the same class as the old state.
pub proof fn lemma_update_owner(t: Seq<u8>, order: nat, q: Seq<bool>, s: u8, u: nat)
    requires
        q.len() <= order,
        t.len() >= pow2(order + 1) - 1,
        u < pow2(order),
        !in_node(order, q, u) || same_class(t[idx(q) as int], s),
    ensures
        owner(t.update(idx(q) as int, s), order, Seq::empty(), u) == owner(
            t,
            order,
            Seq::empty(),
            u,
        ),
{
    let t2 = t.update(idx(q) as int, s);
    lemma_idx_in_tree(q, order);
    assert forall|w: Seq<bool>|
        w.len() <= order && #[trigger] in_node(order, w, u) implies same_class(
        t[idx(w) as int],
        t2[idx(w) as int],
    ) by {
        lemma_idx_in_tree(w, order);
        if idx(w) == idx(q) {
            lemma_idx_injective(w, q);
        }
    }
    lemma2_to64();
    assert(in_node(order, Seq::<bool>::empty(), u));
    lemma_owner_frame(t, t2, order, Seq::empty(), u);
}

/// In a full node every unit is handed out.
pub proof fn lemma_full_owned(t: Seq<u8>, order: nat, p: Seq<bool>, u: nat)
    requires
        p.len() <= order,
        node_wf(t, order, p),
        is_full(t[idx(p) as int]),
        in_node(order, p, u),
    ensures
        owner(t, order, p, u) is Some,
    decreases order - p.len(),
{
    if t[idx(p) as int] == FULL {
        lemma_child_range(order, p, false);
        lemma_child_range(order, p, true);
        if u < off(order, p) + pow2((lvl(order, p) - 1) as nat) {
            lemma_full_owned(t, order, p.push(false), u);
        } else {
            lemma_full_owned(t, order, p.push(true), u);
        }
    }
}

/// A node holding an allocation has a unit that is handed out.
pub proof fn lemma_has_alloc_witness(t: Seq<u8>, order: nat, p: Seq<bool>) -> (u: nat)
    requires
        p.len() <= order,
        has_alloc(t, order, p),
    ensures
        in_node(order, p, u),
        owner(t, order, p, u) is Some,
    decreases order - p.len(),
{
    lemma_pow2_pos(lvl(order, p));
    if t[idx(p) as int] == USED {
        off(order, p)
    } else {
        lemma_child_range(order, p, false);
        lemma_child_range(order, p, true);
        if has_alloc(t, order, p.push(false)) {
            lemma_has_alloc_witness(t, order, p.push(false))
        } else {
            lemma_has_alloc_witness(t, order, p.push(true))
        }
    }
}

/// The block that holds a unit is aligned, lies in the node, and holds each of its units.
pub proof fn lemma_owner_block(t: Seq<u8>, order: nat, p: Seq<bool>, u: nat)
    requires
        p.len() <= order,
        in_node(order, p, u),
        owner(t, order, p, u) is Some,
    ensures
        ({
            let (o, k) = owner(t, order, p, u)->0;
            &&& o <= u < o + pow2(k)
            &&& o % pow2(k) == 0
            &&& off(order, p) <= o
            &&& o + pow2(k) <= off(order, p) + pow2(lvl(order, p))
            &&& forall|v: nat| o <= v < o + pow2(k) ==> #[trigger] owner(t, order, p, v) == Some((o, k))
        }),
    decreases order - p.len(),
{
    lemma_off_formula(order, p);
    if t[idx(p) as int] == USED {
    } else {
        lemma_child_range(order, p, false);
        lemma_child_range(order, p, true);
        let c = if u < off(order, p) + pow2((lvl(order, p) - 1) as nat) {
            p.push(false)
        } else {
            p.push(true)
        };
        lemma_owner_block(t, order, c, u);
        let (o, k) = owner(t, order, p, u)->0;
        assert forall|v: nat| o <= v < o + pow2(k) implies #[trigger] owner(t, order, p, v) == Some(
            (o, k),
        ) by {
            assert(owner(t, order, c, v) == Some((o, k)));
        }
    }
}

/// Node `q` sits below node `p` when `q` extends `p`; nodes that do not
/// extend each other have disjoint subtrees.
pub proof fn lemma_extends_child(w: Seq<bool>, p: Seq<bool>, b: bool)
    requires
        extends(w, p.push(b)),
    ensures
        extends(w, p),
        w[p.len() as int] == b,
{
    assert(w.subrange(0, p.len() as int) =~= p.push(b).subrange(0, p.len() as int));
    assert(p.push(b).subrange(0, p.len() as int) =~= p);
    assert(w[p.len() as int] == w.subrange(0, p.len() + 1 as int)[p.len() as int]);
}

/// Well-formedness of a subtree depends only on the nodes of that subtree.
pub proof fn lemma_wf_frame(t: Seq<u8>, t2: Seq<u8>, order: nat, p: Seq<bool>)
    requires
        p.len() <= order,
        forall|w: Seq<bool>|
            w.len() <= order && extends(w, p) ==> #[trigger] t2[idx(w) as int] == t[idx(w) as int],
    ensures
        node_wf(t2, order, p) == node_wf(t, order, p),
        has_alloc(t2, order, p) == has_alloc(t, order, p),
    decreases order - p.len(),
{
    assert(extends(p, p)) by {
        assert(p.subrange(0, p.len() as int) =~= p);
    }
    if p.len() < order {
        let l = p.push(false);
        let r = p.push(true);
        assert forall|w: Seq<bool>|
            w.len() <= order && extends(w, l) implies #[trigger] t2[idx(w) as int] == t[idx(
            w,
        ) as int] by {
            lemma_extends_child(w, p, false);
        }
        assert forall|w: Seq<bool>|
            w.len() <= order && extends(w, r) implies #[trigger] t2[idx(w) as int] == t[idx(
            w,
        ) as int] by {
            lemma_extends_child(w, p, true);
        }
        assert(extends(l, l)) by {
            assert(l.subrange(0, l.len() as int) =~= l);
        }
        assert(extends(r, r)) by {
            assert(r.subrange(0, r.len() as int) =~= r);
        }
        lemma_wf_frame(t, t2, order, l);
        lemma_wf_frame(t, t2, order, r);
    }
}

/// Replacing the subtree at `q` below split or full ancestors keeps the tree
/// at `a` well formed, provided the new subtree is well formed, the
/// ancestors still hold an allocation, and a full parent still has a full child.
pub proof fn lemma_replace(t: Seq<u8>, t2: Seq<u8>, order: nat, a: Seq<bool>, q: Seq<bool>)
    requires
        extends(q, a),
        q.len() <= order,
        forall|w: Seq<bool>|
            w.len() <= order && !extends(w, q) ==> #[trigger] t2[idx(w) as int] == t[idx(w) as int],
        node_wf(t, order, a),
        path_internal(t, q, a.len()),
        node_wf(t2, order, q),
        has_alloc(t2, order, q) || (q.len() > a.len() && has_alloc(t, order, sibling(q))),
        q.len() > a.len() && t[idx(q.drop_last()) as int] == FULL ==> is_full(t2[idx(q) as int]),
    ensures
        node_wf(t2, order, a),
        (q.len() > a.len() || has_alloc(t2, order, q)) ==> has_alloc(t2, order, a),
    decreases q.len() - a.len(),
{
    if q.len() == a.len() {
        assert(q =~= a);
    } else {
        let b = q[a.len() as int];
        let c = a.push(b);
        let o = a.push(!b);
        assert(q.take(a.len() as int) =~= a);
        assert(internal(t[idx(q.take(a.len() as int)) as int]));
        assert(!extends(a, q));
        assert(t2[idx(a) as int] == t[idx(a) as int]);
        assert(extends(q, c)) by {
            assert(q.subrange(0, c.len() as int) =~= c);
        }
        assert forall|w: Seq<bool>|
            w.len() <= order && extends(w, o) implies #[trigger] t2[idx(w) as int] == t[idx(
            w,
        ) as int] by {
            lemma_extends_child(w, a, !b);
            if extends(w, q) {
                assert(w[a.len() as int] == q[a.len() as int]);
            }
        }
        lemma_wf_frame(t, t2, order, o);
        assert(!extends(o, q)) by {
            if extends(o, q) {
                assert(o[a.len() as int] == q[a.len() as int]);
            }
        }
        assert(t2[idx(o) as int] == t[idx(o) as int]);
        if q.len() == c.len() {
            assert(q =~= c);
            assert(sibling(q) =~= o);
        } else {
            assert(!extends(c, q));
            assert(t2[idx(c) as int] == t[idx(c) as int]);
            assert forall|k: int| c.len() <= k < q.len() implies #[trigger] internal(
                t[idx(q.take(k)) as int],
            ) by {
                assert(internal(t[idx(q.take(k)) as int]));
            }
            lemma_replace(t, t2, order, c, q);
        }
    }
}

/// The split chain left behind by an allocation: from `p.take(from)` down to
/// the handed-out node `p`, every node is split with an unused right half.
pub proof fn lemma_spine(t: Seq<u8>, order: nat, p: Seq<bool>, from: nat, m: nat)
    requires
        from <= m <= p.len() <= order,
        forall|k: int| from <= k < p.len() ==> #[trigger] p[k] == false,
        forall|k: int| from <= k < p.len() ==> #[trigger] t[idx(p.take(k)) as int] == SPLIT,
        forall|k: int|
            from <= k < p.len() ==> #[trigger] t[idx(p.take(k).push(true)) as int] == UNUSED,
        t[idx(p) as int] == USED,
    ensures
        node_wf(t, order, p.take(m as int)),
        has_alloc(t, order, p.take(m as int)),
    decreases p.len() - m,
{
    if m == p.len() {
        assert(p.take(m as int) =~= p);
        assert(node_wf(t, order, p));
    } else {
        let r = p.take(m as int);
        assert(t[idx(r) as int] == SPLIT);
        assert(p[m as int] == false);
        assert(r.push(false) =~= p.take(m + 1 as int));
        lemma_spine(t, order, p, from, m + 1);
        assert(t[idx(r.push(true)) as int] == UNUSED);
        assert(node_wf(t, order, r.push(true)));
        assert(node_wf(t, order, r.push(false)));
    }
}

/// What a release leaves behind: from `c.take(from)` down to the now unused
/// node `c`, every node is split, and each was full before except maybe
/// the parent of `c`, whose other child still holds an allocation.
pub proof fn lemma_freed_chain(t: Seq<u8>, t2: Seq<u8>, order: nat, c: Seq<bool>, from: nat, m: nat)
    requires
        from <= m <= c.len() <= order,
        c.len() > 0,
        node_wf(t, order, Seq::empty()),
        path_internal(t, c, 0),
        t2[idx(c) as int] == UNUSED,
        forall|k: int| from <= k < c.len() ==> #[trigger] t2[idx(c.take(k)) as int] == SPLIT,
        forall|k: int| from <= k < c.len() - 1 ==> #[trigger] t[idx(c.take(k)) as int] == FULL,
        has_alloc(t, order, sibling(c)),
        forall|w: Seq<bool>|
            w.len() <= order && !(extends(c, w) && w.len() >= from) ==> #[trigger] t2[idx(
                w,
            ) as int] == t[idx(w) as int],
    ensures
        node_wf(t2, order, c.take(m as int)),
        m < c.len() ==> has_alloc(t2, order, c.take(m as int)),
    decreases c.len() - m,
{
    if m == c.len() {
        assert(c.take(m as int) =~= c);
    } else {
        let r = c.take(m as int);
        let b = c[m as int];
        let ch = r.push(b);
        let o = r.push(!b);
        assert(ch =~= c.take(m + 1 as int));
        lemma_freed_chain(t, t2, order, c, from, m + 1);
        assert(t2[idx(r) as int] == SPLIT);
        assert forall|k: int| 0 <= k < o.len() implies #[trigger] internal(
            t[idx(o.take(k)) as int],
        ) by {
            assert(o.take(k) =~= c.take(k));
            assert(internal(t[idx(c.take(k)) as int]));
        }
        lemma_path_wf(t, order, o);
        assert forall|w: Seq<bool>|
            w.len() <= order && extends(w, o) implies #[trigger] t2[idx(w) as int] == t[idx(
            w,
        ) as int] by {
            lemma_extends_child(w, r, !b);
            if extends(c, w) && w.len() >= from {
                assert(c[m as int] == c.subrange(0, w.len() as int)[m as int]);
            }
        }
        lemma_wf_frame(t, t2, order, o);
        if m + 1 == c.len() {
            assert(c =~= ch);
            assert(sibling(c) =~= o);
        } else {
            assert(t[idx(c.take(m as int)) as int] == FULL);
            assert forall|k: int| 0 <= k < r.len() implies #[trigger] internal(
                t[idx(r.take(k)) as int],
            ) by {
                assert(r.take(k) =~= c.take(k));
                assert(internal(t[idx(c.take(k)) as int]));
            }
            lemma_path_wf(t, order, r);
        }
    }
}

} // verus!
