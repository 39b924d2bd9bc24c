//! Buddy allocator over a tree of 2-bit node states.
use vstd::prelude::*;
use vstd::arithmetic::power2::{pow2, lemma_pow2_unfold, lemma_pow2_adds, lemma_pow2_pos, lemma_pow2_strictly_increases, lemma2_to64};
use vstd::bits::{lemma_usize_shl_is_mul, lemma_usize_shr_is_div, lemma_usize_pow2_no_overflow, lemma_u32_shr_is_div};
use vstd::std_specs::bits::{u32_leading_zeros, axiom_u32_leading_zeros};
use crate::kernel::util::bitv::Bitv;
use crate::kernel::mm::tree::{
    UNUSED, USED, SPLIT, FULL, MAX_ORDER, internal, is_full, idx, lvl, off, in_node, owner,
    has_alloc, node_wf, tree_wf, units, extends, path_internal, path_split, sibling,
    lemma_idx_bound, lemma_idx_injective, lemma_idx_in_tree, lemma_off_formula,
    lemma_child_range, lemma_take_push, lemma_path_owner, lemma_path_wf, lemma_update_owner,
    lemma_full_owned, lemma_has_alloc_witness, lemma_owner_block, lemma_extends_child,
    lemma_wf_frame, lemma_replace, lemma_spine, lemma_freed_chain,
};

verus! {

/// State of a node of the buddy tree.
pub enum Node {
    UNUSED,
    USED,
    SPLIT,
    FULL,
}

impl Node {
    /// The 2-bit code under which the state is stored.
    pub open spec fn code(self) -> u8 {
        match self {
            Node::UNUSED => UNUSED,
            Node::USED => USED,
            Node::SPLIT => SPLIT,
            Node::FULL => FULL,
        }
    }
}

/// Blocks of an allocator: for each unit, the handed-out block
/// `(first unit, log2 of its size)` holding it, if any.
pub type Blocks = Seq<Option<(nat, nat)>>;

/// The aligned block of `2^k` units at `o` is free.
pub open spec fn free_block(v: Blocks, o: nat, k: nat) -> bool {
    &&& o % pow2(k) == 0
    &&& o + pow2(k) <= v.len()
    &&& forall|u: int| o <= u < o + pow2(k) ==> v[u] is None
}

/// `v` with the block of `2^k` units at `o` handed out.
pub open spec fn claim(v: Blocks, o: nat, k: nat) -> Blocks {
    Seq::new(v.len(), |u: int| if o <= u < o + pow2(k) { Some((o, k)) } else { v[u] })
}

/// `v` with the block of `2^k` units at `o` given back.
pub open spec fn release(v: Blocks, o: nat, k: nat) -> Blocks {
    Seq::new(v.len(), |u: int| if o <= u < o + pow2(k) { None } else { v[u] })
}

/// Smallest `k` with `2^k >= n`.
pub open spec fn ceil_log2(n: nat) -> nat
    decreases n,
{
    if n <= 1 {
        0
    } else {
        1 + ceil_log2(((n + 1) / 2) as nat)
    }
}


// ---------------------------------------------------------------------------
// Arithmetic facts used by the allocator's proofs
proof fn lemma_pow2_mono(a: nat, b: nat)
    requires
        a <= b,
    ensures
        pow2(a) <= pow2(b),
{
    if a < b {
        lemma_pow2_strictly_increases(a, b);
    }
}

proof fn lemma_ceil_log2(n: nat)
    requires
        n >= 1,
    ensures
        pow2(ceil_log2(n)) >= n,
        ceil_log2(n) == 0 || pow2((ceil_log2(n) - 1) as nat) < n,
    decreases n,
{
    lemma2_to64();
    if n > 1 {
        let m = ((n + 1) / 2) as nat;
        lemma_ceil_log2(m);
        lemma_pow2_unfold(ceil_log2(n));
        if ceil_log2(m) > 0 {
            lemma_pow2_unfold(ceil_log2(m));
        }
    }
}

proof fn lemma_ceil_log2_unique(n: nat, k: nat)
    requires
        n >= 1,
        pow2(k) >= n,
        k == 0 || pow2((k - 1) as nat) < n,
    ensures
        k == ceil_log2(n),
{
    let c = ceil_log2(n);
    lemma_ceil_log2(n);
    if k < c {
        lemma_pow2_mono(k, (c - 1) as nat);
    } else if k > c {
        lemma_pow2_mono(c, (k - 1) as nat);
    }
}

proof fn lemma_aligned_divides(x: nat, a: nat, b: nat)
    requires
        a <= b,
        x % pow2(b) == 0,
    ensures
        x % pow2(a) == 0,
{
    lemma_pow2_adds(a, (b - a) as nat);
    lemma_pow2_pos(a);
    lemma_pow2_pos(b);
    let pa = pow2(a) as int;
    let pb = pow2(b) as int;
    let pc = pow2((b - a) as nat) as int;
    vstd::arithmetic::div_mod::lemma_fundamental_div_mod(x as int, pb);
    let q = x as int / pb;
    assert(x == (q * pc) * pa) by (nonlinear_arith)
        requires
            x == pb * q + 0,
            pb == pa * pc,
    ;
    vstd::arithmetic::div_mod::lemma_mod_multiples_basic(q * pc, pa);
}

proof fn lemma_aligned_eq(o: nat, l: nat, m: nat)
    requires
        m > 0,
        o % m == 0,
        l % m == 0,
        l <= o < l + m,
    ensures
        o == l,
{
    vstd::arithmetic::div_mod::lemma_fundamental_div_mod(o as int, m as int);
    vstd::arithmetic::div_mod::lemma_fundamental_div_mod(l as int, m as int);
    let qo = o as int / m as int;
    let ql = l as int / m as int;
    assert(qo == ql) by (nonlinear_arith)
        requires
            o == m * qo,
            l == m * ql,
            l <= o < l + m,
            m > 0,
    ;
}

proof fn lemma_split_path_internal(t: Seq<u8>, p: Seq<bool>)
    requires
        path_split(t, p),
    ensures
        path_internal(t, p, 0),
{
    assert forall|k: int| 0 <= k < p.len() implies #[trigger] internal(t[idx(p.take(k)) as int]) by {
        assert(t[idx(p.take(k)) as int] == SPLIT);
    }
}

/// A full node, or a split node of the requested size, holds no free block
/// of `2^k` units starting inside it.
proof fn lemma_skip(t: Seq<u8>, order: nat, p: Seq<bool>, k: nat)
    requires
        tree_wf(t, order),
        p.len() <= order,
        path_split(t, p),
        k <= lvl(order, p),
        is_full(t[idx(p) as int]) || (t[idx(p) as int] == SPLIT && lvl(order, p) == k),
    ensures
        forall|o: nat|
            off(order, p) <= o < off(order, p) + pow2(lvl(order, p)) ==> !#[trigger] free_block(
                units(t, order),
                o,
                k,
            ),
{
    lemma_split_path_internal(t, p);
    lemma_path_wf(t, order, p);
    lemma_off_formula(order, p);
    lemma_pow2_pos(k);
    let v = units(t, order);
    assert forall|o: nat|
        off(order, p) <= o < off(order, p) + pow2(lvl(order, p)) implies !#[trigger] free_block(
        v,
        o,
        k,
    ) by {
        if free_block(v, o, k) {
            if is_full(t[idx(p) as int]) {
                lemma_full_owned(t, order, p, o);
                lemma_path_owner(t, order, p, o);
                assert(v[o as int] is None);
            } else {
                let u = lemma_has_alloc_witness(t, order, p);
                lemma_aligned_eq(o, off(order, p), pow2(k));
                lemma_path_owner(t, order, p, u);
                assert(v[u as int] is None);
            }
        }
    }
}

/// An unused node below split ancestors starts a free block of any size up to its own.
proof fn lemma_found(t: Seq<u8>, order: nat, p: Seq<bool>, k: nat)
    requires
        tree_wf(t, order),
        p.len() <= order,
        path_split(t, p),
        k <= lvl(order, p),
        t[idx(p) as int] == UNUSED,
    ensures
        free_block(units(t, order), off(order, p), k),
{
    lemma_split_path_internal(t, p);
    lemma_off_formula(order, p);
    lemma_aligned_divides(off(order, p), k, lvl(order, p));
    lemma_pow2_mono(k, lvl(order, p));
    let v = units(t, order);
    assert forall|u: int| off(order, p) <= u < off(order, p) + pow2(k) implies v[u] is None by {
        lemma_path_owner(t, order, p, u as nat);
    }
}



proof fn lemma_update_at(t: Seq<u8>, order: nat, q: Seq<bool>, s: u8, w: Seq<bool>)
    requires
        t.len() >= pow2(order + 1) - 1,
        q.len() <= order,
        w.len() <= order,
    ensures
        t.update(idx(q) as int, s)[idx(w) as int] == if w == q {
            s
        } else {
            t[idx(w) as int]
        },
{
    lemma_idx_in_tree(q, order);
    lemma_idx_in_tree(w, order);
    if idx(w) == idx(q) {
        lemma_idx_injective(w, q);
    }
}

proof fn lemma_extends_trans(a: Seq<bool>, b: Seq<bool>, c: Seq<bool>)
    requires
        extends(a, b),
        extends(b, c),
    ensures
        extends(a, c),
{
    assert(a.subrange(0, c.len() as int) =~= a.subrange(0, b.len() as int).subrange(0, c.len() as int));
}

proof fn lemma_extends_push(p: Seq<bool>, b: bool)
    ensures
        extends(p.push(b), p),
        extends(p, p),
{
    assert(p.push(b).subrange(0, p.len() as int) =~= p);
    assert(p.subrange(0, p.len() as int) =~= p);
}

/// Splitting the unused node `p` into two unused halves on the way down to
/// the requested size.
proof fn lemma_split_step(
    t: Seq<u8>,
    t1: Seq<u8>,
    t0: Seq<u8>,
    order: nat,
    p0: Seq<bool>,
    p: Seq<bool>,
    l0: nat,
    v: Blocks,
)
    requires
        t.len() >= pow2(order + 1) - 1,
        extends(p, p0),
        p.len() < order,
        off(order, p) == l0,
        off(order, p0) == l0,
        path_split(t, p),
        t[idx(p) as int] == UNUSED,
        forall|j: int| p0.len() <= j < p.len() ==> #[trigger] p[j] == false,
        forall|j: int| p0.len() <= j < p.len() ==> #[trigger] t[idx(p.take(j)) as int] == SPLIT,
        forall|j: int|
            p0.len() <= j < p.len() ==> #[trigger] t[idx(p.take(j).push(true)) as int] == UNUSED,
        forall|w: Seq<bool>|
            w.len() <= order && !extends(w, p0) ==> #[trigger] t[idx(w) as int] == t0[idx(w) as int],
        forall|u: nat|
            u < pow2(order) && !in_node(order, p, u) ==> #[trigger] owner(t, order, Seq::empty(), u)
                == (if in_node(order, p0, u) {
                None
            } else {
                v[u as int]
            }),
        t1 == t.update(idx(p) as int, SPLIT).update(idx(p.push(false)) as int, UNUSED).update(
            idx(p.push(true)) as int,
            UNUSED,
        ),
    ensures
        ({
            let l = p.push(false);
            &&& t1.len() == t.len()
            &&& extends(l, p0)
            &&& off(order, l) == l0
            &&& path_split(t1, l)
            &&& t1[idx(l) as int] == UNUSED
            &&& forall|j: int| p0.len() <= j < l.len() ==> #[trigger] l[j] == false
            &&& forall|j: int|
                p0.len() <= j < l.len() ==> #[trigger] t1[idx(l.take(j)) as int] == SPLIT
            &&& forall|j: int|
                p0.len() <= j < l.len() ==> #[trigger] t1[idx(l.take(j).push(true)) as int]
                    == UNUSED
            &&& forall|w: Seq<bool>|
                w.len() <= order && !extends(w, p0) ==> #[trigger] t1[idx(w) as int] == t0[idx(
                    w,
                ) as int]
            &&& forall|u: nat|
                u < pow2(order) && !in_node(order, l, u) ==> #[trigger] owner(
                    t1,
                    order,
                    Seq::empty(),
                    u,
                ) == (if in_node(order, p0, u) {
                    None
                } else {
                    v[u as int]
                })
        }),
{
    let l = p.push(false);
    let r = p.push(true);
    let ta = t.update(idx(p) as int, SPLIT);
    let tb = ta.update(idx(l) as int, UNUSED);
    lemma_idx_in_tree(p, order);
    lemma_idx_in_tree(l, order);
    lemma_idx_in_tree(r, order);
    assert(ta.len() == t.len() && tb.len() == t.len() && t1.len() == t.len());
    lemma_child_range(order, p, false);
    lemma_child_range(order, p, true);
    lemma_extends_push(p, false);
    lemma_extends_push(p, true);
    lemma_extends_trans(l, p, p0);
    lemma_extends_trans(r, p, p0);
    // what each update does to a node
    assert forall|w: Seq<bool>| w.len() <= order implies #[trigger] t1[idx(w) as int] == if w == r {
        UNUSED
    } else if w == l {
        UNUSED
    } else if w == p {
        SPLIT
    } else {
        t[idx(w) as int]
    } by {
        lemma_update_at(t, order, p, SPLIT, w);
        lemma_update_at(ta, order, l, UNUSED, w);
        lemma_update_at(tb, order, r, UNUSED, w);
    }
    // nodes shorter than p are untouched
    assert forall|j: int| 0 <= j < p.len() implies #[trigger] t1[idx(p.take(j)) as int] == t[idx(
        p.take(j),
    ) as int] by {
        assert(t1[idx(p.take(j)) as int] == t[idx(p.take(j)) as int]);
    }
    assert forall|j: int| 0 <= j < l.len() implies #[trigger] t1[idx(l.take(j)) as int] == SPLIT by {
        if j < p.len() {
            lemma_take_push(p, false, j);
            assert(t[idx(p.take(j)) as int] == SPLIT);
        } else {
            assert(l.take(j) =~= p);
        }
    }
    assert forall|j: int| p0.len() <= j < l.len() implies #[trigger] l[j] == false by {
        if j < p.len() {
            assert(l[j] == p[j]);
        }
    }
    assert forall|j: int|
        p0.len() <= j < l.len() implies #[trigger] t1[idx(l.take(j).push(true)) as int] == UNUSED by {
        if j < p.len() {
            lemma_take_push(p, false, j);
            let w = p.take(j).push(true);
            assert(w != p) by {
                if w == p {
                    assert(w[j] == p[j]);
                }
            }
            assert(w.len() <= p.len());
            assert(t1[idx(w) as int] == t[idx(w) as int]);
        } else {
            assert(l.take(j) =~= p);
        }
    }
    assert forall|w: Seq<bool>|
        w.len() <= order && !extends(w, p0) implies #[trigger] t1[idx(w) as int] == t0[idx(
        w,
    ) as int] by {
        assert(t1[idx(w) as int] == t[idx(w) as int]);
    }
    lemma_pow2_mono(lvl(order, p), lvl(order, p0));
    assert forall|u: nat|
        u < pow2(order) && !in_node(order, l, u) implies #[trigger] owner(t1, order, Seq::empty(), u)
        == (if in_node(order, p0, u) {
        None
    } else {
        v[u as int]
    }) by {
        if in_node(order, p, u) {
            // u lies in the right half, now unused
            assert(in_node(order, r, u));
            assert forall|j: int| 0 <= j < r.len() implies #[trigger] internal(
                t1[idx(r.take(j)) as int],
            ) by {
                if j < p.len() {
                    lemma_take_push(p, true, j);
                    assert(t1[idx(p.take(j)) as int] == t[idx(p.take(j)) as int]);
                } else {
                    assert(r.take(j) =~= p);
                }
            }
            lemma_path_owner(t1, order, r, u);
        } else {
            lemma_update_owner(t, order, p, SPLIT, u);
            lemma_update_owner(ta, order, l, UNUSED, u);
            lemma_update_owner(tb, order, r, UNUSED, u);
        }
    }
}

/// Handing out the unused node `p` at the bottom of the split chain.
proof fn lemma_claim_step(
    t0: Seq<u8>,
    t: Seq<u8>,
    t2: Seq<u8>,
    order: nat,
    p0: Seq<bool>,
    p: Seq<bool>,
    k: nat,
    l0: nat,
    v: Blocks,
)
    requires
        tree_wf(t0, order),
        v == units(t0, order),
        t.len() == t0.len(),
        extends(p, p0),
        p.len() <= order,
        lvl(order, p) == k,
        off(order, p) == l0,
        off(order, p0) == l0,
        path_split(t0, p0),
        path_split(t, p),
        t[idx(p) as int] == UNUSED,
        forall|u: nat| #[trigger] in_node(order, p0, u) ==> v[u as int] is None,
        forall|j: int| p0.len() <= j < p.len() ==> #[trigger] p[j] == false,
        forall|j: int| p0.len() <= j < p.len() ==> #[trigger] t[idx(p.take(j)) as int] == SPLIT,
        forall|j: int|
            p0.len() <= j < p.len() ==> #[trigger] t[idx(p.take(j).push(true)) as int] == UNUSED,
        forall|w: Seq<bool>|
            w.len() <= order && !extends(w, p0) ==> #[trigger] t[idx(w) as int] == t0[idx(w) as int],
        forall|u: nat|
            u < pow2(order) && !in_node(order, p, u) ==> #[trigger] owner(t, order, Seq::empty(), u)
                == (if in_node(order, p0, u) {
                None
            } else {
                v[u as int]
            }),
        t2 == t.update(idx(p) as int, USED),
    ensures
        tree_wf(t2, order),
        units(t2, order) == claim(v, l0, k),
        path_split(t2, p),
        t2[idx(p) as int] == USED,
{
    assert forall|w: Seq<bool>| w.len() <= order implies #[trigger] t2[idx(w) as int] == if w == p {
        USED
    } else {
        t[idx(w) as int]
    } by {
        lemma_update_at(t, order, p, USED, w);
    }
    assert forall|j: int| 0 <= j < p.len() implies #[trigger] t2[idx(p.take(j)) as int] == t[idx(
        p.take(j),
    ) as int] by {
        assert(t2[idx(p.take(j)) as int] == t[idx(p.take(j)) as int]);
    }
    assert(path_split(t2, p));
    // the new blocks
    assert forall|u: int| 0 <= u < pow2(order) implies #[trigger] units(t2, order)[u] == claim(
        v,
        l0,
        k,
    )[u] by {
        let uu = u as nat;
        if in_node(order, p, uu) {
            lemma_split_path_internal(t2, p);
            lemma_path_owner(t2, order, p, uu);
        } else {
            lemma_update_owner(t, order, p, USED, uu);
            if in_node(order, p0, uu) {
                assert(v[u] is None);
            }
        }
    }
    assert(units(t2, order) =~= claim(v, l0, k));
    // well-formedness: the split chain below p0, then the ancestors of p0
    assert forall|j: int| p0.len() <= j < p.len() implies #[trigger] t2[idx(p.take(j)) as int]
        == SPLIT by {
        assert(t[idx(p.take(j)) as int] == SPLIT);
    }
    assert forall|j: int|
        p0.len() <= j < p.len() implies #[trigger] t2[idx(p.take(j).push(true)) as int] == UNUSED by {
        let w = p.take(j).push(true);
        assert(w != p) by {
            if w == p {
                assert(w[j] == p[j]);
            }
        }
        assert(t[idx(w) as int] == UNUSED);
    }
    lemma_spine(t2, order, p, p0.len(), p0.len());
    assert(p.take(p0.len() as int) =~= p0);
    assert forall|w: Seq<bool>|
        w.len() <= order && !extends(w, p0) implies #[trigger] t2[idx(w) as int] == t0[idx(
        w,
    ) as int] by {
        if w == p {
            lemma_extends_trans(w, p, p0);
        }
    }
    assert(extends(p0, Seq::<bool>::empty())) by {
        assert(p0.subrange(0, 0) =~= Seq::<bool>::empty());
    }
    lemma_split_path_internal(t0, p0);
    if p0.len() > 0 {
        assert(p0.take(p0.len() - 1) =~= p0.drop_last());
        assert(t0[idx(p0.take(p0.len() - 1)) as int] == SPLIT);
    }
    lemma_replace(t0, t2, order, Seq::empty(), p0);
    lemma_idx_in_tree(p, order);
    assert(t2.len() == t0.len());
}

/// Marking the split parent of two full halves as full.
proof fn lemma_full_step(t: Seq<u8>, t2: Seq<u8>, order: nat, pp: Seq<bool>)
    requires
        tree_wf(t, order),
        0 < pp.len() <= order,
        path_split(t, pp),
        is_full(t[idx(pp) as int]),
        is_full(t[idx(sibling(pp)) as int]),
        t2 == t.update(idx(pp.drop_last()) as int, FULL),
    ensures
        tree_wf(t2, order),
        units(t2, order) == units(t, order),
        t2.len() == t.len(),
        is_full(t2[idx(pp.drop_last()) as int]),
        path_split(t2, pp.drop_last()),
{
    let f = pp.drop_last();
    assert(pp =~= f.push(pp.last()));
    assert(f.push(!pp.last()) == sibling(pp));
    lemma_child_range(order, f, false);
    lemma_child_range(order, f, true);
    assert(pp.take(f.len() as int) =~= f);
    assert(t[idx(f) as int] == SPLIT);
    assert forall|w: Seq<bool>| w.len() <= order implies #[trigger] t2[idx(w) as int] == if w == f {
        FULL
    } else {
        t[idx(w) as int]
    } by {
        lemma_update_at(t, order, f, FULL, w);
    }
    // the owners do not change: split and full are alike
    assert forall|u: int| 0 <= u < pow2(order) implies #[trigger] units(t2, order)[u] == units(
        t,
        order,
    )[u] by {
        lemma_update_owner(t, order, f, FULL, u as nat);
    }
    assert(units(t2, order) =~= units(t, order));
    // path
    assert forall|j: int| 0 <= j < f.len() implies #[trigger] t2[idx(f.take(j)) as int] == SPLIT by {
        lemma_take_push(f, pp.last(), j);
        assert(t2[idx(f.take(j)) as int] == t[idx(f.take(j)) as int]);
    }
    // well-formedness
    lemma_split_path_internal(t, pp);
    assert forall|j: int| 0 <= j < f.len() implies #[trigger] internal(t[idx(f.take(j)) as int]) by {
        lemma_take_push(f, pp.last(), j);
    }
    lemma_path_wf(t, order, f);
    let l = f.push(false);
    let r = f.push(true);
    assert forall|w: Seq<bool>|
        w.len() <= order && extends(w, l) implies #[trigger] t2[idx(w) as int] == t[idx(
        w,
    ) as int] by {
        assert(w != f);
    }
    assert forall|w: Seq<bool>|
        w.len() <= order && extends(w, r) implies #[trigger] t2[idx(w) as int] == t[idx(
        w,
    ) as int] by {
        assert(w != f);
    }
    lemma_wf_frame(t, t2, order, l);
    lemma_wf_frame(t, t2, order, r);
    assert(t2[idx(l) as int] == t[idx(l) as int]);
    assert(t2[idx(r) as int] == t[idx(r) as int]);
    assert(node_wf(t2, order, f));
    assert forall|w: Seq<bool>|
        w.len() <= order && !extends(w, f) implies #[trigger] t2[idx(w) as int] == t[idx(
        w,
    ) as int] by {
        lemma_extends_push(f, true);
    }
    assert(extends(f, Seq::<bool>::empty())) by {
        assert(f.subrange(0, 0) =~= Seq::<bool>::empty());
    }
    if f.len() > 0 {
        assert(f.take(f.len() - 1) =~= f.drop_last());
        lemma_take_push(f, pp.last(), f.len() - 1);
        assert(t[idx(f.take(f.len() - 1)) as int] == SPLIT);
    }
    lemma_replace(t, t2, order, Seq::empty(), f);
    lemma_idx_in_tree(f, order);
    assert(t2.len() == t.len());
}


/// The block of node `x`, seen from its ancestor-or-self `p`: the units
/// below `p` are free except those of `x`.
pub open spec fn only_block(t: Seq<u8>, order: nat, p: Seq<bool>, x: Seq<bool>) -> bool {
    forall|u: nat|
        #[trigger] in_node(order, p, u) ==> owner(t, order, p, u) == (if in_node(order, x, u) {
            Some((off(order, x), lvl(order, x)))
        } else {
            None
        })
}

/// Releasing the whole tree at the root.
proof fn lemma_release_root(t0: Seq<u8>, t1: Seq<u8>, order: nat, x: Seq<bool>)
    requires
        tree_wf(t0, order),
        x.len() <= order,
        only_block(t0, order, Seq::empty(), x),
        t1 == t0.update(0, UNUSED),
    ensures
        tree_wf(t1, order),
        units(t1, order) == release(units(t0, order), off(order, x), lvl(order, x)),
{
    lemma_idx_in_tree(Seq::<bool>::empty(), order);
    lemma2_to64();
    assert(idx(Seq::<bool>::empty()) == 0);
    assert(node_wf(t1, order, Seq::empty()));
    lemma_off_formula(order, x);
    assert forall|u: int| 0 <= u < pow2(order) implies #[trigger] units(t1, order)[u] == release(
        units(t0, order),
        off(order, x),
        lvl(order, x),
    )[u] by {
        assert(in_node(order, Seq::<bool>::empty(), u as nat));
    }
    assert(units(t1, order) =~= release(units(t0, order), off(order, x), lvl(order, x)));
}

/// Marking node `c` unused, the first step of a release below the root.
proof fn lemma_release_cut(t0: Seq<u8>, t1: Seq<u8>, order: nat, c: Seq<bool>, x: Seq<bool>)
    requires
        tree_wf(t0, order),
        0 < c.len() <= x.len() <= order,
        extends(x, c),
        path_internal(t0, x, 0),
        t0[idx(x) as int] == USED,
        off(order, c) <= off(order, x),
        off(order, x) + pow2(lvl(order, x)) <= off(order, c) + pow2(lvl(order, c)),
        only_block(t0, order, c, x),
        t0[idx(sibling(c)) as int] != UNUSED,
        t1 == t0.update(idx(c) as int, UNUSED),
    ensures
        t1.len() == t0.len(),
        t1[idx(c) as int] == UNUSED,
        path_internal(t0, c, 0),
        has_alloc(t0, order, sibling(c)),
        forall|w: Seq<bool>|
            w.len() <= order && !(extends(c, w) && w.len() >= c.len()) ==> #[trigger] t1[idx(
                w,
            ) as int] == t0[idx(w) as int],
        units(t1, order) == release(units(t0, order), off(order, x), lvl(order, x)),
{
    let v = units(t0, order);
    lemma_idx_in_tree(c, order);
    assert forall|k: int| 0 <= k < c.len() implies #[trigger] internal(t0[idx(c.take(k)) as int]) by {
        assert(c.take(k) =~= x.take(k));
    }
    assert forall|w: Seq<bool>| w.len() <= order implies #[trigger] t1[idx(w) as int] == if w == c {
        UNUSED
    } else {
        t0[idx(w) as int]
    } by {
        lemma_update_at(t0, order, c, UNUSED, w);
    }
    assert forall|w: Seq<bool>|
        w.len() <= order && !(extends(c, w) && w.len() >= c.len()) implies #[trigger] t1[idx(
        w,
    ) as int] == t0[idx(w) as int] by {
        if w == c {
            assert(c.subrange(0, c.len() as int) =~= c);
        }
    }
    // the buddy holds an allocation
    let a = c.drop_last();
    let sib = sibling(c);
    assert(c =~= a.push(c.last()));
    assert forall|k: int| 0 <= k < sib.len() implies #[trigger] internal(t0[idx(sib.take(k)) as int]) by {
        lemma_take_push(a, !c.last(), k);
        lemma_take_push(a, c.last(), k);
        if k == a.len() {
            assert(sib.take(k) =~= a);
            assert(c.take(k) =~= a);
        }
    }
    lemma_path_wf(t0, order, sib);
    // owners
    lemma_off_formula(order, x);
    lemma_off_formula(order, c);
    assert forall|u: int| 0 <= u < pow2(order) implies #[trigger] units(t1, order)[u] == release(
        v,
        off(order, x),
        lvl(order, x),
    )[u] by {
        let uu = u as nat;
        if in_node(order, c, uu) {
            assert forall|k: int| 0 <= k < c.len() implies #[trigger] internal(
                t1[idx(c.take(k)) as int],
            ) by {
                assert(c.take(k) != c);
                assert(internal(t0[idx(c.take(k)) as int]));
            }
            lemma_path_owner(t1, order, c, uu);
            lemma_path_owner(t0, order, c, uu);
        } else {
            lemma_update_owner(t0, order, c, UNUSED, uu);
        }
    }
    assert(units(t1, order) =~= release(v, off(order, x), lvl(order, x)));
}

/// A full ancestor of the released node becomes split again.
proof fn lemma_unfull_step(
    t0: Seq<u8>,
    t: Seq<u8>,
    t2: Seq<u8>,
    order: nat,
    c: Seq<bool>,
    p: Seq<bool>,
)
    requires
        t.len() == t0.len(),
        tree_wf(t0, order),
        0 < p.len() <= c.len() <= order,
        extends(c, p),
        forall|j: int| p.len() <= j < c.len() ==> #[trigger] t[idx(c.take(j)) as int] == SPLIT,
        forall|j: int| p.len() <= j < c.len() ==> #[trigger] t0[idx(c.take(j)) as int] == FULL,
        forall|w: Seq<bool>|
            w.len() <= order && !(extends(c, w) && w.len() >= p.len()) ==> #[trigger] t[idx(
                w,
            ) as int] == t0[idx(w) as int],
        t0[idx(p.drop_last()) as int] == FULL,
        t2 == t.update(idx(p.drop_last()) as int, SPLIT),
    ensures
        ({
            let q = p.drop_last();
            &&& t2.len() == t0.len()
            &&& t2[idx(c) as int] == t[idx(c) as int]
            &&& extends(c, q)
            &&& forall|j: int| q.len() <= j < c.len() ==> #[trigger] t2[idx(c.take(j)) as int] == SPLIT
            &&& forall|j: int| q.len() <= j < c.len() ==> #[trigger] t0[idx(c.take(j)) as int] == FULL
            &&& forall|w: Seq<bool>|
                w.len() <= order && !(extends(c, w) && w.len() >= q.len()) ==> #[trigger] t2[idx(
                    w,
                ) as int] == t0[idx(w) as int]
            &&& units(t2, order) == units(t, order)
        }),
{
    let q = p.drop_last();
    lemma_idx_in_tree(q, order);
    assert(c.take(q.len() as int) =~= q) by {
        assert(c.subrange(0, p.len() as int) =~= p);
    }
    assert(extends(c, q)) by {
        assert(c.subrange(0, q.len() as int) =~= q);
    }
    assert(!(extends(c, q) && q.len() >= p.len()));
    assert(t[idx(q) as int] == FULL);
    assert forall|w: Seq<bool>| w.len() <= order implies #[trigger] t2[idx(w) as int] == if w == q {
        SPLIT
    } else {
        t[idx(w) as int]
    } by {
        lemma_update_at(t, order, q, SPLIT, w);
    }
    assert(c != q);
    assert(t2[idx(c) as int] == t[idx(c) as int]);
    assert forall|j: int| q.len() <= j < c.len() implies #[trigger] t2[idx(c.take(j)) as int] == SPLIT by {
        if j == q.len() {
        } else {
            assert(c.take(j) != q);
        }
    }
    assert forall|w: Seq<bool>|
        w.len() <= order && !(extends(c, w) && w.len() >= q.len()) implies #[trigger] t2[idx(
        w,
    ) as int] == t0[idx(w) as int] by {
        if w == q {
        }
    }
    assert forall|u: int| 0 <= u < pow2(order) implies #[trigger] units(t2, order)[u] == units(
        t,
        order,
    )[u] by {
        lemma_update_owner(t, order, q, SPLIT, u as nat);
    }
    assert(units(t2, order) =~= units(t, order));
}

/// After a release, the tree is well formed again.
proof fn lemma_release_wf(t0: Seq<u8>, t: Seq<u8>, order: nat, c: Seq<bool>, p: Seq<bool>)
    requires
        t.len() == t0.len(),
        tree_wf(t0, order),
        0 < c.len() <= order,
        extends(c, p),
        path_internal(t0, c, 0),
        t[idx(c) as int] == UNUSED,
        has_alloc(t0, order, sibling(c)),
        forall|j: int| p.len() <= j < c.len() ==> #[trigger] t[idx(c.take(j)) as int] == SPLIT,
        forall|j: int| p.len() <= j < c.len() ==> #[trigger] t0[idx(c.take(j)) as int] == FULL,
        forall|w: Seq<bool>|
            w.len() <= order && !(extends(c, w) && w.len() >= p.len()) ==> #[trigger] t[idx(
                w,
            ) as int] == t0[idx(w) as int],
        p.len() == 0 || t0[idx(p.drop_last()) as int] != FULL,
    ensures
        tree_wf(t, order),
{
    lemma_freed_chain(t0, t, order, c, p.len(), p.len());
    assert(c.take(p.len() as int) =~= p) by {
        assert(c.subrange(0, p.len() as int) =~= p);
    }
    assert forall|w: Seq<bool>|
        w.len() <= order && !extends(w, p) implies #[trigger] t[idx(w) as int] == t0[idx(
        w,
    ) as int] by {
        if extends(c, w) && w.len() >= p.len() {
            assert(w.subrange(0, p.len() as int) =~= c.subrange(0, p.len() as int));
        }
    }
    assert forall|k: int| 0 <= k < p.len() implies #[trigger] internal(t0[idx(p.take(k)) as int]) by {
        assert(p.take(k) =~= c.take(k));
    }
    assert(extends(p, Seq::<bool>::empty())) by {
        assert(p.subrange(0, 0) =~= Seq::<bool>::empty());
    }
    if p.len() == c.len() {
        assert(p =~= c);
    }
    if p.len() > 0 {
        assert(p.take(p.len() - 1) =~= p.drop_last());
    }
    lemma_replace(t0, t, order, Seq::empty(), p);
}

/// `32 - leading_zeros(x)` is the number of significant bits of `x`.
proof fn lemma_significant_bits(x: u32)
    ensures
        (x as nat) < pow2((32 - u32_leading_zeros(x)) as nat),
        u32_leading_zeros(x) == 32 || pow2((31 - u32_leading_zeros(x)) as nat) <= x,
{
    axiom_u32_leading_zeros(x);
    lemma2_to64();
    let lz = u32_leading_zeros(x);
    let k = (32 - lz) as u32;
    if k < 32 {
        assert(x >> k == 0);
        lemma_u32_shr_is_div(x, k);
        lemma_pow2_pos(k as nat);
        assert((x as nat) < pow2(k as nat)) by (nonlinear_arith)
            requires
                x as nat / pow2(k as nat) == 0,
                pow2(k as nat) > 0,
        ;
    }
    if lz < 32 {
        let s = (31 - lz) as u32;
        assert((x >> s) & 1u32 != 0u32 ==> (x >> s) != 0u32) by (bit_vector);
        lemma_u32_shr_is_div(x, s);
        lemma_pow2_pos(s as nat);
        assert(pow2(s as nat) <= x) by (nonlinear_arith)
            requires
                x as nat / pow2(s as nat) != 0,
                pow2(s as nat) > 0,
        ;
    }
}

/// Log2 of the block size that a request for `size` units gets.
pub open spec fn size_order(size: nat) -> nat {
    ceil_log2(if size == 0 { 1 } else { size })
}

/// A buddy allocator over `2^order` units.
pub struct BuddyAlloc {
    order: usize,
    tree: Bitv,
}

impl View for BuddyAlloc {
    type V = Blocks;

    closed spec fn view(&self) -> Blocks {
        units(self.tree@, self.order as nat)
    }
}

impl BuddyAlloc {
    pub closed spec fn wf(&self) -> bool {
        tree_wf(self.tree@, self.order as nat)
    }

    /// Log2 of the number of units managed.
    pub closed spec fn spec_order(&self) -> nat {
        self.order as nat
    }

    pub proof fn lemma_view_len(&self)
        ensures
            self@.len() == pow2(self.spec_order()),
    {
    }

    /// Creates an allocator over `2^order` units whose tree is kept in
    /// `storage`. The first `2^(order + 1)` entries are cleared a byte (four
    /// entries) at a time, so every unit is free; for a one-unit tree no
    /// whole byte is cleared and its root keeps the state it had in
    /// `storage`, which must be unused or used (the unit handed out).
    pub fn new(order: usize, storage: Bitv) -> (b: BuddyAlloc)
        requires
            order <= MAX_ORDER,
            storage@.len() >= pow2(order as nat + 1),
            order == 0 ==> storage@[0] < 2,
        ensures
            b.wf(),
            b.spec_order() == order,
            b@ == Seq::new(
                pow2(order as nat),
                |u: int|
                    if order == 0 && storage@[0] == USED {
                        Some((0nat, 0nat))
                    } else {
                        None::<(nat, nat)>
                    },
            ),
    {
        let ghost s0 = storage@;
        let mut storage = storage;
        proof {
            lemma_usize_pow2_no_overflow(order as nat + 1);
            lemma_usize_shl_is_mul(1, (order + 1) as usize);
            lemma_pow2_unfold(order as nat + 1);
            lemma_pow2_pos(order as nat);
            lemma2_to64();
            if order > 0 {
                lemma_pow2_unfold(order as nat);
                lemma_pow2_pos((order - 1) as nat);
            }
        }
        let tree_size: usize = 1usize << (order + 1);
        proof {
            assert(tree_size == pow2(order as nat + 1));
            assert(order > 0 ==> tree_size % 4 == 0);
            assert(order == 0 ==> tree_size == 2);
        }
        storage.clear(tree_size);
        let b = BuddyAlloc { order, tree: storage };
        proof {
            lemma_idx_in_tree(Seq::<bool>::empty(), order as nat);
            assert(idx(Seq::<bool>::empty()) == 0);
            if order > 0 {
                assert(b.tree@[0] == 0);
            } else {
                assert(b.tree@[0] == s0[0]);
            }
            assert(node_wf(b.tree@, order as nat, Seq::empty()));
            assert(b@ =~= Seq::new(
                pow2(order as nat),
                |u: int|
                    if order == 0 && s0[0] == USED {
                        Some((0nat, 0nat))
                    } else {
                        None::<(nat, nat)>
                    },
            ));
        }
        b
    }

    /// State of tree node `i`.
    fn get(&self, i: usize) -> (n: Node)
        requires
            i < self.tree@.len(),
        ensures
            n.code() == self.tree@[i as int],
    {
        match self.tree.get(i) {
            0 => Node::UNUSED,
            1 => Node::USED,
            2 => Node::SPLIT,
            _ => Node::FULL,
        }
    }

    /// Stores state `x` at tree node `i`.
    fn set(&mut self, i: usize, x: Node)
        requires
            i < old(self).tree@.len(),
        ensures
            final(self).tree@ == old(self).tree@.update(i as int, x.code()),
            final(self).order == old(self).order,
    {
        let c: u8 = match x {
            Node::UNUSED => 0,
            Node::USED => 1,
            Node::SPLIT => 2,
            Node::FULL => 3,
        };
        self.tree.set(i, c);
    }

    /// First unit of the block of node `index`, which lies at height `level`.
    pub fn offset(&self, index: usize, level: usize) -> (o: usize)
        requires
            self.wf(),
            level <= self.spec_order(),
            pow2((self.spec_order() - level) as nat) <= index + 1 < pow2(
                (self.spec_order() - level) as nat + 1,
            ),
        ensures
            o == (index + 1 - pow2((self.spec_order() - level) as nat)) * pow2(level as nat),
            o + pow2(level as nat) <= pow2(self.spec_order()),
    {
        let ghost d = (self.order - level) as nat;
        proof {
            lemma_usize_pow2_no_overflow(self.order as nat);
            lemma_usize_shl_is_mul(1, self.order);
            lemma_usize_shr_is_div((1usize << self.order), level);
            lemma_pow2_adds(d, level as nat);
            lemma_pow2_pos(level as nat);
            assert(pow2(self.order as nat) / pow2(level as nat) == pow2(d)) by (nonlinear_arith)
                requires
                    pow2(self.order as nat) == pow2(d) * pow2(level as nat),
                    pow2(level as nat) > 0,
            ;
            lemma_pow2_unfold(d + 1);
            lemma_usize_pow2_no_overflow(d + 1);
        }
        let first: usize = 1usize << self.order >> level;
        let m: usize = index + 1 - first;
        proof {
            assert(m < pow2(d));
            assert(m * pow2(level as nat) + pow2(level as nat) <= pow2(d) * pow2(level as nat))
                by (nonlinear_arith)
                requires
                    m < pow2(d),
            ;
            lemma_usize_shl_is_mul(m, level);
        }
        m << level
    }

    /// Hands out the first free aligned block of `2^k` units, `2^k` being the
    /// smallest power of two not below `size` (1 for a `size` of 0). Returns
    /// the block's first unit and its size `2^k`, or `(0, 0)` when no such
    /// block is free. A request larger than the whole allocator is answered
    /// only while no unit is free (then with `(0, 0)`): otherwise the search
    /// splits free nodes down past the leaves and does not come back.
    pub fn allocate(&mut self, size: usize) -> (r: (usize, usize))
        requires
            old(self).wf(),
            answers(old(self)@, old(self).spec_order(), size as nat),
        ensures
            final(self).wf(),
            final(self).spec_order() == old(self).spec_order(),
            (exists|o: nat| #[trigger] free_block(old(self)@, o, size_order(size as nat))) ==> {
                let k = size_order(size as nat);
                &&& r.1 == pow2(k)
                &&& free_block(old(self)@, r.0 as nat, k)
                &&& forall|o: nat| o < r.0 ==> !#[trigger] free_block(old(self)@, o, k)
                &&& final(self)@ == claim(old(self)@, r.0 as nat, k)
            },
            !(exists|o: nat| #[trigger] free_block(old(self)@, o, size_order(size as nat))) ==> {
                &&& r == (0usize, 0usize)
                &&& final(self)@ == old(self)@
            },
    {
        let ghost t0 = self.tree@;
        let ghost order = self.order as nat;
        let ghost v = self@;
        let mut size_: usize = size;
        if size_ == 0 {
            size_ = 1;
        }
        let ghost n = size_ as nat;
        let ghost k = ceil_log2(n);
        proof {
            lemma_ceil_log2(n);
            lemma_usize_pow2_no_overflow(order);
            lemma_usize_shl_is_mul(1, self.order);
            lemma_pow2_pos(k);
        }
        if size_ > (1usize << self.order) {
            proof {
                assert forall|o: nat| !#[trigger] free_block(v, o, k) by {}
            }
            return (0, 0);
        }
        // smallest power of 2 >= size
        let x: u32 = (size_ - 1) as u32;
        let lg2_size: usize = (32 - x.leading_zeros()) as usize;
        proof {
            lemma_pow2_mono(order, 30);
            lemma2_to64();
            assert(x == size_ - 1);
            lemma_significant_bits(x);
            lemma_ceil_log2_unique(n, lg2_size as nat);
            if lg2_size > 0 && lg2_size - 1 >= order {
                lemma_pow2_mono(order, (lg2_size - 1) as nat);
            }
            assert(lg2_size <= order);
        }
        let mut index: usize = 0;  // points to current tree node
        let mut level: usize = self.order;  // current height
        let ghost mut p: Seq<bool> = Seq::empty();
        proof {
            lemma2_to64();
        }
        loop
            invariant
                self.tree@ == t0,
                self.order == order,
                tree_wf(t0, order),
                v == units(t0, order),
                v == old(self)@,
                k == size_order(size as nat),
                lg2_size == k,
                k <= order,
                p.len() + level == order,
                lg2_size <= level,
                index == idx(p),
                path_split(t0, p),
                forall|o: nat| o < off(order, p) ==> !#[trigger] free_block(v, o, k),
            ensures
                t0[idx(p) as int] == UNUSED,
            decreases pow2(order) - off(order, p), level,
        {
            proof {
                lemma_idx_in_tree(p, order);
                lemma_off_formula(order, p);
            }
            match self.get(index) {
                Node::UNUSED => {
                    break;
                },
                Node::SPLIT if level != lg2_size => {
                    // Traverse children
                    proof {
                        lemma_idx_in_tree(p.push(false), order);
                        lemma_usize_pow2_no_overflow(order + 1);
                        lemma_child_range(order, p, false);
                        let c = p.push(false);
                        assert forall|j: int| 0 <= j < c.len() implies #[trigger] t0[idx(c.take(j)) as int] == SPLIT by {
                            if j < p.len() {
                                lemma_take_push(p, false, j);
                            } else {
                                assert(c.take(j) =~= p);
                            }
                        }
                        p = c;
                    }
                    index = index * 2 + 1;  // left child
                    level = level - 1;
                },
                _ => {
                    proof {
                        lemma_skip(t0, order, p, k);
                        lemma_pow2_pos(lvl(order, p));
                    }
                    let ghost end = off(order, p) + pow2(lvl(order, p));
                    loop
                        invariant_except_break
                            off(order, p) + pow2(lvl(order, p)) == end,
                            forall|o: nat| o < end ==> !#[trigger] free_block(v, o, k),
                        invariant
                            self.tree@ == t0,
                            self.order == order,
                            tree_wf(t0, order),
                            v == units(t0, order),
                v == old(self)@,
                k == size_order(size as nat),
                            lg2_size == k,
                            k <= order,
                            p.len() + level == order,
                            lg2_size <= level,
                            index == idx(p),
                            path_split(t0, p),
                        ensures
                            off(order, p) == end,
                            forall|o: nat| o < off(order, p) ==> !#[trigger] free_block(v, o, k),
                        decreases p.len(),
                    {
                        // Go either right or back up
                        proof {
                            lemma_idx_in_tree(p, order);
                            lemma_usize_pow2_no_overflow(order + 1);
                            lemma_pow2_pos(k);
                        }
                        assert((index & 1 == 1) == (index % 2 == 1)) by (bit_vector);
                        if index & 1 == 1 {
                            // right sibling
                            proof {
                                let a = p.drop_last();
                                if p.len() == 0 {
                                    assert(idx(p) == 0);
                                }
                                assert(p =~= a.push(p.last()));
                                lemma_child_range(order, a, false);
                                lemma_child_range(order, a, true);
                                assert(!p.last());
                                let sib = a.push(true);
                                assert forall|j: int| 0 <= j < sib.len() implies #[trigger] t0[idx(sib.take(j)) as int] == SPLIT by {
                                    lemma_take_push(a, true, j);
                                    lemma_take_push(a, false, j);
                                    assert(p.take(j) == a.take(j));
                                }
                                p = sib;
                            }
                            index = index + 1;
                            break;
                        }
                        // go up by one level
                        level = level + 1;
                        if index == 0 {
                            // out of memory -- back at tree's root after traversal
                            proof {
                                if p.len() > 0 {
                                    lemma_idx_bound(p);
                                    lemma_pow2_mono(1, p.len());
                                }
                                assert(p =~= Seq::<bool>::empty());
                                assert forall|o: nat| !#[trigger] free_block(v, o, k) by {
                                    if free_block(v, o, k) {
                                        assert(o < end);
                                    }
                                }
                            }
                            return (0, 0);
                        }
                        proof {
                            let a = p.drop_last();
                            assert(p =~= a.push(p.last()));
                            lemma_child_range(order, a, p.last());
                            assert(p.last());
                            assert forall|j: int| 0 <= j < a.len() implies #[trigger] t0[idx(a.take(j)) as int] == SPLIT by {
                                lemma_take_push(a, true, j);
                            }
                            p = a;
                        }
                        index = (index + 1) / 2 - 1;  // parent
                    }
                },
            }
        }
        // Found an unused node at or above the requested size
        let ghost p0 = p;
        let ghost l0 = off(order, p);
        proof {
            lemma_found(t0, order, p, k);
            lemma_off_formula(order, p);
            assert forall|u: nat| #[trigger] in_node(order, p0, u) implies v[u as int] is None by {
                lemma_split_path_internal(t0, p0);
                lemma_path_owner(t0, order, p0, u);
            }
            assert(extends(p, p0)) by {
                assert(p.subrange(0, p0.len() as int) =~= p0);
            }
        }
        while level != lg2_size
            invariant
                self.order == order,
                self.tree@.len() == t0.len(),
                tree_wf(t0, order),
                v == units(t0, order),
                v == old(self)@,
                k == size_order(size as nat),
                lg2_size == k,
                k <= order,
                extends(p, p0),
                p.len() + level == order,
                lg2_size <= level,
                index == idx(p),
                off(order, p) == l0,
                off(order, p0) == l0,
                path_split(t0, p0),
                t0[idx(p0) as int] == UNUSED,
                path_split(self.tree@, p),
                self.tree@[idx(p) as int] == UNUSED,
                forall|j: int| p0.len() <= j < p.len() ==> #[trigger] p[j] == false,
                forall|j: int|
                    p0.len() <= j < p.len() ==> #[trigger] self.tree@[idx(p.take(j)) as int]
                        == SPLIT,
                forall|j: int|
                    p0.len() <= j < p.len() ==> #[trigger] self.tree@[idx(p.take(j).push(true)) as int]
                        == UNUSED,
                forall|w: Seq<bool>|
                    w.len() <= order && !extends(w, p0) ==> #[trigger] self.tree@[idx(w) as int]
                        == t0[idx(w) as int],
                forall|u: nat|
                    u < pow2(order) && !in_node(order, p, u) ==> #[trigger] owner(
                        self.tree@,
                        order,
                        Seq::empty(),
                        u,
                    ) == (if in_node(order, p0, u) {
                        None
                    } else {
                        v[u as int]
                    }),
            decreases level,
        {
            let ghost t = self.tree@;
            let ghost l = p.push(false);
            let ghost r = p.push(true);
            proof {
                lemma_idx_in_tree(r, order);
                lemma_usize_pow2_no_overflow(order + 1);
                lemma_child_range(order, p, false);
                lemma_child_range(order, p, true);
            }
            // This large node is unused, split it!
            self.set(index, Node::SPLIT);
            self.set(index * 2 + 1, Node::UNUSED);
            self.set(index * 2 + 2, Node::UNUSED);
            proof {
                let t1 = self.tree@;
                lemma_split_step(t, t1, t0, order, p0, p, l0, v);
                p = l;
            }
            index = index * 2 + 1;  // left child
            level = level - 1;
        }
        let ghost t = self.tree@;
        proof {
            lemma_idx_in_tree(p, order);
        }
        // Found appropriate unused node
        self.set(index, Node::USED);  // use
        proof {
            lemma_claim_step(t0, t, self.tree@, order, p0, p, k, l0, v);
        }
        let ghost tgt = p;
        let ghost mut pp = p;
        let mut parent = index;
        loop
            invariant
                self.order == order,
                tree_wf(self.tree@, order),
                self@ == claim(v, l0, k),
                v == old(self)@,
                k == size_order(size as nat),
                free_block(v, l0, k),
                forall|o: nat| o < l0 ==> !#[trigger] free_block(v, o, k),
                index == idx(tgt),
                tgt.len() + level == order,
                l0 == off(order, tgt),
                self.tree@.len() == t0.len(),
                parent == idx(pp),
                pp.len() <= order,
                is_full(self.tree@[idx(pp) as int]),
                path_split(self.tree@, pp),
            decreases parent,
        {
            if parent == 0 {
                break;
            }
            let ghost t = self.tree@;
            proof {
                if pp.len() == 0 {
                    assert(idx(pp) == 0);
                }
                let a = pp.drop_last();
                assert(pp =~= a.push(pp.last()));
                lemma_child_range(order, a, false);
                lemma_child_range(order, a, true);
                lemma_idx_in_tree(sibling(pp), order);
                lemma_idx_in_tree(pp, order);
                lemma_usize_pow2_no_overflow(order + 1);
            }
            assert((parent & 1) == (parent % 2)) by (bit_vector);
            let buddy = parent - 1 + (parent & 1) * 2;
            proof {
                assert(buddy == idx(sibling(pp)));
            }
            match self.get(buddy) {
                Node::USED | Node::FULL => {
                    parent = (parent + 1) / 2 - 1;
                    proof {
                        lemma_idx_in_tree(pp.drop_last(), order);
                    }
                    self.set(parent, Node::FULL);
                    proof {
                        lemma_full_step(t, self.tree@, order, pp);
                        pp = pp.drop_last();
                    }
                },
                _ => {
                    break;
                },
            }
        }
        proof {
            lemma_idx_bound(tgt);
            lemma_off_formula(order, tgt);
            lemma_usize_shl_is_mul(1, lg2_size);
            lemma_usize_pow2_no_overflow(k);
        }
        let r = (self.offset(index, level), 1usize << lg2_size);
        proof {
            assert(free_block(v, r.0 as nat, k));
            assert(exists|o: nat| #[trigger] free_block(v, o, k));
        }
        r
    }

    /// Gives back the handed-out block that holds unit `offset`; a block
    /// that becomes wholly free merges with its free buddy, up the tree.
    /// Nothing changes when no handed-out block holds `offset`.
    pub fn free(&mut self, offset: usize)
        requires
            old(self).wf(),
            offset < pow2(old(self).spec_order()),
        ensures
            final(self).wf(),
            final(self).spec_order() == old(self).spec_order(),
            match old(self)@[offset as int] {
                Some((o, k)) => final(self)@ == release(old(self)@, o, k),
                None => final(self)@ == old(self)@,
            },
    {
        let ghost t0 = self.tree@;
        let ghost order = self.order as nat;
        let ghost v = self@;
        proof {
            lemma_usize_pow2_no_overflow(order);
            lemma_usize_pow2_no_overflow(order + 1);
            lemma_usize_shl_is_mul(1, self.order);
            lemma2_to64();
        }
        let mut length: usize = 1usize << self.order;
        let mut left: usize = 0;
        let mut index: usize = 0;
        let ghost mut p: Seq<bool> = Seq::empty();
        loop
            invariant
                self.tree@ == t0,
                self.order == order,
                tree_wf(t0, order),
                v == units(t0, order),
                v == old(self)@,
                self.order == old(self).order,
                offset < pow2(order),
                p.len() <= order,
                index == idx(p),
                left == off(order, p),
                length == pow2(lvl(order, p)),
                path_internal(t0, p, 0),
                in_node(order, p, offset as nat),
            ensures
                t0[idx(p) as int] == USED,
            decreases order - p.len(),
        {
            proof {
                lemma_idx_in_tree(p, order);
                lemma_off_formula(order, p);
                lemma_usize_pow2_no_overflow(order);
                lemma_usize_pow2_no_overflow(order + 1);
            }
            match self.get(index) {
                Node::UNUSED => {
                    proof {
                        lemma_path_owner(t0, order, p, offset as nat);
                    }
                    return ;
                },
                Node::USED => {
                    break ;
                },
                _ => {
                    proof {
                        lemma_path_wf(t0, order, p);
                        lemma_child_range(order, p, false);
                        lemma_child_range(order, p, true);
                        lemma_idx_in_tree(p.push(true), order);
                    }
                    length = length / 2;
                    if offset < left + length {
                        proof {
                            let c = p.push(false);
                            assert forall|k: int| 0 <= k < c.len() implies #[trigger] internal(
                                t0[idx(c.take(k)) as int],
                            ) by {
                                if k < p.len() {
                                    lemma_take_push(p, false, k);
                                } else {
                                    assert(c.take(k) =~= p);
                                }
                            }
                            p = c;
                        }
                        index = index * 2 + 1;  // left child
                    } else {
                        proof {
                            let c = p.push(true);
                            assert forall|k: int| 0 <= k < c.len() implies #[trigger] internal(
                                t0[idx(c.take(k)) as int],
                            ) by {
                                if k < p.len() {
                                    lemma_take_push(p, true, k);
                                } else {
                                    assert(c.take(k) =~= p);
                                }
                            }
                            p = c;
                        }
                        left = left + length;
                        index = index * 2 + 2;  // right child
                    }
                },
            }
        }
        // The block of node x holds offset: give it back.
        let ghost x = p;
        proof {
            lemma_path_owner(t0, order, x, offset as nat);
            lemma_extends_push(x, true);
            assert forall|u: nat| #[trigger] in_node(order, x, u) implies owner(t0, order, x, u) == (
            if in_node(order, x, u) {
                Some((off(order, x), lvl(order, x)))
            } else {
                None
            }) by {}
        }
        loop
            invariant
                self.tree@ == t0,
                self.order == order,
                tree_wf(t0, order),
                v == units(t0, order),
                v == old(self)@,
                self.order == old(self).order,
                v[offset as int] == Some((off(order, x), lvl(order, x))),
                x.len() <= order,
                t0[idx(x) as int] == USED,
                path_internal(t0, x, 0),
                extends(x, p),
                index == idx(p),
                off(order, p) <= off(order, x),
                off(order, x) + pow2(lvl(order, x)) <= off(order, p) + pow2(lvl(order, p)),
                only_block(t0, order, p, x),
            decreases p.len(),
        {
            proof {
                lemma_idx_in_tree(p, order);
            }
            if index == 0 {
                proof {
                    if p.len() > 0 {
                        lemma_idx_bound(p);
                        lemma_pow2_mono(1, p.len());
                    }
                    assert(p =~= Seq::<bool>::empty());
                }
                self.set(0, Node::UNUSED);
                proof {
                    lemma_release_root(t0, self.tree@, order, x);
                }
                return ;
            }
            let ghost a = p.drop_last();
            proof {
                if p.len() == 0 {
                    assert(idx(p) == 0);
                }
                assert(p =~= a.push(p.last()));
                lemma_child_range(order, a, false);
                lemma_child_range(order, a, true);
                lemma_idx_in_tree(sibling(p), order);
                lemma_usize_pow2_no_overflow(order + 1);
            }
            assert((index & 1) == (index % 2)) by (bit_vector);
            let buddy = index - 1 + (index & 1) * 2;
            proof {
                assert(buddy == idx(sibling(p)));
            }
            match self.get(buddy) {
                Node::UNUSED => {},
                _ => {
                    let ghost c = p;
                    proof {
                        assert(p.take(p.len() as int) =~= p);
                        assert(p.subrange(0, p.len() as int) =~= p);
                    }
                    self.set(index, Node::UNUSED);
                    proof {
                        lemma_release_cut(t0, self.tree@, order, c, x);
                    }
                    loop
                        invariant
                            self.tree@.len() == t0.len(),
                            self.order == order,
                            tree_wf(t0, order),
                            v == units(t0, order),
                            v == old(self)@,
                self.order == old(self).order,
                            v[offset as int] == Some((off(order, x), lvl(order, x))),
                            0 < c.len() <= order,
                            path_internal(t0, c, 0),
                            has_alloc(t0, order, sibling(c)),
                            self.tree@[idx(c) as int] == UNUSED,
                            extends(c, p),
                            index == idx(p),
                            forall|j: int|
                                p.len() <= j < c.len() ==> #[trigger] self.tree@[idx(c.take(j)) as int]
                                    == SPLIT,
                            forall|j: int|
                                p.len() <= j < c.len() ==> #[trigger] t0[idx(c.take(j)) as int]
                                    == FULL,
                            forall|w: Seq<bool>|
                                w.len() <= order && !(extends(c, w) && w.len() >= p.len())
                                    ==> #[trigger] self.tree@[idx(w) as int] == t0[idx(w) as int],
                            units(self.tree@, order) == release(v, off(order, x), lvl(order, x)),
                        decreases p.len(),
                    {
                        proof {
                            lemma_idx_in_tree(p, order);
                            lemma_usize_pow2_no_overflow(order + 1);
                        }
                        if index == 0 {
                            proof {
                                if p.len() > 0 {
                                    lemma_idx_bound(p);
                                    lemma_pow2_mono(1, p.len());
                                }
                                lemma_release_wf(t0, self.tree@, order, c, p);
                            }
                            return ;
                        }
                        let parent = (index + 1) / 2 - 1;  // parent
                        proof {
                            if p.len() == 0 {
                                assert(idx(p) == 0);
                            }
                            let q = p.drop_last();
                            assert(p =~= q.push(p.last()));
                            lemma_child_range(order, q, p.last());
                            lemma_idx_in_tree(q, order);
                            assert(parent == idx(q));
                            assert(!(extends(c, q) && q.len() >= p.len()));
                        }
                        match self.get(parent) {
                            Node::FULL => {
                                let ghost t = self.tree@;
                                self.set(parent, Node::SPLIT);
                                proof {
                                    lemma_unfull_step(t0, t, self.tree@, order, c, p);
                                    p = p.drop_last();
                                }
                            },
                            _ => {
                                proof {
                                    lemma_release_wf(t0, self.tree@, order, c, p);
                                }
                                return ;
                            },
                        }
                        index = parent;
                    }
                },
            }
            proof {
                // the buddy is free: the parent's block holds only x's block
                let sib = sibling(p);
                assert(sib =~= a.push(!p.last()));
                assert(p.take(a.len() as int) =~= a);
                assert(x.take(a.len() as int) =~= a) by {
                    assert(x.subrange(0, p.len() as int) =~= p);
                }
                assert(internal(t0[idx(x.take(a.len() as int)) as int]));
                assert forall|u: nat| #[trigger] in_node(order, a, u) implies owner(t0, order, a, u) == (
                if in_node(order, x, u) {
                    Some((off(order, x), lvl(order, x)))
                } else {
                    None
                }) by {
                    assert(t0[idx(sib) as int] == UNUSED);
                    if p.last() {
                        assert(p == a.push(true));
                        assert(sib == a.push(false));
                    } else {
                        assert(p == a.push(false));
                        assert(sib == a.push(true));
                    }
                    if in_node(order, p, u) {
                        assert(owner(t0, order, a, u) == owner(t0, order, p, u));
                    } else {
                        assert(in_node(order, sib, u));
                        assert(owner(t0, order, sib, u) is None);
                        assert(owner(t0, order, a, u) == owner(t0, order, sib, u));
                    }
                }
                assert(extends(x, a)) by {
                    assert(x.subrange(0, a.len() as int) =~= a);
                }
                p = a;
            }
            index = (index + 1) / 2 - 1;  // parent
        }
    }
}


/// The first free aligned block of `2^k` units.
pub open spec fn first_free(v: Blocks, k: nat) -> nat {
    choose|o: nat|
        free_block(v, o, k) && forall|o2: nat| o2 < o ==> !#[trigger] free_block(v, o2, k)
}

proof fn lemma_first_free(v: Blocks, o: nat, k: nat)
    requires
        free_block(v, o, k),
        forall|o2: nat| o2 < o ==> !#[trigger] free_block(v, o2, k),
    ensures
        first_free(v, k) == o,
{
    let c = first_free(v, k);
    assert(free_block(v, c, k) && forall|o2: nat| o2 < c ==> !#[trigger] free_block(v, o2, k));
    if c < o {
        assert(!free_block(v, c, k));
    } else if o < c {
        assert(!free_block(v, o, k));
    }
}

/// A request for `size` units is answered by a buddy allocator with blocks
/// `v` over `2^order` units: it fits in the allocator, or no unit is free.
pub open spec fn answers(v: Blocks, order: nat, size: nat) -> bool {
    size_order(size) <= order || !(exists|o: nat| #[trigger] free_block(v, o, 0))
}

/// A free block of `2^k` units in an allocator of `2^order` units is no
/// larger than the allocator, so a request for it is answered.
pub proof fn lemma_free_block_answers(v: Blocks, order: nat, size: nat, o: nat)
    requires
        v.len() == pow2(order),
        free_block(v, o, size_order(size)),
    ensures
        size_order(size) <= order,
        answers(v, order, size),
{
    let k = size_order(size);
    if k > order {
        lemma_pow2_strictly_increases(order, k);
    }
}

/// Hands out memory in blocks of elements of `2^el_size` bytes, above the
/// address `base`, with a buddy allocator over element indices.
pub trait Allocator {
    spec fn inv(&self) -> bool;

    /// The allocator answers a request for `size` elements.
    spec fn accepts(&self, size: usize) -> bool;

    /// Hands out a block that holds at least `size` elements; returns its
    /// address and its size in bytes, the size being 0 when nothing is free.
    fn allocate(&mut self, size: usize) -> (r: (usize, usize))
        requires
            old(self).inv(),
            old(self).accepts(size),
        ensures
            final(self).inv(),
    ;

    /// Gives back the block that holds address `ptr`.
    fn free(&mut self, ptr: usize)
        requires
            old(self).inv(),
        ensures
            final(self).inv(),
    ;
}

/// A buddy allocator over elements of `2^el_size` bytes starting at `base`.
pub struct Alloc {
    parent: BuddyAlloc,
    base: usize,
    el_size: usize,
}

impl Alloc {
    pub closed spec fn spec_parent(&self) -> &BuddyAlloc {
        &self.parent
    }

    pub closed spec fn spec_base(&self) -> nat {
        self.base as nat
    }

    pub closed spec fn spec_el_size(&self) -> nat {
        self.el_size as nat
    }

    pub open spec fn wf(&self) -> bool {
        &&& self.spec_parent().wf()
        &&& self.spec_parent().spec_order() + self.spec_el_size() < 32
        &&& self.spec_base() + pow2(self.spec_parent().spec_order() + self.spec_el_size())
            <= usize::MAX
    }

    /// The address of the first element.
    pub fn base(&self) -> (b: usize)
        ensures
            b == self.spec_base(),
    {
        self.base
    }

    /// An allocator of the `2^order` elements of `2^el_size` bytes above `base`.
    pub fn new(parent: BuddyAlloc, base: usize, el_size: usize) -> (a: Alloc)
        requires
            parent.wf(),
            parent.spec_order() + el_size < 32,
            base + pow2(parent.spec_order() + el_size as nat) <= usize::MAX,
        ensures
            a.wf(),
            a.spec_parent() == &parent,
            a.spec_base() == base,
            a.spec_el_size() == el_size,
    {
        Alloc { parent, base, el_size }
    }
}

/// What `allocate(size)` returns on `a`, and the blocks `after` it leaves:
/// the first free block of `2^k` elements holding `size` of them, at
/// `base + first * 2^el_size` with `2^k * 2^el_size` bytes; `(base, 0)` and no
/// change when no such block is free.
pub open spec fn allocation(a: Alloc, size: nat, r: (usize, usize), after: Blocks) -> bool {
    allocation_from(
        a.spec_parent()@,
        a.spec_base(),
        a.spec_el_size(),
        a.spec_parent().spec_order(),
        size,
        r,
        after,
    )
}

/// `allocation` for an allocator with blocks `v`, base `base`, elements of
/// `2^el` bytes and `2^order` elements.
pub open spec fn allocation_from(
    v: Blocks,
    base: nat,
    el: nat,
    order: nat,
    size: nat,
    r: (usize, usize),
    after: Blocks,
) -> bool {
    let k = size_order(size);
    let e = pow2(el);
    if exists|o: nat| #[trigger] free_block(v, o, k) {
        &&& r.0 == base + first_free(v, k) * e
        &&& r.1 == pow2(k) * e
        &&& r.0 + r.1 <= base + pow2(order + el)
        &&& after == claim(v, first_free(v, k), k)
    } else {
        &&& r == (base as usize, 0usize)
        &&& after == v
    }
}

/// The blocks of `a` once the block holding address `ptr` is given back; an
/// address outside the allocator's memory changes nothing.
pub open spec fn released(a: Alloc, ptr: nat) -> Blocks {
    released_from(a.spec_parent()@, a.spec_base(), a.spec_el_size(), ptr)
}

/// `released` for an allocator with blocks `v`, base `base` and elements of
/// `2^el` bytes.
pub open spec fn released_from(v: Blocks, base: nat, el: nat, ptr: nat) -> Blocks {
    let e = pow2(el);
    if base <= ptr < base + v.len() * e {
        let u = ((ptr - base) as nat / e) as int;
        match v[u] {
            Some((o, k)) => release(v, o, k),
            None => v,
        }
    } else {
        v
    }
}

impl Allocator for Alloc {
    open spec fn inv(&self) -> bool {
        self.wf()
    }

    open spec fn accepts(&self, size: usize) -> bool {
        answers(self.spec_parent()@, self.spec_parent().spec_order(), size as nat)
    }

    /// The buddy allocator hands out the first free block of `2^k` elements
    /// holding `size` of them; its address is `base` plus its first element
    /// times the element size, its size in bytes is `2^k` elements. When no
    /// such block is free, the result is `(base, 0)`.
    fn allocate(&mut self, size: usize) -> (r: (usize, usize))
        ensures
            final(self).spec_base() == old(self).spec_base(),
            final(self).spec_el_size() == old(self).spec_el_size(),
            final(self).spec_parent().spec_order() == old(self).spec_parent().spec_order(),
            allocation(*old(self), size as nat, r, final(self).spec_parent()@),
    {
        let ghost v = self.parent@;
        let ghost k = size_order(size as nat);
        let (offset, size) = self.parent.allocate(size);
        proof {
            let order = self.parent.spec_order();
            let el = self.el_size as nat;
            self.parent.lemma_view_len();
            lemma_pow2_adds(order, el);
            lemma_pow2_pos(el);
            if exists|o: nat| #[trigger] free_block(v, o, k) {
                lemma_first_free(v, offset as nat, k);
                lemma_pow2_pos(k);
                if k > order {
                    lemma_pow2_strictly_increases(order, k);
                }
                assert(offset + pow2(k) <= pow2(order));
                assert(offset * pow2(el) < pow2(order) * pow2(el)) by (nonlinear_arith)
                    requires
                        offset < pow2(order),
                        pow2(el) > 0,
                ;
                assert(size * pow2(el) <= pow2(order) * pow2(el)) by (nonlinear_arith)
                    requires
                        size <= pow2(order),
                ;
                assert((offset + size) * pow2(el) == offset * pow2(el) + size * pow2(el))
                    by (nonlinear_arith);
                assert((offset + size) * pow2(el) <= pow2(order) * pow2(el)) by (nonlinear_arith)
                    requires
                        offset + size <= pow2(order),
                ;
            }
            lemma_usize_shl_is_mul(offset, self.el_size);
            lemma_usize_shl_is_mul(size, self.el_size);
        }
        (self.base + (offset << self.el_size), size << self.el_size)
    }

    /// Gives back the block that holds address `ptr`; an address outside
    /// `[base, base + 2^(order + el_size))` is ignored.
    fn free(&mut self, ptr: usize)
        ensures
            final(self).spec_base() == old(self).spec_base(),
            final(self).spec_el_size() == old(self).spec_el_size(),
            final(self).spec_parent().spec_order() == old(self).spec_parent().spec_order(),
            final(self).spec_parent()@ == released(*old(self), ptr as nat),
    {
        let ghost order = self.parent.spec_order();
        let ghost el = self.el_size as nat;
        proof {
            self.parent.lemma_view_len();
            lemma_pow2_adds(order, el);
            lemma_pow2_pos(el);
            lemma_pow2_pos(order);
            lemma_usize_pow2_no_overflow(order);
            lemma_usize_shl_is_mul(1, self.parent.order);
            assert(pow2(order) * pow2(el) <= usize::MAX);
            assert(pow2(order) <= pow2(order) * pow2(el)) by (nonlinear_arith)
                requires
                    pow2(el) > 0,
            ;
            lemma_usize_shl_is_mul(1usize << self.parent.order, self.el_size);
        }
        let length = 1usize << self.parent.order << self.el_size;
        if ptr < self.base || ptr >= self.base + length {
            return ;
        }
        proof {
            lemma_usize_shr_is_div((ptr - self.base) as usize, self.el_size);
            assert(ptr - self.base < pow2(el) * pow2(order)) by (nonlinear_arith)
                requires
                    ptr - self.base < pow2(order) * pow2(el),
            ;
            vstd::arithmetic::div_mod::lemma_multiply_divide_lt(
                (ptr - self.base) as int,
                pow2(el) as int,
                pow2(order) as int,
            );
        }
        let offset = (ptr - self.base) >> self.el_size;
        self.parent.free(offset);
    }
}

impl Alloc {
    /// `allocate(s)`, with the handed-out bytes set to zero. `mem` holds the
    /// allocator's memory, from `base` on.
    pub fn zero_alloc(&mut self, s: usize, mem: &mut [u8]) -> (r: (usize, usize))
        requires
            old(self).wf(),
            old(self).accepts(s),
            old(mem)@.len() == pow2(old(self).spec_parent().spec_order() + old(self).spec_el_size()),
        ensures
            final(self).wf(),
            final(self).spec_base() == old(self).spec_base(),
            final(self).spec_el_size() == old(self).spec_el_size(),
            final(self).spec_parent().spec_order() == old(self).spec_parent().spec_order(),
            allocation(*old(self), s as nat, r, final(self).spec_parent()@),
            final(mem)@.len() == old(mem)@.len(),
            forall|i: int|
                0 <= i < final(mem)@.len() ==> #[trigger] final(mem)@[i] == if r.0 - old(
                    self,
                ).spec_base() <= i < r.0 - old(self).spec_base() + r.1 {
                    0u8
                } else {
                    old(mem)@[i]
                },
    {
        let r = self.allocate(s);
        let (ptr, size) = r;
        let start = ptr - self.base;
        let len: usize = mem.len();
        let mut i: usize = 0;
        while i < size
            invariant
                i <= size,
                start + size <= len,
                mem@.len() == len,
                len == old(mem)@.len(),
                forall|k: int|
                    0 <= k < len ==> #[trigger] mem@[k] == if start <= k < start + i {
                        0u8
                    } else {
                        old(mem)@[k]
                    },
            decreases size - i,
        {
            mem[start + i] = 0;
            i = i + 1;
        }
        r
    }

    /// Gives back the block holding `src` and hands out one of at least
    /// `size` elements, moving into it as many bytes from `src` as it holds
    /// (the two may overlap). `mem` is the memory from address 0, which
    /// holds the allocator's memory and the bytes read from `src`; for a null
    /// `src` they are those from address 0.
    #[verifier::rlimit(30)]
    pub fn realloc(&mut self, src: usize, size: usize, mem: &mut [u8]) -> (r: (usize, usize))
        requires
            old(self).wf(),
            old(self).spec_base() + pow2(old(self).spec_parent().spec_order() + old(self).spec_el_size())
                <= old(mem)@.len(),
            answers(released(*old(self), src as nat), old(self).spec_parent().spec_order(), size as nat),
            src + pow2(size_order(size as nat)) * pow2(old(self).spec_el_size()) <= old(mem)@.len(),
        ensures
            final(self).wf(),
            final(self).spec_base() == old(self).spec_base(),
            final(self).spec_el_size() == old(self).spec_el_size(),
            final(self).spec_parent().spec_order() == old(self).spec_parent().spec_order(),
            allocation_from(
                released(*old(self), src as nat),
                old(self).spec_base(),
                old(self).spec_el_size(),
                old(self).spec_parent().spec_order(),
                size as nat,
                r,
                final(self).spec_parent()@,
            ),
            final(mem)@.len() == old(mem)@.len(),
            forall|i: int|
                0 <= i < final(mem)@.len() ==> #[trigger] final(mem)@[i] == if r.0 <= i < r.0 + r.1 {
                    old(mem)@[src + (i - r.0)]
                } else {
                    old(mem)@[i]
                },
    {
        self.free(src);
        proof {
            lemma_pow2_pos(size_order(size as nat));
            lemma_pow2_pos(old(self).spec_el_size());
        }
        let r = self.allocate(size);
        let (ptr, sz) = r;
        proof {
            let k = size_order(size as nat);
            let e = pow2(old(self).spec_el_size());
            assert(sz == 0 || sz == pow2(k) * e);
            assert(sz > 0 ==> ptr + sz <= old(self).spec_base() + pow2(
                old(self).spec_parent().spec_order() + old(self).spec_el_size(),
            ));
        }
        crate::arch::x86::runtime::copy_memory(mem, ptr, src, sz);
        r
    }
}

// ---------------------------------------------------------------------------
// Laws of the allocator

/// Handed-out blocks are aligned to their size, lie within the allocator,
/// and hold each of their units: no two handed-out blocks overlap.
pub proof fn law_blocks_aligned_and_disjoint(b: &BuddyAlloc, u: int)
    requires
        b.wf(),
        0 <= u < b@.len(),
        b@[u] is Some,
    ensures
        ({
            let (o, k) = b@[u]->0;
            &&& o <= u < o + pow2(k)
            &&& o % pow2(k) == 0
            &&& o + pow2(k) <= b@.len()
            &&& forall|w: int| o <= w < o + pow2(k) ==> #[trigger] b@[w] == Some((o, k))
        }),
{
    let order = b.order as nat;
    let t = b.tree@;
    lemma2_to64();
    assert(in_node(order, Seq::<bool>::empty(), u as nat));
    lemma_owner_block(t, order, Seq::empty(), u as nat);
    let (o, k) = b@[u]->0;
    assert forall|w: int| o <= w < o + pow2(k) implies #[trigger] b@[w] == Some((o, k)) by {
        assert(owner(t, order, Seq::empty(), w as nat) == Some((o, k)));
    }
}

/// Giving back a block right after it was handed out restores the
/// allocator's blocks: `free` undoes `allocate`.
pub proof fn law_release_undoes_claim(v: Blocks, o: nat, k: nat)
    requires
        free_block(v, o, k),
    ensures
        claim(v, o, k)[o as int] == Some((o, k)),
        release(claim(v, o, k), o, k) == v,
{
    lemma_pow2_pos(k);
    assert(release(claim(v, o, k), o, k) =~= v);
}

/// A block is handed out only if every unit of it was free before.
pub proof fn law_claim_only_free(v: Blocks, o: nat, k: nat, u: int)
    requires
        free_block(v, o, k),
        o <= u < o + pow2(k),
    ensures
        v[u] is None,
        claim(v, o, k)[u] == Some((o, k)),
{
}

/// When some aligned block of `2^k` units is free, `first_free` names one:
/// the lowest.
pub proof fn lemma_first_free_exists(v: Blocks, o: nat, k: nat)
    requires
        free_block(v, o, k),
    ensures
        free_block(v, first_free(v, k), k),
        first_free(v, k) <= o,
        forall|o2: nat| o2 < first_free(v, k) ==> !#[trigger] free_block(v, o2, k),
    decreases o,
{
    if exists|o2: nat| o2 < o && #[trigger] free_block(v, o2, k) {
        let o2 = choose|o2: nat| o2 < o && #[trigger] free_block(v, o2, k);
        lemma_first_free_exists(v, o2, k);
    } else {
        assert(free_block(v, o, k) && forall|o2: nat| o2 < o ==> !#[trigger] free_block(v, o2, k));
        lemma_first_free(v, o, k);
    }
}

/// Giving back the address that `allocate` has just handed out restores the
/// allocator's blocks as they were: `free` undoes a successful `allocate`.
pub proof fn law_free_undoes_allocate(a: Alloc, size: nat, r: (usize, usize), after: Blocks)
    requires
        a.wf(),
        allocation(a, size, r, after),
        r.1 != 0,
    ensures
        released_from(after, a.spec_base(), a.spec_el_size(), r.0 as nat) == a.spec_parent()@,
{
    let v = a.spec_parent()@;
    let k = size_order(size);
    let el = a.spec_el_size();
    let e = pow2(el);
    let base = a.spec_base();
    assert(exists|o: nat| #[trigger] free_block(v, o, k));
    let w = choose|o: nat| #[trigger] free_block(v, o, k);
    lemma_first_free_exists(v, w, k);
    let o = first_free(v, k);
    lemma_pow2_pos(el);
    lemma_pow2_pos(k);
    law_release_undoes_claim(v, o, k);
    assert(after.len() == v.len());
    assert(o < v.len());
    assert(o * e < v.len() * e) by (nonlinear_arith)
        requires
            o < v.len(),
            e > 0,
    ;
    assert((o * e) / e == o) by (nonlinear_arith)
        requires
            e > 0,
    ;
    assert(r.0 - base == o * e);
}

/// A successful `allocate(size)` hands out a block of at least `size`
/// elements (at least one), the smallest power of two that holds them,
/// aligned to its own size within the allocator's memory.
pub proof fn law_allocation_fits(a: Alloc, size: nat, r: (usize, usize), after: Blocks)
    requires
        a.wf(),
        allocation(a, size, r, after),
        r.1 != 0,
    ensures
        r.1 >= size * pow2(a.spec_el_size()),
        r.1 >= pow2(a.spec_el_size()),
        r.1 < 2 * size * pow2(a.spec_el_size()) || r.1 == pow2(a.spec_el_size()),
        (r.0 - a.spec_base()) % (r.1 as int) == 0,
        a.spec_base() <= r.0,
        r.0 + r.1 <= a.spec_base() + pow2(a.spec_parent().spec_order() + a.spec_el_size()),
{
    let v = a.spec_parent()@;
    let k = size_order(size);
    let el = a.spec_el_size();
    let e = pow2(el);
    let n: nat = if size == 0 { 1 } else { size };
    assert(exists|o: nat| #[trigger] free_block(v, o, k));
    let w = choose|o: nat| #[trigger] free_block(v, o, k);
    lemma_first_free_exists(v, w, k);
    let o = first_free(v, k);
    let p = pow2(k);
    lemma_pow2_pos(el);
    lemma_pow2_pos(k);
    lemma_ceil_log2(n);
    assert(p >= n);
    if k > 0 {
        lemma_pow2_unfold(k);
        assert(p == 2 * pow2((k - 1) as nat));
    }
    assert(r.1 == p * e);
    assert(p * e >= n * e) by (nonlinear_arith)
        requires
            p >= n,
            e > 0,
    ;
    assert(p * e >= e) by (nonlinear_arith)
        requires
            p >= 1,
    ;
    if k > 0 {
        let h = pow2((k - 1) as nat);
        assert(p * e < 2 * n * e) by (nonlinear_arith)
            requires
                p == 2 * h,
                h < n,
                e > 0,
        ;
    } else {
        lemma2_to64();
        assert(p == 1);
    }
    let m = o / p;
    assert(o == m * p) by (nonlinear_arith)
        requires
            o % p == 0,
            p > 0,
            m == o / p,
    ;
    assert(o * e == m * (p * e)) by (nonlinear_arith)
        requires
            o == m * p,
    ;
    assert((m * (p * e)) % (p * e) == 0) by (nonlinear_arith)
        requires
            p * e > 0,
    ;
}

} // verus!
