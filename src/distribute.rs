//! Round-robin assignment of work items to lanes.
use vstd::arithmetic::div_mod::{
    lemma_fundamental_div_mod,
    lemma_fundamental_div_mod_converse,
    lemma_mod_pos_bound,
};
use vstd::prelude::*;

verus! {

/// The items of `s` that lane `l` of `w` receives: those at the positions
/// `i` with `i % w == l`, in their order in `s`.
pub open spec fn lane_items<T>(s: Seq<T>, w: nat, l: nat) -> Seq<T>
    decreases s.len(),
{
    if s.len() == 0 {
        Seq::empty()
    } else {
        let rest = lane_items(s.drop_last(), w, l);
        if (s.len() - 1) % (w as int) == l {
            rest.push(s.last())
        } else {
            rest
        }
    }
}

/// Lane `l` holds, at its index `k`, the item at position `l + k * w`, and
/// it holds exactly as many items as there are such positions.
proof fn lemma_lane_shape<T>(s: Seq<T>, w: nat, l: nat)
    requires
        w >= 1,
        l < w,
    ensures
        s.len() <= l + lane_items(s, w, l).len() * w,
        lane_items(s, w, l).len() > 0 ==> l + (lane_items(s, w, l).len() - 1) * w < s.len(),
        forall|k: int|
            #![trigger lane_items(s, w, l)[k]]
            0 <= k < lane_items(s, w, l).len() ==> lane_items(s, w, l)[k] == s[l + k * w],
    decreases s.len(),
{
    if s.len() > 0 {
        let p = s.drop_last();
        lemma_lane_shape(p, w, l);
        let lp = lane_items(p, w, l);
        let m = lp.len() as int;
        let last = s.len() - 1;
        if last % (w as int) == l {
            let q = last / (w as int);
            lemma_fundamental_div_mod(last, w as int);
            assert(q * w == (w as int) * q) by (nonlinear_arith);
            assert(last == q * w + l);
            assert(q * w <= m * w);
            assert(q <= m) by (nonlinear_arith)
                requires
                    q * w <= m * w,
                    w >= 1,
            ;
            if m > 0 {
                assert((m - 1) * w < q * w);
                assert(m - 1 < q) by (nonlinear_arith)
                    requires
                        (m - 1) * w < q * w,
                        w >= 1,
                ;
            } else {
                assert(q * w >= 0) by (nonlinear_arith)
                    requires
                        q >= 0,
                        w >= 1,
                ;
            }
            assert(q == m);
            assert((m + 1) * w == m * w + w) by (nonlinear_arith);
        } else {
            if last == l + m * w {
                lemma_fundamental_div_mod_converse(last, w as int, m, l as int);
            }
        }
        assert forall|k: int| 0 <= k < lane_items(s, w, l).len() implies #[trigger] lane_items(
            s,
            w,
            l,
        )[k] == s[l + k * w] by {
            if k < m {
                assert(k * w <= (m - 1) * w) by (nonlinear_arith)
                    requires
                        k <= m - 1,
                        w >= 1,
                ;
                assert(lp[k] == p[l + k * w]);
            } else {
                assert(k == m);
                assert(l + k * w == last);
            }
        }
    } else {
        assert(lane_items(s, w, l).len() == 0);
    }
}

/// Lane `l` of `w` holds, at its index `k`, the item at position `l + k * w`.
pub open spec fn lane_holds<T>(s: Seq<T>, w: nat, l: nat, k: int) -> bool {
    &&& l + k * w < s.len()
    &&& lane_items(s, w, l)[k] == s[l + k * w]
}

/// The item at position `i` is found in lane `i % w`, at index `i / w`.
pub open spec fn placed_in_lane<T>(s: Seq<T>, w: nat, i: int) -> bool {
    let l = i % (w as int);
    let k = i / (w as int);
    &&& k < lane_items(s, w, l as nat).len()
    &&& lane_items(s, w, l as nat)[k] == s[i]
}

/// Every item lands in exactly one place: each index `k` of lane `l` holds
/// the item at position `l + k * w`, and the item at position `i` is found in
/// lane `i % w` at index `i / w`.
pub proof fn lemma_distribution_positions<T>(s: Seq<T>, w: nat)
    requires
        w >= 1,
    ensures
        forall|l: nat, k: int|
            l < w && 0 <= k < lane_items(s, w, l).len() ==> #[trigger] lane_holds(s, w, l, k),
        forall|i: int| 0 <= i < s.len() ==> #[trigger] placed_in_lane(s, w, i),
{
    assert forall|l: nat, k: int| l < w && 0 <= k < lane_items(s, w, l).len() implies #[trigger] lane_holds(
        s,
        w,
        l,
        k,
    ) by {
        lemma_lane_shape(s, w, l);
        let m = lane_items(s, w, l).len() as int;
        assert(k * w <= (m - 1) * w) by (nonlinear_arith)
            requires
                k <= m - 1,
                w >= 1,
        ;
    }
    assert forall|i: int| 0 <= i < s.len() implies #[trigger] placed_in_lane(s, w, i) by {
        let l = i % (w as int);
        let q = i / (w as int);
        lemma_mod_pos_bound(i, w as int);
        lemma_fundamental_div_mod(i, w as int);
        assert(q * w == (w as int) * q) by (nonlinear_arith);
        lemma_lane_shape(s, w, l as nat);
        let m = lane_items(s, w, l as nat).len() as int;
        assert(q * w < m * w);
        assert(q < m) by (nonlinear_arith)
            requires
                q * w < m * w,
                w >= 1,
        ;
        assert(l + q * w == i);
    }
}

/// Dealing commutes with applying a function to every item.
pub proof fn lemma_lane_items_map<A, B>(s: Seq<A>, f: spec_fn(A) -> B, w: nat, l: nat)
    ensures
        lane_items(s, w, l).map_values(f) == lane_items(s.map_values(f), w, l),
    decreases s.len(),
{
    if s.len() > 0 {
        lemma_lane_items_map(s.drop_last(), f, w, l);
        assert(s.map_values(f).drop_last() =~= s.drop_last().map_values(f));
        let rest = lane_items(s.drop_last(), w, l);
        assert(rest.push(s.last()).map_values(f) =~= rest.map_values(f).push(f(s.last())));
    }
    assert(lane_items(s, w, l).map_values(f) =~= lane_items(s.map_values(f), w, l));
}

/// Splits `items` over `workers` lanes: the item at position `i` goes to
/// lane `i % workers`, and each lane keeps the items in their original order.
pub fn distribute<T>(items: Vec<T>, workers: usize) -> (lanes: Vec<Vec<T>>)
    requires
        workers >= 1,
    ensures
        lanes@.len() == workers,
        forall|l: int|
            0 <= l < workers ==> #[trigger] lanes@[l]@ == lane_items(items@, workers as nat, l as nat),
{
    let ghost orig = items@;
    let total: usize = items.len();
    let ghost n = orig.len();
    let mut lanes: Vec<Vec<T>> = Vec::new();
    let mut l: usize = 0;
    while l < workers
        invariant
            l <= workers,
            lanes@.len() == l,
            forall|j: int| 0 <= j < l ==> (#[trigger] lanes@[j])@ == Seq::<T>::empty(),
        decreases workers - l,
    {
        lanes.push(Vec::new());
        l = l + 1;
    }
    let mut items = items;
    let mut rev: Vec<T> = Vec::new();
    while items.len() > 0
        invariant
            n == orig.len(),
            items@.len() + rev@.len() == n,
            items@ == orig.subrange(0, items@.len() as int),
            forall|k: int| 0 <= k < rev@.len() ==> #[trigger] rev@[k] == orig[n - 1 - k],
        decreases items@.len(),
    {
        let x = items.pop().unwrap();
        rev.push(x);
    }
    let mut i: usize = 0;
    while rev.len() > 0
        invariant
            workers >= 1,
            n == orig.len(),
            n == total,
            i + rev@.len() == n,
            forall|k: int| 0 <= k < rev@.len() ==> #[trigger] rev@[k] == orig[n - 1 - k],
            lanes@.len() == workers,
            forall|j: int|
                0 <= j < workers ==> #[trigger] lanes@[j]@ == lane_items(
                    orig.subrange(0, i as int),
                    workers as nat,
                    j as nat,
                ),
        decreases rev@.len(),
    {
        let ghost last = rev@.len() - 1;
        assert(rev@[last] == orig[i as int]);
        let x = rev.pop().unwrap();
        let target = i % workers;
        let ghost before = lanes@;
        lanes[target].push(x);
        proof {
            let next = orig.subrange(0, i + 1);
            assert(next.drop_last() =~= orig.subrange(0, i as int));
            assert forall|j: int| 0 <= j < workers implies #[trigger] lanes@[j]@ == lane_items(
                next,
                workers as nat,
                j as nat,
            ) by {
                if j != target {
                    assert(lanes@[j] == before[j]);
                }
            }
        }
        i = i + 1;
    }
    assert(orig.subrange(0, n as int) =~= orig);
    lanes
}

} // verus!
