//! Ordering of LOB levels and the rows that persist one LOB event.
//!
//! The wire payload does not guarantee sorted bid/ask arrays. Bids are ordered
//! best (highest price) first and asks best (lowest price) first, by the
//! total order of `f64::total_cmp`, keeping the wire order of equal prices.
//! Level 0 of each side is then its best price.

use vstd::prelude::*;
use crate::items::{LobItem, LobLevel};
use crate::price::{order_key, total_order_key};

verus! {

broadcast use vstd::seq_lib::group_seq_properties;

/// A side of the book.
#[derive(Debug, Clone, Copy, PartialEq, Eq, Structural)]
pub enum BookSide {
    Bid,
    Ask,
}

/// Position of a level in best-first order: bids by descending price, asks
/// by ascending price (smaller ranks come first).
pub open spec fn rank(side: BookSide, level: LobLevel) -> int {
    match side {
        BookSide::Bid => -total_order_key(level.price_bits),
        BookSide::Ask => total_order_key(level.price_bits),
    }
}

/// Selects the levels of rank `k`, i.e. of one price.
pub open spec fn rank_is(side: BookSide, k: int) -> spec_fn(LobLevel) -> bool {
    |l: LobLevel| rank(side, l) == k
}

/// `levels` is in best-first order.
pub open spec fn best_first(side: BookSide, levels: Seq<LobLevel>) -> bool {
    forall|i: int, j: int| 0 <= i <= j < levels.len() ==> rank(side, levels[i]) <= rank(side, levels[j])
}

/// `out` is `input` in best-first order, where levels of equal price keep
/// their relative order from `input` (a stable sort).
pub open spec fn is_stable_best_first(side: BookSide, input: Seq<LobLevel>, out: Seq<LobLevel>) -> bool {
    &&& best_first(side, out)
    &&& out.len() == input.len()
    &&& forall|k: int| #[trigger] out.filter(rank_is(side, k)) == input.filter(rank_is(side, k))
}

/// The best level of a side: the first, in wire order, of the levels with the
/// best price; `None` for an empty side.
pub open spec fn spec_best(side: BookSide, levels: Seq<LobLevel>) -> Option<LobLevel>
    decreases levels.len(),
{
    if levels.len() == 0 {
        None
    } else {
        match spec_best(side, levels.drop_last()) {
            None => Some(levels.last()),
            Some(b) => if rank(side, levels.last()) < rank(side, b) {
                Some(levels.last())
            } else {
                Some(b)
            },
        }
    }
}

/// Whether `a` comes no later than `b` in best-first order.
fn ranks_no_later(side: BookSide, a: LobLevel, b: LobLevel) -> (r: bool)
    ensures
        r == (rank(side, a) <= rank(side, b)),
{
    let ka = order_key(a.price_bits);
    let kb = order_key(b.price_bits);
    match side {
        BookSide::Bid => ka >= kb,
        BookSide::Ask => ka <= kb,
    }
}

proof fn lemma_filter_none(s: Seq<LobLevel>, pred: spec_fn(LobLevel) -> bool)
    requires
        forall|i: int| 0 <= i < s.len() ==> !pred(s[i]),
    ensures
        s.filter(pred) == Seq::<LobLevel>::empty(),
{
    assert(s.all(|x: LobLevel| !pred(x)));
    s.lemma_all_neg_filter_empty(pred);
}

proof fn lemma_filter_single(x: LobLevel, pred: spec_fn(LobLevel) -> bool)
    ensures
        seq![x].filter(pred) == (if pred(x) {
            seq![x]
        } else {
            Seq::<LobLevel>::empty()
        }),
{
    Seq::<LobLevel>::empty().lemma_filter_push(x, pred);
    assert(Seq::<LobLevel>::empty().push(x) =~= seq![x]);
    reveal(Seq::filter);
}

/// The best level of a side, found by one scan in wire order.
pub fn best_level(levels: &Vec<LobLevel>, side: BookSide) -> (best: Option<LobLevel>)
    ensures
        best == spec_best(side, levels@),
{
    let mut best: Option<LobLevel> = None;
    let mut i: usize = 0;
    assert(levels@.take(0) =~= Seq::<LobLevel>::empty());
    while i < levels.len()
        invariant
            i <= levels@.len(),
            best == spec_best(side, levels@.take(i as int)),
        decreases levels@.len() - i,
    {
        let x = levels[i];
        assert(levels@.take(i + 1).drop_last() =~= levels@.take(i as int));
        best = match best {
            None => Some(x),
            Some(b) => if ranks_no_later(side, b, x) {
                Some(b)
            } else {
                Some(x)
            },
        };
        i = i + 1;
    }
    assert(levels@.take(levels@.len() as int) =~= levels@);
    best
}

/// Sort one side of the book best first (bids by descending price, asks by
/// ascending price, as `sort_by` with `f64::total_cmp` does), keeping the
/// relative order of levels with equal prices.
pub fn sort_side(levels: &Vec<LobLevel>, side: BookSide) -> (out: Vec<LobLevel>)
    ensures
        is_stable_best_first(side, levels@, out@),
        out@.len() > 0 ==> spec_best(side, levels@) == Some(out@[0]),
        out@.len() == 0 ==> spec_best(side, levels@) is None,
{
    let mut out: Vec<LobLevel> = Vec::new();
    let mut i: usize = 0;
    assert(levels@.take(0) =~= Seq::<LobLevel>::empty());
    while i < levels.len()
        invariant
            i <= levels@.len(),
            out@.len() == i,
            best_first(side, out@),
            out@.len() > 0 ==> spec_best(side, levels@.take(i as int)) == Some(out@[0]),
            out@.len() == 0 ==> spec_best(side, levels@.take(i as int)) is None,
            forall|k: int| #[trigger]
                out@.filter(rank_is(side, k)) == levels@.take(i as int).filter(rank_is(side, k)),
        decreases levels@.len() - i,
    {
        let x = levels[i];
        let mut p: usize = 0;
        while p < out.len() && ranks_no_later(side, out[p], x)
            invariant
                p <= out@.len(),
                forall|j: int| 0 <= j < p ==> rank(side, out@[j]) <= rank(side, x),
            decreases out@.len() - p,
        {
            p = p + 1;
        }
        let ghost before = out@;
        proof {
            assert forall|j: int| p <= j < before.len() implies rank(side, before[j]) > rank(
                side,
                x,
            ) by {
                assert(rank(side, before[p as int]) <= rank(side, before[j]));
            }
        }
        out.insert(p, x);
        proof {
            let pre = before.take(p as int);
            let post = before.skip(p as int);
            assert(before =~= pre + post);
            assert(out@ =~= pre + seq![x] + post);
            assert forall|a: int, b: int| 0 <= a <= b < out@.len() implies rank(side, out@[a]) <= rank(
                side,
                out@[b],
            ) by {
                if a < p && b > p {
                    assert(out@[a] == before[a]);
                    assert(out@[b] == before[b - 1]);
                } else if a < p && b == p {
                    assert(out@[a] == before[a]);
                } else if a == p && b > p {
                    assert(out@[b] == before[b - 1]);
                } else if a > p {
                    assert(out@[a] == before[a - 1]);
                    assert(out@[b] == before[b - 1]);
                } else if b < p {
                    assert(out@[a] == before[a]);
                    assert(out@[b] == before[b]);
                }
            }
            assert(levels@.take(i + 1) =~= levels@.take(i as int).push(x));
            assert(levels@.take(i + 1).drop_last() =~= levels@.take(i as int));
            if p == 0 {
                assert(out@[0] == x);
            } else {
                assert(out@[0] == before[0]);
            }
            assert forall|k: int| #[trigger]
                out@.filter(rank_is(side, k)) == levels@.take(i + 1).filter(rank_is(side, k)) by {
                let f = rank_is(side, k);
                Seq::filter_distributes_over_add(pre + seq![x], post, f);
                Seq::filter_distributes_over_add(pre, seq![x], f);
                Seq::filter_distributes_over_add(pre, post, f);
                lemma_filter_single(x, f);
                levels@.take(i as int).lemma_filter_push(x, f);
                if f(x) {
                    lemma_filter_none(post, f);
                    assert(pre.filter(f) + post.filter(f) =~= pre.filter(f));
                    assert(pre.filter(f) + seq![x] =~= pre.filter(f).push(x));
                } else {
                    assert(pre.filter(f) + Seq::<LobLevel>::empty() =~= pre.filter(f));
                }
            }
        }
        i = i + 1;
    }
    assert(levels@.take(levels@.len() as int) =~= levels@);
    out
}

/// Two best-first sequences with the same levels at every price are equal.
proof fn lemma_best_first_determined(side: BookSide, a: Seq<LobLevel>, b: Seq<LobLevel>)
    requires
        best_first(side, a),
        best_first(side, b),
        forall|k: int| #[trigger] a.filter(rank_is(side, k)) == b.filter(rank_is(side, k)),
    ensures
        a == b,
    decreases a.len() + b.len(),
{
    if a.len() == 0 && b.len() == 0 {
        assert(a =~= b);
    } else if a.len() == 0 || b.len() == 0 {
        let (x, y) = if a.len() == 0 { (b, a) } else { (a, b) };
        let r = rank(side, x.last());
        let f = rank_is(side, r);
        assert(x =~= x.drop_last().push(x.last()));
        x.drop_last().lemma_filter_push(x.last(), f);
        assert(x.filter(f).len() > 0);
        assert(y =~= Seq::<LobLevel>::empty());
        reveal(Seq::filter);
        assert(y.filter(f).len() == 0);
        assert(false);
    } else {
        let ra = rank(side, a.last());
        let rb = rank(side, b.last());
        let fa = rank_is(side, ra);
        let fb = rank_is(side, rb);
        assert(a =~= a.drop_last().push(a.last()));
        assert(b =~= b.drop_last().push(b.last()));
        a.drop_last().lemma_filter_push(a.last(), fa);
        b.drop_last().lemma_filter_push(b.last(), fb);
        a.drop_last().lemma_filter_push(a.last(), fb);
        b.drop_last().lemma_filter_push(b.last(), fa);
        // the largest rank is the same on both sides
        assert(a.filter(fa).contains(a.last()));
        b.lemma_filter_contains_rev(fa, a.last());
        let ib = choose|i: int| 0 <= i < b.len() && b[i] == a.last();
        assert(rank(side, b[ib]) <= rb);
        assert(b.filter(fb).contains(b.last()));
        a.lemma_filter_contains_rev(fb, b.last());
        let ia = choose|i: int| 0 <= i < a.len() && a[i] == b.last();
        assert(rank(side, a[ia]) <= ra);
        assert(ra == rb);
        // the last levels are the last of that price
        assert(a.last() == a.filter(fa).last());
        assert(b.last() == b.filter(fa).last());
        let a2 = a.drop_last();
        let b2 = b.drop_last();
        assert forall|k: int| #[trigger] a2.filter(rank_is(side, k)) == b2.filter(rank_is(side, k)) by {
            let g = rank_is(side, k);
            a2.lemma_filter_push(a.last(), g);
            b2.lemma_filter_push(b.last(), g);
            assert(a.filter(g) == b.filter(g));
            if k == ra {
                assert(a2.filter(g) =~= a.filter(g).drop_last());
                assert(b2.filter(g) =~= b.filter(g).drop_last());
            }
        }
        lemma_best_first_determined(side, a2, b2);
        assert(a =~= b);
    }
}

/// The stable best-first order of a side is unique, and depends on the wire
/// order only through the relative order of equal prices: two sides whose
/// levels agree price by price (in particular, the same side) sort to the
/// same sequence. Reordering levels of different prices on the wire changes
/// nothing that is persisted.
pub proof fn lemma_stable_best_first_unique(
    side: BookSide,
    input1: Seq<LobLevel>,
    input2: Seq<LobLevel>,
    out1: Seq<LobLevel>,
    out2: Seq<LobLevel>,
)
    requires
        is_stable_best_first(side, input1, out1),
        is_stable_best_first(side, input2, out2),
        forall|k: int| #[trigger] input1.filter(rank_is(side, k)) == input2.filter(rank_is(side, k)),
    ensures
        out1 == out2,
{
    assert forall|k: int| #[trigger] out1.filter(rank_is(side, k)) == out2.filter(rank_is(side, k)) by {
        assert(out1.filter(rank_is(side, k)) == input1.filter(rank_is(side, k)));
        assert(out2.filter(rank_is(side, k)) == input2.filter(rank_is(side, k)));
    }
    lemma_best_first_determined(side, out1, out2);
}


/// The key order a side is sorted in: bids by non-increasing price key,
/// asks by non-decreasing price key.
pub open spec fn key_no_later(side: BookSide, a: LobLevel, b: LobLevel) -> bool {
    match side {
        BookSide::Bid => total_order_key(a.price_bits) >= total_order_key(b.price_bits),
        BookSide::Ask => total_order_key(a.price_bits) <= total_order_key(b.price_bits),
    }
}

/// A sorted side holds the levels of the input, bids from the highest price
/// down and asks from the lowest price up (by `f64::total_cmp`).
pub proof fn lemma_sorted_side_in_price_order(side: BookSide, input: Seq<LobLevel>, out: Seq<LobLevel>)
    requires
        is_stable_best_first(side, input, out),
    ensures
        forall|i: int, j: int| 0 <= i <= j < out.len() ==> key_no_later(side, #[trigger] out[i], #[trigger] out[j]),
        forall|x: LobLevel| input.contains(x) <==> out.contains(x),
{
    assert forall|i: int, j: int| 0 <= i <= j < out.len() implies key_no_later(side, #[trigger] out[i], #[trigger] out[j]) by {
        assert(rank(side, out[i]) <= rank(side, out[j]));
    }
    assert forall|x: LobLevel| input.contains(x) <==> out.contains(x) by {
        let f = rank_is(side, rank(side, x));
        assert(out.filter(f) == input.filter(f));
        if input.contains(x) {
            let i = choose|i: int| 0 <= i < input.len() && input[i] == x;
            lemma_filter_has(input, f, i);
            out.lemma_filter_contains_rev(f, x);
        }
        if out.contains(x) {
            let i = choose|i: int| 0 <= i < out.len() && out[i] == x;
            lemma_filter_has(out, f, i);
            input.lemma_filter_contains_rev(f, x);
        }
    }
}

proof fn lemma_filter_has(s: Seq<LobLevel>, f: spec_fn(LobLevel) -> bool, i: int)
    requires
        0 <= i < s.len(),
        f(s[i]),
    ensures
        s.filter(f).contains(s[i]),
    decreases s.len(),
{
    reveal(Seq::filter);
    if i == s.len() - 1 {
        s.drop_last().lemma_filter_push(s.last(), f);
        assert(s =~= s.drop_last().push(s.last()));
        assert(s.filter(f).last() == s[i]);
    } else {
        lemma_filter_has(s.drop_last(), f, i);
        s.drop_last().lemma_filter_push(s.last(), f);
        assert(s =~= s.drop_last().push(s.last()));
        let k = choose|k: int| 0 <= k < s.drop_last().filter(f).len() && s.drop_last().filter(f)[k] == s[i];
        assert(s.filter(f)[k] == s[i]);
    }
}

/// The best level of a side is a level of the side with the best price (the
/// highest for bids, the lowest for asks), the first of that price in wire
/// order; only an empty side has none.
pub proof fn lemma_best_level_is_best(side: BookSide, levels: Seq<LobLevel>)
    ensures
        spec_best(side, levels) is None <==> levels.len() == 0,
        spec_best(side, levels) matches Some(b) ==> exists|i: int| {
            &&& 0 <= i < levels.len()
            &&& levels[i] == b
            &&& forall|j: int| 0 <= j < i ==> total_order_key(#[trigger] levels[j].price_bits) != total_order_key(b.price_bits)
        },
        spec_best(side, levels) matches Some(b) ==> forall|j: int| 0 <= j < levels.len() ==> key_no_later(side, b, #[trigger] levels[j]),
    decreases levels.len(),
{
    if levels.len() > 0 {
        let init = levels.drop_last();
        lemma_best_level_is_best(side, init);
        let x = levels.last();
        match spec_best(side, init) {
            None => {
                assert(levels.len() == 1);
                assert(levels[0] == x);
            },
            Some(b) => {
                let i = choose|i: int| {
                    &&& 0 <= i < init.len()
                    &&& init[i] == b
                    &&& forall|j: int| 0 <= j < i ==> total_order_key(#[trigger] init[j].price_bits) != total_order_key(b.price_bits)
                };
                assert(levels[i] == b);
                assert forall|j: int| 0 <= j < i implies total_order_key(#[trigger] levels[j].price_bits) != total_order_key(b.price_bits) by {
                    assert(levels[j] == init[j]);
                }
                if rank(side, x) < rank(side, b) {
                    let n = levels.len() - 1;
                    assert(levels[n] == x);
                    assert forall|j: int| 0 <= j < n implies total_order_key(#[trigger] levels[j].price_bits) != total_order_key(x.price_bits) by {
                        assert(levels[j] == init[j]);
                        assert(key_no_later(side, b, init[j]));
                    }
                    assert forall|j: int| 0 <= j < levels.len() implies key_no_later(side, x, #[trigger] levels[j]) by {
                        if j < n {
                            assert(levels[j] == init[j]);
                            assert(key_no_later(side, b, init[j]));
                        }
                    }
                } else {
                    assert forall|j: int| 0 <= j < levels.len() implies key_no_later(side, b, #[trigger] levels[j]) by {
                        if j < levels.len() - 1 {
                            assert(levels[j] == init[j]);
                        }
                    }
                }
            },
        }
    }
}

} // verus!
