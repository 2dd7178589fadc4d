//! A stable sort by rank, and what follows from its definition.
//!
//! The order that the sort produces is defined as a function of the input:
//! the items are taken one by one, in their order, and each is put behind
//! every item that does not rank after it. That order is sorted and stable,
//! and it is the only one that is both; so the sort, which works by halves,
//! is proved sorted and stable, and gives that order.
use vstd::prelude::*;

verus! {

/// A pair of integers by which items are ordered: first by the first number,
/// then by the second.
pub type Rank = (int, int);

/// Whether rank `a` comes strictly before rank `b`.
pub open spec fn rank_less(a: Rank, b: Rank) -> bool {
    a.0 < b.0 || (a.0 == b.0 && a.1 < b.1)
}

/// An item that has a rank.
pub trait Ranked {
    /// The rank of the item.
    spec fn rank(&self) -> Rank;

    /// Whether this item ranks strictly before `other`.
    fn comes_before(&self, other: &Self) -> (before: bool)
        ensures
            before == rank_less(self.rank(), other.rank()),
    ;
}

/// Where `x` goes in `s`: behind the last item that does not rank after `x`.
pub open spec fn insertion_point<T: Ranked>(s: Seq<T>, x: T) -> int
    decreases s.len(),
{
    if s.len() == 0 {
        0
    } else if rank_less(x.rank(), s.last().rank()) {
        insertion_point(s.drop_last(), x)
    } else {
        s.len() as int
    }
}

/// The items of `s` in the order of their ranks, items of equal rank in the
/// order in which `s` holds them.
pub open spec fn ordered<T: Ranked>(s: Seq<T>) -> Seq<T>
    decreases s.len(),
{
    if s.len() == 0 {
        s
    } else {
        let front = ordered(s.drop_last());
        front.insert(insertion_point(front, s.last()), s.last())
    }
}

/// Whether no item of `s` ranks strictly before an item that stands before it.
pub open spec fn is_sorted<T: Ranked>(s: Seq<T>) -> bool {
    forall|i: int, j: int| 0 <= i < j < s.len() ==> !rank_less(#[trigger] s[j].rank(), #[trigger] s[i].rank())
}

/// The test that an item has rank `r`.
pub open spec fn has_rank<T: Ranked>(r: Rank) -> spec_fn(T) -> bool {
    |x: T| x.rank() == r
}

/// The items of `s` that have rank `r`, in their order.
pub open spec fn of_rank<T: Ranked>(s: Seq<T>, r: Rank) -> Seq<T> {
    s.filter(has_rank(r))
}

/// The insertion point lies within the sequence, everything from it on ranks
/// after `x`, and in a sorted sequence nothing before it does.
pub proof fn lemma_insertion_point<T: Ranked>(s: Seq<T>, x: T)
    ensures
        0 <= insertion_point(s, x) <= s.len(),
        forall|k: int| insertion_point(s, x) <= k < s.len() ==> rank_less(x.rank(), #[trigger] s[k].rank()),
        is_sorted(s) ==> forall|k: int| 0 <= k < insertion_point(s, x) ==> !rank_less(x.rank(), #[trigger] s[k].rank()),
    decreases s.len(),
{
    if s.len() > 0 && rank_less(x.rank(), s.last().rank()) {
        let front = s.drop_last();
        lemma_insertion_point(front, x);
        assert forall|k: int| insertion_point(s, x) <= k < s.len() implies rank_less(
            x.rank(),
            #[trigger] s[k].rank(),
        ) by {
            if k < front.len() {
                assert(s[k] == front[k]);
            }
        }
        if is_sorted(s) {
            lemma_sorted_front(s);
            assert forall|k: int| 0 <= k < insertion_point(s, x) implies !rank_less(
                x.rank(),
                #[trigger] s[k].rank(),
            ) by {
                assert(s[k] == front[k]);
            }
        }
    } else if s.len() > 0 {
        if is_sorted(s) {
            assert forall|k: int| 0 <= k < s.len() implies !rank_less(x.rank(), #[trigger] s[k].rank()) by {
                if k < s.len() - 1 {
                    assert(!rank_less(s[s.len() - 1].rank(), s[k].rank()));
                }
            }
        }
    }
}

/// The order has as many items as the input.
pub proof fn lemma_ordered_len<T: Ranked>(s: Seq<T>)
    ensures
        ordered(s).len() == s.len(),
    decreases s.len(),
{
    if s.len() > 0 {
        lemma_ordered_len(s.drop_last());
        lemma_insertion_point(ordered(s.drop_last()), s.last());
    }
}

/// In the order, no item ranks strictly before one that stands before it.
pub proof fn lemma_ordered_is_sorted<T: Ranked>(s: Seq<T>)
    ensures
        is_sorted(ordered(s)),
    decreases s.len(),
{
    if s.len() > 0 {
        let front = ordered(s.drop_last());
        let x = s.last();
        let p = insertion_point(front, x);
        lemma_ordered_is_sorted(s.drop_last());
        lemma_insertion_point(front, x);
        let out = ordered(s);
        assert(out == front.insert(p, x));
        assert forall|i: int, j: int| 0 <= i < j < out.len() implies !rank_less(
            #[trigger] out[j].rank(),
            #[trigger] out[i].rank(),
        ) by {
            if j < p {
                assert(out[i] == front[i] && out[j] == front[j]);
            } else if j == p {
                assert(out[i] == front[i]);
            } else if i < p {
                assert(out[i] == front[i] && out[j] == front[j - 1]);
            } else if i == p {
                assert(out[j] == front[j - 1]);
                assert(rank_less(x.rank(), front[j - 1].rank()));
            } else {
                assert(out[i] == front[i - 1] && out[j] == front[j - 1]);
            }
        }
    }
}

/// The order holds the items of the input, each as often as the input does.
pub proof fn lemma_ordered_permutes<T: Ranked>(s: Seq<T>)
    ensures
        ordered(s).to_multiset() == s.to_multiset(),
    decreases s.len(),
{
    broadcast use vstd::seq_lib::group_to_multiset_ensures;

    if s.len() > 0 {
        let front = ordered(s.drop_last());
        let x = s.last();
        let p = insertion_point(front, x);
        lemma_ordered_permutes(s.drop_last());
        lemma_insertion_point(front, x);
        let out = front.insert(p, x);
        assert(out.remove(p) =~= front);
        assert(out[p] == x);
        assert(out.to_multiset() =~= front.to_multiset().insert(x)) by {
            assert(out.remove(p).to_multiset() == out.to_multiset().remove(x));
            assert(out.to_multiset().count(x) > 0);
        }
        assert(s =~= s.drop_last().push(x));
    }
}

/// A sequence of which no item passes the test has nothing left after the
/// filter.
proof fn lemma_filter_none<T>(s: Seq<T>, pred: spec_fn(T) -> bool)
    requires
        forall|k: int| 0 <= k < s.len() ==> !pred(#[trigger] s[k]),
    ensures
        s.filter(pred) == Seq::<T>::empty(),
    decreases s.len(),
{
    reveal(Seq::filter);
    if s.len() > 0 {
        let front = s.drop_last();
        assert forall|k: int| 0 <= k < front.len() implies !pred(#[trigger] front[k]) by {
            assert(front[k] == s[k]);
        }
        lemma_filter_none(front, pred);
        assert(!pred(s[s.len() - 1]));
    }
}

/// The sort is stable: the items of any one rank stand in the order as they
/// stand in the input.
pub proof fn lemma_ordered_is_stable<T: Ranked>(s: Seq<T>, r: Rank)
    ensures
        of_rank(ordered(s), r) == of_rank(s, r),
    decreases s.len(),
{
    reveal(Seq::filter);
    if s.len() > 0 {
        let front = ordered(s.drop_last());
        let x = s.last();
        let p = insertion_point(front, x);
        let pred = has_rank::<T>(r);
        lemma_ordered_is_stable(s.drop_last(), r);
        lemma_insertion_point(front, x);
        let head = front.subrange(0, p);
        let tail = front.subrange(p, front.len() as int);
        let out = ordered(s);
        assert(out =~= (head + seq![x]) + tail);
        assert(front =~= head + tail);
        Seq::filter_distributes_over_add(head + seq![x], tail, pred);
        Seq::filter_distributes_over_add(head, seq![x], pred);
        Seq::filter_distributes_over_add(head, tail, pred);
        assert(seq![x] =~= Seq::<T>::empty().push(x));
        assert(Seq::<T>::empty().push(x).drop_last() =~= Seq::<T>::empty());
        lemma_filter_none(Seq::<T>::empty(), pred);
        if pred(x) {
            assert forall|k: int| 0 <= k < tail.len() implies !pred(#[trigger] tail[k]) by {
                assert(tail[k] == front[p + k]);
                assert(rank_less(x.rank(), front[p + k].rank()));
            }
            lemma_filter_none(tail, pred);
            assert(seq![x].filter(pred) =~= seq![x]);
            assert(out.filter(pred) =~= head.filter(pred).push(x));
            assert(front.filter(pred) =~= head.filter(pred));
        } else {
            assert(seq![x].filter(pred) =~= Seq::<T>::empty());
            assert(out.filter(pred) =~= front.filter(pred));
        }
    }
}

/// A sequence that holds an item of rank `r` has something left of rank `r`,
/// and the other way round.
proof fn lemma_of_rank_holds<T: Ranked>(s: Seq<T>, r: Rank)
    ensures
        of_rank(s, r).len() > 0 <==> exists|k: int| 0 <= k < s.len() && (#[trigger] s[k]).rank() == r,
{
    let pred = has_rank::<T>(r);
    if of_rank(s, r).len() > 0 {
        let x = of_rank(s, r)[0];
        s.lemma_filter_pred(pred, 0);
        assert(of_rank(s, r).contains(x));
        s.lemma_filter_contains_rev(pred, x);
        let k = choose|k: int| 0 <= k < s.len() && s[k] == x;
        assert(s[k].rank() == r);
    }
    if exists|k: int| 0 <= k < s.len() && (#[trigger] s[k]).rank() == r {
        let k = choose|k: int| 0 <= k < s.len() && (#[trigger] s[k]).rank() == r;
        s.lemma_filter_contains(pred, k);
    }
}

/// Two sorted sequences that hold, for every rank, the same items of that
/// rank in the same order are the same sequence.
pub proof fn lemma_stable_order_is_unique<T: Ranked>(a: Seq<T>, b: Seq<T>)
    requires
        is_sorted(a),
        is_sorted(b),
        forall|r: Rank| #[trigger] of_rank(a, r) == of_rank(b, r),
    ensures
        a == b,
    decreases a.len(),
{
    reveal(Seq::filter);
    if a.len() == 0 {
        if b.len() > 0 {
            let r = b[0].rank();
            lemma_of_rank_holds(b, r);
            lemma_of_rank_holds(a, r);
            assert(of_rank(a, r) == of_rank(b, r));
        }
        assert(a =~= b);
    } else if b.len() == 0 {
        let r = a[0].rank();
        lemma_of_rank_holds(b, r);
        lemma_of_rank_holds(a, r);
        assert(of_rank(a, r) == of_rank(b, r));
    } else {
        let x = a.last();
        let y = b.last();
        let rx = x.rank();
        let ry = y.rank();
        assert(rx == ry) by {
            lemma_of_rank_holds(a, ry);
            lemma_of_rank_holds(b, ry);
            lemma_of_rank_holds(a, rx);
            lemma_of_rank_holds(b, rx);
            assert(of_rank(a, ry) == of_rank(b, ry));
            assert(of_rank(a, rx) == of_rank(b, rx));
            assert(b[b.len() - 1].rank() == ry);
            assert(a[a.len() - 1].rank() == rx);
            let k = choose|k: int| 0 <= k < a.len() && (#[trigger] a[k]).rank() == ry;
            let j = choose|j: int| 0 <= j < b.len() && (#[trigger] b[j]).rank() == rx;
            if k < a.len() - 1 {
                assert(!rank_less(a[a.len() - 1].rank(), a[k].rank()));
            }
            if j < b.len() - 1 {
                assert(!rank_less(b[b.len() - 1].rank(), b[j].rank()));
            }
        }
        let front_a = a.drop_last();
        let front_b = b.drop_last();
        lemma_sorted_front(a);
        lemma_sorted_front(b);
        assert forall|r: Rank| #[trigger] of_rank(front_a, r) == of_rank(front_b, r) by {
            assert(of_rank(a, r) == of_rank(b, r));
            if r == rx {
                assert(of_rank(a, r) == of_rank(front_a, r).push(x));
                assert(of_rank(b, r) == of_rank(front_b, r).push(y));
                assert(of_rank(front_a, r) =~= of_rank(a, r).drop_last());
                assert(of_rank(front_b, r) =~= of_rank(b, r).drop_last());
            }
        }
        assert(x == y) by {
            assert(of_rank(a, rx) == of_rank(front_a, rx).push(x));
            assert(of_rank(b, rx) == of_rank(front_b, rx).push(y));
            assert(of_rank(a, rx).last() == x);
            assert(of_rank(b, rx).last() == y);
            assert(of_rank(a, rx) == of_rank(b, rx));
        }
        lemma_stable_order_is_unique(front_a, front_b);
        assert(a =~= front_a.push(x));
        assert(b =~= front_b.push(y));
    }
}

/// The order is the only one that is sorted and stable: a sorted sequence
/// that holds, for every rank, the items of that rank as `s` holds them is
/// `ordered(s)`.
pub proof fn lemma_ordered_is_the_stable_order<T: Ranked>(s: Seq<T>, out: Seq<T>)
    requires
        is_sorted(out),
        forall|r: Rank| #[trigger] of_rank(out, r) == of_rank(s, r),
    ensures
        out == ordered(s),
{
    lemma_ordered_is_sorted(s);
    assert forall|r: Rank| #[trigger] of_rank(out, r) == of_rank(ordered(s), r) by {
        lemma_ordered_is_stable(s, r);
        assert(of_rank(out, r) == of_rank(s, r));
    }
    lemma_stable_order_is_unique(out, ordered(s));
}

/// Whether two sequences are as long as each other and `agree` holds of
/// their items place by place.
pub open spec fn agree_throughout<T>(a: Seq<T>, b: Seq<T>, agree: spec_fn(T, T) -> bool) -> bool {
    &&& a.len() == b.len()
    &&& forall|k: int| 0 <= k < a.len() ==> agree(#[trigger] a[k], b[k])
}

/// Where an item goes depends on the ranks alone.
proof fn lemma_insertion_point_by_rank<T: Ranked>(a: Seq<T>, b: Seq<T>, x: T, y: T)
    requires
        a.len() == b.len(),
        forall|k: int| 0 <= k < a.len() ==> (#[trigger] a[k]).rank() == b[k].rank(),
        x.rank() == y.rank(),
    ensures
        insertion_point(a, x) == insertion_point(b, y),
    decreases a.len(),
{
    if a.len() > 0 {
        assert(a[a.len() - 1].rank() == b[b.len() - 1].rank());
        if rank_less(x.rank(), a.last().rank()) {
            let front_a = a.drop_last();
            let front_b = b.drop_last();
            assert forall|k: int| 0 <= k < front_a.len() implies (#[trigger] front_a[k]).rank()
                == front_b[k].rank() by {
                assert(a[k].rank() == b[k].rank());
            }
            lemma_insertion_point_by_rank(front_a, front_b, x, y);
        }
    }
}

/// The order depends on the ranks alone: two inputs whose items agree place
/// by place, agreeing items being of one rank, are put in orders whose items
/// agree place by place.
pub proof fn lemma_ordered_agree<T: Ranked>(a: Seq<T>, b: Seq<T>, agree: spec_fn(T, T) -> bool)
    requires
        agree_throughout(a, b, agree),
        forall|x: T, y: T| #[trigger] agree(x, y) ==> x.rank() == y.rank(),
    ensures
        agree_throughout(ordered(a), ordered(b), agree),
    decreases a.len(),
{
    if a.len() > 0 {
        let front_a = a.drop_last();
        let front_b = b.drop_last();
        assert(agree_throughout(front_a, front_b, agree)) by {
            assert forall|k: int| 0 <= k < front_a.len() implies agree(#[trigger] front_a[k], front_b[k]) by {
                assert(agree(a[k], b[k]));
            }
        }
        lemma_ordered_agree(front_a, front_b, agree);
        let sorted_a = ordered(front_a);
        let sorted_b = ordered(front_b);
        let x = a.last();
        let y = b.last();
        assert(agree(a[a.len() - 1], b[a.len() - 1]));
        assert forall|k: int| 0 <= k < sorted_a.len() implies (#[trigger] sorted_a[k]).rank()
            == sorted_b[k].rank() by {
            assert(agree(sorted_a[k], sorted_b[k]));
        }
        lemma_insertion_point_by_rank(sorted_a, sorted_b, x, y);
        lemma_insertion_point(sorted_a, x);
        let place = insertion_point(sorted_a, x);
        let out_a = ordered(a);
        let out_b = ordered(b);
        assert(out_a == sorted_a.insert(place, x));
        assert(out_b == sorted_b.insert(place, y));
        assert forall|k: int| 0 <= k < out_a.len() implies agree(#[trigger] out_a[k], out_b[k]) by {
            if k < place {
                assert(agree(sorted_a[k], sorted_b[k]));
            } else if k > place {
                assert(agree(sorted_a[k - 1], sorted_b[k - 1]));
            }
        }
    }
}

/// Whether no item of `high` ranks strictly before an item of `low`.
pub open spec fn none_after<T: Ranked>(low: Seq<T>, high: Seq<T>) -> bool {
    forall|i: int, j: int|
        0 <= i < low.len() && 0 <= j < high.len() ==> !rank_less(#[trigger] high[j].rank(), #[trigger] low[i].rank())
}

/// The items of rank `r` in three sequences, one after the other.
pub open spec fn of_rank_in<T: Ranked>(left: Seq<T>, right: Seq<T>, tail: Seq<T>, r: Rank) -> Seq<T> {
    of_rank(left, r) + of_rank(right, r) + of_rank(tail, r)
}

/// What is left of one item after the filter.
proof fn lemma_filter_one<T>(x: T, pred: spec_fn(T) -> bool)
    ensures
        seq![x].filter(pred) == if pred(x) {
            seq![x]
        } else {
            Seq::<T>::empty()
        },
{
    reveal(Seq::filter);
    assert(seq![x] =~= Seq::<T>::empty().push(x));
    assert(Seq::<T>::empty().push(x).drop_last() =~= Seq::<T>::empty());
    lemma_filter_none(Seq::<T>::empty(), pred);
    if pred(x) {
        assert(seq![x].filter(pred) =~= seq![x]);
    } else {
        assert(seq![x].filter(pred) =~= Seq::<T>::empty());
    }
}

/// A sorted sequence without its last item is sorted.
proof fn lemma_sorted_front<T: Ranked>(s: Seq<T>)
    requires
        is_sorted(s),
        s.len() > 0,
    ensures
        is_sorted(s.drop_last()),
{
    let front = s.drop_last();
    assert forall|i: int, j: int| 0 <= i < j < front.len() implies !rank_less(
        #[trigger] front[j].rank(),
        #[trigger] front[i].rank(),
    ) by {
        assert(front[i] == s[i] && front[j] == s[j]);
    }
}

/// One step of a merge from the back, for the items of one rank.
proof fn lemma_merge_step_rank<T: Ranked>(from: Seq<T>, other: Seq<T>, tail: Seq<T>, from_left: bool, r: Rank)
    requires
        from.len() > 0,
        is_sorted(other),
        other.len() > 0 && from_left ==> rank_less(other.last().rank(), from.last().rank()),
    ensures
        from_left ==> of_rank_in(from.drop_last(), other, seq![from.last()] + tail, r) == of_rank_in(
            from,
            other,
            tail,
            r,
        ),
        !from_left ==> of_rank_in(other, from.drop_last(), seq![from.last()] + tail, r) == of_rank_in(
            other,
            from,
            tail,
            r,
        ),
{
    let x = from.last();
    let front = from.drop_last();
    let longer = seq![x] + tail;
    let pred = has_rank::<T>(r);
    reveal(Seq::filter);
    Seq::filter_distributes_over_add(seq![x], tail, pred);
    lemma_filter_one(x, pred);
    if x.rank() == r {
        assert(pred(x));
        assert(of_rank(from, r) == of_rank(front, r).push(x));
        assert(of_rank(longer, r) == seq![x] + of_rank(tail, r));
        if from_left {
            assert forall|k: int| 0 <= k < other.len() implies !pred(#[trigger] other[k]) by {
                if k < other.len() - 1 {
                    assert(!rank_less(other[other.len() - 1].rank(), other[k].rank()));
                }
            }
            lemma_filter_none(other, pred);
            assert(of_rank_in(front, other, longer, r) =~= of_rank_in(from, other, tail, r));
        } else {
            assert(of_rank_in(other, front, longer, r) =~= of_rank_in(other, from, tail, r));
        }
    } else {
        assert(!pred(x));
        assert(of_rank(from, r) == of_rank(front, r));
        assert(of_rank(longer, r) =~= of_rank(tail, r));
    }
}

/// One step of a merge from the back: the last item of `from` goes to the
/// front of `tail`. That keeps everything sorted and every rank in its order
/// where the item ranks after no item of `other`, and, for `from` standing
/// left of `other`, strictly after every item of `other`.
proof fn lemma_merge_step<T: Ranked>(from: Seq<T>, other: Seq<T>, tail: Seq<T>, from_left: bool)
    requires
        from.len() > 0,
        is_sorted(from),
        is_sorted(other),
        is_sorted(tail),
        none_after(from, tail),
        none_after(other, tail),
        other.len() > 0 ==> if from_left {
            rank_less(other.last().rank(), from.last().rank())
        } else {
            !rank_less(from.last().rank(), other.last().rank())
        },
    ensures
        is_sorted(from.drop_last()),
        is_sorted(seq![from.last()] + tail),
        none_after(from.drop_last(), seq![from.last()] + tail),
        none_after(other, seq![from.last()] + tail),
        from_left ==> forall|r: Rank|
            #[trigger] of_rank_in(from.drop_last(), other, seq![from.last()] + tail, r) == of_rank_in(
                from,
                other,
                tail,
                r,
            ),
        !from_left ==> forall|r: Rank|
            #[trigger] of_rank_in(other, from.drop_last(), seq![from.last()] + tail, r) == of_rank_in(
                other,
                from,
                tail,
                r,
            ),
{
    let x = from.last();
    let front = from.drop_last();
    let longer = seq![x] + tail;
    lemma_sorted_front(from);
    assert forall|i: int, j: int| 0 <= i < j < longer.len() implies !rank_less(
        #[trigger] longer[j].rank(),
        #[trigger] longer[i].rank(),
    ) by {
        assert(longer[j] == tail[j - 1]);
        if i == 0 {
            assert(longer[i] == from[from.len() - 1]);
        } else {
            assert(longer[i] == tail[i - 1]);
        }
    }
    assert forall|i: int, j: int| 0 <= i < front.len() && 0 <= j < longer.len() implies !rank_less(
        #[trigger] longer[j].rank(),
        #[trigger] front[i].rank(),
    ) by {
        assert(front[i] == from[i]);
        if j == 0 {
            assert(longer[j] == from[from.len() - 1]);
        } else {
            assert(longer[j] == tail[j - 1]);
        }
    }
    assert forall|i: int, j: int| 0 <= i < other.len() && 0 <= j < longer.len() implies !rank_less(
        #[trigger] longer[j].rank(),
        #[trigger] other[i].rank(),
    ) by {
        if j == 0 {
            assert(longer[j] == x);
            if i < other.len() - 1 {
                assert(!rank_less(other[other.len() - 1].rank(), other[i].rank()));
            }
        } else {
            assert(longer[j] == tail[j - 1]);
        }
    }
    if from_left {
        assert forall|r: Rank|
            #[trigger] of_rank_in(front, other, longer, r) == of_rank_in(from, other, tail, r) by {
            lemma_merge_step_rank(from, other, tail, from_left, r);
        }
    } else {
        assert forall|r: Rank|
            #[trigger] of_rank_in(other, front, longer, r) == of_rank_in(other, from, tail, r) by {
            lemma_merge_step_rank(from, other, tail, from_left, r);
        }
    }
}

/// The items in the opposite order.
fn reversed<T>(items: Vec<T>) -> (out: Vec<T>)
    ensures
        out@ == items@.reverse(),
{
    let ghost all = items@;
    let mut items = items;
    let mut out: Vec<T> = Vec::new();
    while items.len() > 0
        invariant
            items@.len() <= all.len(),
            items@ == all.subrange(0, items@.len() as int),
            out@.len() == all.len() - items@.len(),
            forall|k: int| 0 <= k < out@.len() ==> out@[k] == all[all.len() - 1 - k],
        decreases items.len(),
    {
        let x = items.pop().unwrap();
        out.push(x);
    }
    assert(out@ =~= all.reverse());
    out
}

/// Merges two sorted sequences into one, items of equal rank in their
/// order, those of `left` before those of `right`.
fn merge<T: Ranked>(left: Vec<T>, right: Vec<T>) -> (out: Vec<T>)
    requires
        is_sorted(left@),
        is_sorted(right@),
    ensures
        is_sorted(out@),
        forall|r: Rank| #[trigger] of_rank(out@, r) == of_rank(left@, r) + of_rank(right@, r),
{
    let ghost left_given = left@;
    let ghost right_given = right@;
    let ghost mut tail: Seq<T> = Seq::empty();
    let mut left = left;
    let mut right = right;
    let mut back: Vec<T> = Vec::new();
    proof {
        assert(back@ =~= tail.reverse());
    }
    while left.len() > 0 || right.len() > 0
        invariant
            is_sorted(left@),
            is_sorted(right@),
            is_sorted(tail),
            none_after(left@, tail),
            none_after(right@, tail),
            back@ == tail.reverse(),
            forall|r: Rank|
                #[trigger] of_rank_in(left@, right@, tail, r) == of_rank_in(
                    left_given,
                    right_given,
                    Seq::<T>::empty(),
                    r,
                ),
        decreases left.len() + right.len(),
    {
        let ghost left_before = left@;
        let ghost right_before = right@;
        let ghost tail_before = tail;
        let from_left = if right.len() == 0 {
            true
        } else if left.len() == 0 {
            false
        } else {
            right[right.len() - 1].comes_before(&left[left.len() - 1])
        };
        if from_left {
            proof {
                lemma_merge_step(left_before, right_before, tail_before, true);
            }
            let x = left.pop().unwrap();
            back.push(x);
            proof {
                tail = seq![x] + tail_before;
                assert(back@ =~= tail.reverse());
                assert forall|r: Rank|
                    #[trigger] of_rank_in(left@, right@, tail, r) == of_rank_in(
                        left_given,
                        right_given,
                        Seq::<T>::empty(),
                        r,
                    ) by {
                    assert(of_rank_in(left_before.drop_last(), right_before, seq![left_before.last()] + tail_before, r)
                        == of_rank_in(left_before, right_before, tail_before, r));
                }
            }
        } else {
            proof {
                lemma_merge_step(right_before, left_before, tail_before, false);
            }
            let y = right.pop().unwrap();
            back.push(y);
            proof {
                tail = seq![y] + tail_before;
                assert(back@ =~= tail.reverse());
                assert forall|r: Rank|
                    #[trigger] of_rank_in(left@, right@, tail, r) == of_rank_in(
                        left_given,
                        right_given,
                        Seq::<T>::empty(),
                        r,
                    ) by {
                    assert(of_rank_in(left_before, right_before.drop_last(), seq![right_before.last()] + tail_before, r)
                        == of_rank_in(left_before, right_before, tail_before, r));
                }
            }
        }
    }
    let out = reversed(back);
    proof {
        assert(out@ =~= tail);
        assert forall|r: Rank| #[trigger] of_rank(out@, r) == of_rank(left_given, r) + of_rank(right_given, r) by {
            let pred = has_rank::<T>(r);
            lemma_filter_none(Seq::<T>::empty(), pred);
            assert(left@ =~= Seq::<T>::empty());
            assert(right@ =~= Seq::<T>::empty());
            assert(of_rank_in(left@, right@, tail, r) == of_rank_in(left_given, right_given, Seq::<T>::empty(), r));
            assert(of_rank_in(left@, right@, tail, r) =~= of_rank(tail, r));
            assert(of_rank_in(left_given, right_given, Seq::<T>::empty(), r) =~= of_rank(left_given, r) + of_rank(
                right_given,
                r,
            ));
        }
    }
    out
}

/// Sorts by halves: a sorted sequence that holds every rank as `items`
/// holds it.
fn merge_sorted<T: Ranked>(items: Vec<T>) -> (out: Vec<T>)
    ensures
        is_sorted(out@),
        forall|r: Rank| #[trigger] of_rank(out@, r) == of_rank(items@, r),
    decreases items@.len(),
{
    if items.len() <= 1 {
        return items;
    }
    let ghost given = items@;
    let half = items.len() / 2;
    let mut left = items;
    let right = left.split_off(half);
    let ghost left_given = left@;
    let ghost right_given = right@;
    let left = merge_sorted(left);
    let right = merge_sorted(right);
    let out = merge(left, right);
    proof {
        assert(given =~= left_given + right_given);
        assert forall|r: Rank| #[trigger] of_rank(out@, r) == of_rank(given, r) by {
            Seq::filter_distributes_over_add(left_given, right_given, has_rank::<T>(r));
            assert(of_rank(left@, r) == of_rank(left_given, r));
            assert(of_rank(right@, r) == of_rank(right_given, r));
            assert(of_rank(out@, r) == of_rank(left@, r) + of_rank(right@, r));
        }
    }
    out
}

/// Sorts `items` by rank, keeping items of equal rank in their order.
pub fn sort_stably<T: Ranked>(items: &mut Vec<T>)
    ensures
        final(items)@ == ordered(old(items)@),
{
    let mut taken: Vec<T> = Vec::new();
    std::mem::swap(items, &mut taken);
    let ghost given = taken@;
    let mut sorted = merge_sorted(taken);
    proof {
        lemma_ordered_is_the_stable_order(given, sorted@);
    }
    std::mem::swap(items, &mut sorted);
}

} // verus!
