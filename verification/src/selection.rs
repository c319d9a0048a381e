//! Sequences from which only some elements are kept.

use vstd::prelude::*;

verus! {

/// `kept` is made of the values that are there in `all`, in their order: the value
/// at `k` stands in `all` at `places[k]`.
pub open spec fn is_selection<A>(all: Seq<Option<A>>, kept: Seq<A>, places: Seq<int>) -> bool {
    &&& places.len() == kept.len()
    &&& forall|k: int|
        0 <= k < places.len() ==> 0 <= #[trigger] places[k] < all.len() && all[places[k]] == Some(
            kept[k],
        )
    &&& forall|k: int, l: int| 0 <= k < l < places.len() ==> #[trigger] places[k] < #[trigger] places[l]
    &&& forall|i: int| 0 <= i < all.len() && (#[trigger] all[i]) is Some ==> places.contains(i)
}

/// `kept` is made of the values that are there in `all`, in their order.
pub open spec fn selects<A>(all: Seq<Option<A>>, kept: Seq<A>) -> bool {
    exists|places: Seq<int>| is_selection(all, kept, places)
}

/// Nothing is kept of nothing.
pub proof fn lemma_selects_empty<A>()
    ensures
        selects::<A>(Seq::empty(), Seq::empty()),
{
    assert(is_selection::<A>(Seq::empty(), Seq::empty(), Seq::empty()));
}

/// One more place, whose value is kept where there is one.
pub proof fn lemma_selects_push<A>(all: Seq<Option<A>>, kept: Seq<A>, value: Option<A>)
    requires
        selects(all, kept),
    ensures
        value matches Some(x) ==> selects(all.push(value), kept.push(x)),
        value is None ==> selects(all.push(value), kept),
{
    let places = choose|places: Seq<int>| is_selection(all, kept, places);
    let more = all.push(value);
    match value {
        Some(x) => {
            let kept_more = kept.push(x);
            let places_more = places.push(all.len() as int);
            assert forall|k: int| 0 <= k < places_more.len() implies 0 <= #[trigger] places_more[k]
                < more.len() && more[places_more[k]] == Some(kept_more[k]) by {
                if k < places.len() {
                    assert(places_more[k] == places[k]);
                }
            }
            assert forall|i: int| 0 <= i < more.len() && (#[trigger] more[i]) is Some implies places_more.contains(
            i) by {
                if i < all.len() {
                    assert(all[i] is Some);
                    assert(places.contains(i));
                    let k = choose|k: int| 0 <= k < places.len() && places[k] == i;
                    assert(places_more[k] == i);
                } else {
                    assert(places_more[places.len() as int] == i);
                }
            }
            assert(is_selection(more, kept_more, places_more));
        },
        None => {
            assert forall|i: int| 0 <= i < more.len() && (#[trigger] more[i]) is Some implies places.contains(
            i) by {
                assert(all[i] is Some);
            }
            assert(is_selection(more, kept, places));
        },
    }
}

/// What is kept is determined by what there is.
pub proof fn law_one_selection<A>(all: Seq<Option<A>>, a: Seq<A>, b: Seq<A>)
    requires
        selects(all, a),
        selects(all, b),
    ensures
        a == b,
{
    let p = choose|places: Seq<int>| is_selection(all, a, places);
    let q = choose|places: Seq<int>| is_selection(all, b, places);
    lemma_same_places(all, a, p, b, q, a.len() as int);
    lemma_same_places(all, b, q, a, p, b.len() as int);
    assert(a =~= b) by {
        assert forall|k: int| 0 <= k < a.len() implies a[k] == b[k] by {
            assert(p[k] == q[k]);
            assert(all[p[k]] == Some(a[k]));
            assert(all[q[k]] == Some(b[k]));
        }
    }
}

proof fn lemma_same_places<A>(
    all: Seq<Option<A>>,
    a: Seq<A>,
    p: Seq<int>,
    b: Seq<A>,
    q: Seq<int>,
    n: int,
)
    requires
        is_selection(all, a, p),
        is_selection(all, b, q),
        0 <= n <= a.len(),
    ensures
        n <= b.len(),
        forall|k: int| 0 <= k < n ==> #[trigger] p[k] == q[k],
    decreases n,
{
    if n > 0 {
        lemma_same_places(all, a, p, b, q, n - 1);
        let i = p[n - 1];
        assert(all[i] is Some);
        assert(q.contains(i));
        let l = choose|l: int| 0 <= l < q.len() && q[l] == i;
        if l < n - 1 {
            assert(p[l] == q[l]);
            assert(p[l] < p[n - 1]);
        } else if l > n - 1 {
            let j = q[n - 1];
            assert(q[n - 1] < q[l]);
            assert(all[j] is Some);
            assert(p.contains(j));
            let m = choose|m: int| 0 <= m < p.len() && p[m] == j;
            if m < n - 1 {
                assert(p[m] == q[m]);
                assert(q[m] < q[n - 1]);
            } else if m > n - 1 {
                assert(p[n - 1] < p[m]);
            }
        }
    }
}

/// One more place in front, whose value is kept where there is one.
pub proof fn lemma_selects_front<A>(all: Seq<Option<A>>, kept: Seq<A>, value: Option<A>)
    requires
        selects(all, kept),
    ensures
        value matches Some(x) ==> selects(seq![value] + all, seq![x] + kept),
        value is None ==> selects(seq![value] + all, kept),
{
    let places = choose|places: Seq<int>| is_selection(all, kept, places);
    let more = seq![value] + all;
    let moved = places.map_values(|place: int| place + 1);
    assert forall|i: int| 1 <= i < more.len() && (#[trigger] more[i]) is Some implies moved.contains(
        i,
    ) by {
        assert(all[i - 1] is Some);
        assert(places.contains(i - 1));
        let k = choose|k: int| 0 <= k < places.len() && places[k] == i - 1;
        assert(moved[k] == i);
    }
    match value {
        Some(x) => {
            let kept_more = seq![x] + kept;
            let places_more = seq![0int] + moved;
            assert forall|k: int| 0 <= k < places_more.len() implies 0 <= #[trigger] places_more[k]
                < more.len() && more[places_more[k]] == Some(kept_more[k]) by {
                if k > 0 {
                    assert(places_more[k] == places[k - 1] + 1);
                    assert(more[places_more[k]] == all[places[k - 1]]);
                }
            }
            assert forall|k: int, l: int| 0 <= k < l < places_more.len() implies
                #[trigger] places_more[k] < #[trigger] places_more[l] by {
                assert(places_more[l] == places[l - 1] + 1);
                if k > 0 {
                    assert(places_more[k] == places[k - 1] + 1);
                }
            }
            assert forall|i: int| 0 <= i < more.len() && (#[trigger] more[i]) is Some implies places_more.contains(
            i) by {
                if i == 0 {
                    assert(places_more[0] == 0);
                } else {
                    assert(moved.contains(i));
                    let k = choose|k: int| 0 <= k < moved.len() && moved[k] == i;
                    assert(places_more[k + 1] == i);
                }
            }
            assert(is_selection(more, kept_more, places_more));
        },
        None => {
            assert forall|k: int| 0 <= k < moved.len() implies 0 <= #[trigger] moved[k] < more.len()
                && more[moved[k]] == Some(kept[k]) by {
                assert(moved[k] == places[k] + 1);
                assert(more[moved[k]] == all[places[k]]);
            }
            assert forall|k: int, l: int| 0 <= k < l < moved.len() implies #[trigger] moved[k]
                < #[trigger] moved[l] by {
                assert(places[k] < places[l]);
            }
            assert(is_selection(more, kept, moved));
        },
    }
}

} // verus!
