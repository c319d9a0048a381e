//! The order in which the entries of a directory are listed.

use vstd::prelude::*;

use crate::text;
use crate::text::comes_before;

verus! {

/// What decides where an entry stands: its rank, then its name in small letters,
/// then its name.
pub struct SortKey {
    pub rank: u8,
    pub lowered: String,
    pub name: String,
}

/// The mathematical view of a key.
#[verifier::ext_equal]
pub struct KeyView {
    pub rank: u8,
    pub lowered: Seq<char>,
    pub name: Seq<char>,
}

impl View for SortKey {
    type V = KeyView;

    open spec fn view(&self) -> KeyView {
        KeyView { rank: self.rank, lowered: self.lowered@, name: self.name@ }
    }
}

/// The views of some keys.
pub open spec fn key_views(keys: Seq<SortKey>) -> Seq<KeyView> {
    keys.map_values(|key: SortKey| key@)
}

/// `a` is the smaller of two keys.
pub open spec fn key_before(a: KeyView, b: KeyView) -> bool {
    if a.rank != b.rank {
        a.rank < b.rank
    } else if a.lowered != b.lowered {
        text::text_before(a.lowered, b.lowered)
    } else {
        text::text_before(a.name, b.name)
    }
}

/// The entry at `i` is listed before the one at `j`: entries with equal keys keep
/// their places.
pub open spec fn listed_before(keys: Seq<KeyView>, i: int, j: int) -> bool {
    key_before(keys[i], keys[j]) || keys[i] == keys[j] && i < j
}

/// `order` holds the indices from `from` up to `to`, each once, in the order in
/// which their entries are listed.
pub open spec fn orders(keys: Seq<KeyView>, order: Seq<usize>, from: int, to: int) -> bool {
    &&& order.len() == to - from
    &&& forall|i: int| 0 <= i < order.len() ==> from <= #[trigger] order[i] < to
    &&& forall|k: int| from <= k < to ==> #[trigger] order.contains(k as usize)
    &&& forall|i: int, j: int|
        0 <= i < j < order.len() ==> listed_before(
            keys,
            #[trigger] order[i] as int,
            #[trigger] order[j] as int,
        )
}

proof fn lemma_text_not_before_itself(a: Seq<char>)
    ensures
        !text::text_before(a, a),
    decreases a.len(),
{
    if a.len() > 0 {
        lemma_text_not_before_itself(a.drop_first());
    }
}

proof fn lemma_text_order(a: Seq<char>, b: Seq<char>)
    ensures
        !text::text_before(a, a),
        a == b || text::text_before(a, b) || text::text_before(b, a),
        !(text::text_before(a, b) && text::text_before(b, a)),
    decreases a.len(),
{
    lemma_text_not_before_itself(a);
    if a.len() > 0 {
        if b.len() > 0 && a[0] == b[0] {
            lemma_text_order(a.drop_first(), b.drop_first());
            if a.drop_first() == b.drop_first() {
                assert(seq![a[0]] + a.drop_first() =~= a);
                assert(seq![b[0]] + b.drop_first() =~= b);
            }
        }
    } else if b.len() == 0 {
        assert(a =~= b);
    }
}

proof fn lemma_text_order_chains(a: Seq<char>, b: Seq<char>, c: Seq<char>)
    requires
        text::text_before(a, b),
        text::text_before(b, c),
    ensures
        text::text_before(a, c),
    decreases a.len(),
{
    if a.len() > 0 && a[0] == b[0] && b[0] == c[0] {
        lemma_text_order_chains(a.drop_first(), b.drop_first(), c.drop_first());
    }
}

/// The order of a listing is strict, total and transitive: there is one way to
/// list some entries, and no more.
pub proof fn law_listing_order(keys: Seq<KeyView>, i: int, j: int, k: int)
    ensures
        !listed_before(keys, i, i),
        i == j || listed_before(keys, i, j) || listed_before(keys, j, i),
        !(listed_before(keys, i, j) && listed_before(keys, j, i)),
        listed_before(keys, i, j) && listed_before(keys, j, k) ==> listed_before(keys, i, k),
{
    let (a, b, c) = (keys[i], keys[j], keys[k]);
    lemma_text_order(a.lowered, b.lowered);
    lemma_text_order(a.name, b.name);
    lemma_text_order(b.lowered, c.lowered);
    lemma_text_order(b.name, c.name);
    if a.lowered == b.lowered && a.name == b.name && a.rank == b.rank {
        assert(a =~= b);
    }
    if text::text_before(a.lowered, b.lowered) && text::text_before(b.lowered, c.lowered) {
        lemma_text_order_chains(a.lowered, b.lowered, c.lowered);
        lemma_text_order(a.lowered, c.lowered);
    }
    if text::text_before(a.name, b.name) && text::text_before(b.name, c.name) {
        lemma_text_order_chains(a.name, b.name, c.name);
        lemma_text_order(a.name, c.name);
    }
}

/// Whether the entry at `i` is listed before the one at `j`.
fn goes_first(keys: &Vec<SortKey>, i: usize, j: usize) -> (r: bool)
    requires
        i < keys.len(),
        j < keys.len(),
    ensures
        r == listed_before(key_views(keys@), i as int, j as int),
{
    let a = &keys[i];
    let b = &keys[j];
    proof {
        law_listing_order(key_views(keys@), i as int, j as int, i as int);
        lemma_text_order(a.lowered@, b.lowered@);
        lemma_text_order(a.name@, b.name@);
        assert(key_views(keys@)[i as int] == a@);
        assert(key_views(keys@)[j as int] == b@);
    }
    if a.rank != b.rank {
        return a.rank < b.rank;
    }
    if comes_before(a.lowered.as_str(), b.lowered.as_str()) {
        return true;
    }
    if comes_before(b.lowered.as_str(), a.lowered.as_str()) {
        return false;
    }
    if comes_before(a.name.as_str(), b.name.as_str()) {
        return true;
    }
    if comes_before(b.name.as_str(), a.name.as_str()) {
        return false;
    }
    i < j
}

/// `s` and the rest of `part`, from `at` on, hold `k` between them.
spec fn held(s: Seq<usize>, part: Seq<usize>, at: int, k: int) -> bool {
    s.contains(k as usize) || exists|i: int| at <= i < part.len() && #[trigger] part[i] == k
}

/// Two lists of neighbouring indices, each in order, made into one.
fn merge(keys: &Vec<SortKey>, left: &Vec<usize>, right: &Vec<usize>, from: usize, middle: usize,
    to: usize) -> (r: Vec<usize>)
    requires
        from <= middle <= to <= keys.len(),
        orders(key_views(keys@), left@, from as int, middle as int),
        orders(key_views(keys@), right@, middle as int, to as int),
    ensures
        orders(key_views(keys@), r@, from as int, to as int),
{
    let ghost views = key_views(keys@);
    let mut out: Vec<usize> = Vec::new();
    let mut i: usize = 0;
    let mut j: usize = 0;
    proof {
        assert forall|k: int| from <= k < middle implies #[trigger] held(out@, left@, 0, k) by {
            assert(left@.contains(k as usize));
        }
        assert forall|k: int| middle <= k < to implies #[trigger] held(out@, right@, 0, k) by {
            assert(right@.contains(k as usize));
        }
    }
    while i < left.len() || j < right.len()
        invariant
            from <= middle <= to <= keys.len(),
            views == key_views(keys@),
            orders(views, left@, from as int, middle as int),
            orders(views, right@, middle as int, to as int),
            i <= left.len(),
            j <= right.len(),
            out.len() == i + j,
            forall|a: int| 0 <= a < out.len() ==> from <= #[trigger] out@[a] < to,
            forall|a: int, b: int|
                0 <= a < b < out.len() ==> listed_before(
                    views,
                    #[trigger] out@[a] as int,
                    #[trigger] out@[b] as int,
                ),
            forall|a: int, b: int|
                0 <= a < out.len() && i <= b < left.len() ==> listed_before(
                    views,
                    #[trigger] out@[a] as int,
                    #[trigger] left@[b] as int,
                ),
            forall|a: int, b: int|
                0 <= a < out.len() && j <= b < right.len() ==> listed_before(
                    views,
                    #[trigger] out@[a] as int,
                    #[trigger] right@[b] as int,
                ),
            forall|k: int| from <= k < middle ==> #[trigger] held(out@, left@, i as int, k),
            forall|k: int| middle <= k < to ==> #[trigger] held(out@, right@, j as int, k),
        decreases left.len() - i + right.len() - j,
    {
        let take_left = if i == left.len() {
            false
        } else if j == right.len() {
            true
        } else {
            goes_first(keys, left[i], right[j])
        };
        let ghost before = out@;
        if take_left {
            let next = left[i];
            out.push(next);
            proof {
                assert forall|b: int| j <= b < right.len() implies listed_before(
                    views,
                    next as int,
                    #[trigger] right@[b] as int,
                ) by {
                    law_listing_order(views, next as int, right@[j as int] as int, right@[b] as int);
                }
                assert forall|k: int| from <= k < middle implies #[trigger] held(
                    out@,
                    left@,
                    i + 1,
                    k,
                ) by {
                    assert(held(before, left@, i as int, k));
                    lemma_held_after(before, left@, i as int, k);
                }
                assert forall|k: int| middle <= k < to implies #[trigger] held(
                    out@,
                    right@,
                    j as int,
                    k,
                ) by {
                    assert(held(before, right@, j as int, k));
                    lemma_held_push(before, next, right@, j as int, k);
                }
            }
            i = i + 1;
        } else {
            let next = right[j];
            out.push(next);
            proof {
                assert forall|b: int| i <= b < left.len() implies listed_before(
                    views,
                    next as int,
                    #[trigger] left@[b] as int,
                ) by {
                    law_listing_order(views, next as int, left@[i as int] as int, left@[b] as int);
                }
                assert forall|k: int| middle <= k < to implies #[trigger] held(
                    out@,
                    right@,
                    j + 1,
                    k,
                ) by {
                    assert(held(before, right@, j as int, k));
                    lemma_held_after(before, right@, j as int, k);
                }
                assert forall|k: int| from <= k < middle implies #[trigger] held(
                    out@,
                    left@,
                    i as int,
                    k,
                ) by {
                    assert(held(before, left@, i as int, k));
                    lemma_held_push(before, next, left@, i as int, k);
                }
            }
            j = j + 1;
        }
    }
    proof {
        assert forall|k: int| from <= k < to implies #[trigger] out@.contains(k as usize) by {
            if k < middle {
                assert(held(out@, left@, i as int, k));
            } else {
                assert(held(out@, right@, j as int, k));
            }
        }
    }
    out
}

proof fn lemma_held_push(s: Seq<usize>, next: usize, part: Seq<usize>, at: int, k: int)
    requires
        held(s, part, at, k),
    ensures
        held(s.push(next), part, at, k),
{
    if s.contains(k as usize) {
        let i = choose|i: int| 0 <= i < s.len() && s[i] == k as usize;
        assert(s.push(next)[i] == k as usize);
    }
}

proof fn lemma_held_after(s: Seq<usize>, part: Seq<usize>, at: int, k: int)
    requires
        0 <= at < part.len(),
        0 <= k <= usize::MAX,
        held(s, part, at, k),
    ensures
        held(s.push(part[at]), part, at + 1, k),
{
    let more = s.push(part[at]);
    if s.contains(k as usize) {
        let i = choose|i: int| 0 <= i < s.len() && s[i] == k as usize;
        assert(more[i] == k as usize);
    } else {
        let i = choose|i: int| at <= i < part.len() && #[trigger] part[i] == k;
        if i == at {
            assert(more[s.len() as int] == k as usize);
        }
    }
}

/// The indices from `from` up to `to` in order.
fn sort_range(keys: &Vec<SortKey>, from: usize, to: usize) -> (r: Vec<usize>)
    requires
        from <= to <= keys.len(),
    ensures
        orders(key_views(keys@), r@, from as int, to as int),
    decreases to - from,
{
    if to - from < 2 {
        let mut out: Vec<usize> = Vec::new();
        if from < to {
            out.push(from);
            proof {
                assert(out@[0] == from);
                assert(out@.contains(from));
            }
        }
        return out;
    }
    let middle: usize = from + (to - from) / 2;
    let left = sort_range(keys, from, middle);
    let right = sort_range(keys, middle, to);
    merge(keys, &left, &right, from, middle, to)
}

/// The order in which entries with these keys are listed: the index of the first
/// one, then that of the next, and so on.
pub fn listing_order(keys: &Vec<SortKey>) -> (r: Vec<usize>)
    ensures
        orders(key_views(keys@), r@, 0, keys@.len() as int),
{
    sort_range(keys, 0, keys.len())
}

/// Keys have a listing order.
pub proof fn law_listing_order_exists(keys: Seq<KeyView>)
    requires
        keys.len() <= usize::MAX,
    ensures
        exists|order: Seq<usize>| orders(keys, order, 0, keys.len() as int),
{
    lemma_order_of_start(keys, keys.len() as int);
}

proof fn lemma_order_of_start(keys: Seq<KeyView>, n: int)
    requires
        0 <= n <= keys.len() <= usize::MAX,
    ensures
        exists|order: Seq<usize>| orders(keys, order, 0, n),
    decreases n,
{
    if n == 0 {
        assert(orders(keys, Seq::<usize>::empty(), 0, 0));
    } else {
        lemma_order_of_start(keys, n - 1);
        let before: int = n - 1;
        let order = choose|order: Seq<usize>| orders(keys, order, 0, before);
        let p = place_for(keys, order, n - 1);
        lemma_place_for(keys, order, n - 1);
        let last = (n - 1) as usize;
        let more = order.take(p).push(last) + order.skip(p);
        assert forall|i: int| 0 <= i < more.len() implies 0 <= #[trigger] more[i] < n by {
            if i > p {
                assert(more[i] == order[i - 1]);
            } else if i < p {
                assert(more[i] == order[i]);
            }
        }
        assert forall|k: int| 0 <= k < n implies #[trigger] more.contains(k as usize) by {
            if k == n - 1 {
                assert(more[p] == last);
            } else {
                assert(order.contains(k as usize));
                let i = choose|i: int| 0 <= i < order.len() && order[i] == k as usize;
                assert(more[if i < p { i } else { i + 1 }] == k as usize);
            }
        }
        assert forall|i: int, j: int| 0 <= i < j < more.len() implies listed_before(
            keys,
            #[trigger] more[i] as int,
            #[trigger] more[j] as int,
        ) by {
            if i < p {
                assert(more[i] == order[i]);
            } else if i > p {
                assert(more[i] == order[i - 1]);
            }
            if j < p {
                assert(more[j] == order[j]);
            } else if j > p {
                assert(more[j] == order[j - 1]);
            }
            if i == p {
                law_listing_order(keys, order[p] as int, n - 1, order[p] as int);
                law_listing_order(keys, n - 1, order[p] as int, order[j - 1] as int);
            }
        }
        assert(orders(keys, more, 0, n));
    }
}

/// How many of the indices in `order`, from the first on, are listed before `k`.
spec fn place_for(keys: Seq<KeyView>, order: Seq<usize>, k: int) -> int
    decreases order.len(),
{
    if order.len() > 0 && listed_before(keys, order[0] as int, k) {
        1 + place_for(keys, order.skip(1), k)
    } else {
        0
    }
}

proof fn lemma_place_for(keys: Seq<KeyView>, order: Seq<usize>, k: int)
    ensures
        0 <= place_for(keys, order, k) <= order.len(),
        forall|i: int|
            0 <= i < place_for(keys, order, k) ==> listed_before(keys, #[trigger] order[i] as int, k),
        place_for(keys, order, k) < order.len() ==> !listed_before(
            keys,
            order[place_for(keys, order, k)] as int,
            k,
        ),
    decreases order.len(),
{
    if order.len() > 0 && listed_before(keys, order[0] as int, k) {
        let rest = order.skip(1);
        lemma_place_for(keys, rest, k);
        assert forall|i: int| 0 <= i < place_for(keys, order, k) implies listed_before(
            keys,
            #[trigger] order[i] as int,
            k,
        ) by {
            if i > 0 {
                assert(order[i] == rest[i - 1]);
            }
        }
    }
}

/// Keys have one listing order.
pub proof fn law_one_listing_order(
    keys: Seq<KeyView>,
    a: Seq<usize>,
    b: Seq<usize>,
    from: int,
    to: int,
)
    requires
        0 <= from <= to <= usize::MAX,
        orders(keys, a, from, to),
        orders(keys, b, from, to),
    ensures
        a == b,
{
    assert forall|n: int| 0 <= n <= a.len() implies #[trigger] a.take(n) == b.take(n) by {
        lemma_same_start(keys, a, b, from, to, n);
    }
    assert(a.take(a.len() as int) =~= a);
    assert(b.take(a.len() as int) =~= b);
}

proof fn lemma_same_start(
    keys: Seq<KeyView>,
    a: Seq<usize>,
    b: Seq<usize>,
    from: int,
    to: int,
    n: int,
)
    requires
        0 <= from <= to <= usize::MAX,
        orders(keys, a, from, to),
        orders(keys, b, from, to),
        0 <= n <= a.len(),
    ensures
        a.take(n) == b.take(n),
    decreases n,
{
    if n > 0 {
        lemma_same_start(keys, a, b, from, to, n - 1);
        let x = a[n - 1] as int;
        let y = b[n - 1] as int;
        assert(b.contains(x as usize));
        assert(a.contains(y as usize));
        let p = choose|p: int| 0 <= p < b.len() && b[p] == x as usize;
        let q = choose|q: int| 0 <= q < a.len() && a[q] == y as usize;
        if p < n - 1 {
            assert(a.take(n - 1)[p] == b.take(n - 1)[p]);
            assert(listed_before(keys, a[p] as int, a[n - 1] as int));
            law_listing_order(keys, x, x, x);
        }
        if q < n - 1 {
            assert(a.take(n - 1)[q] == b.take(n - 1)[q]);
            assert(listed_before(keys, b[q] as int, b[n - 1] as int));
            law_listing_order(keys, y, y, y);
        }
        if p > n - 1 && q > n - 1 {
            assert(listed_before(keys, b[n - 1] as int, b[p] as int));
            assert(listed_before(keys, a[n - 1] as int, a[q] as int));
            law_listing_order(keys, x, y, x);
        }
        assert(x == y);
        assert(a.take(n) =~= a.take(n - 1).push(a[n - 1]));
        assert(b.take(n) =~= b.take(n - 1).push(b[n - 1]));
    } else {
        assert(a.take(n) =~= b.take(n));
    }
}

} // verus!
