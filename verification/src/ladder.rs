//! One side of the book: price ticks mapped to quantity ticks, kept in
//! price order.
use vstd::prelude::*;

verus! {

/// Prices rise strictly along the sequence.
pub open spec fn strictly_ascending(s: Seq<(i64, i64)>) -> bool {
    forall|i: int, j: int| 0 <= i < j < s.len() ==> s[i].0 < s[j].0
}

/// No level stands with a quantity of zero.
pub open spec fn no_empty_level(s: Seq<(i64, i64)>) -> bool {
    forall|i: int| 0 <= i < s.len() ==> s[i].1 != 0
}

/// Some level of `s` has the price `price`.
pub open spec fn has_price(s: Seq<(i64, i64)>, price: i64) -> bool {
    exists|i: int| 0 <= i < s.len() && s[i].0 == price
}

/// The position of a level with the price `price`, where there is one.
pub open spec fn position_of(s: Seq<(i64, i64)>, price: i64) -> int {
    choose|i: int| 0 <= i < s.len() && s[i].0 == price
}

/// The levels of `s` as a map from price to quantity.
pub open spec fn levels_map(s: Seq<(i64, i64)>) -> Map<i64, i64> {
    Map::new(|p: i64| has_price(s, p), |p: i64| s[position_of(s, p)].1)
}

/// The map after one absolute level change: a quantity of zero removes the
/// price, any other quantity replaces what stood there.
pub open spec fn set_level(m: Map<i64, i64>, price: i64, qty: i64) -> Map<i64, i64> {
    if qty == 0 {
        m.remove(price)
    } else {
        m.insert(price, qty)
    }
}

/// The map after a run of absolute level changes, applied in order.
pub open spec fn apply_changes(m: Map<i64, i64>, changes: Seq<(i64, i64)>) -> Map<i64, i64>
    decreases changes.len(),
{
    if changes.len() == 0 {
        m
    } else {
        set_level(apply_changes(m, changes.drop_last()), changes.last().0, changes.last().1)
    }
}

/// The map after the levels of a snapshot have been entered in order: a
/// level with a quantity of zero is passed over, any other replaces what
/// stood at its price.
pub open spec fn load_levels(m: Map<i64, i64>, levels: Seq<(i64, i64)>) -> Map<i64, i64>
    decreases levels.len(),
{
    if levels.len() == 0 {
        m
    } else if levels.last().1 == 0 {
        load_levels(m, levels.drop_last())
    } else {
        load_levels(m, levels.drop_last()).insert(levels.last().0, levels.last().1)
    }
}

/// No price of the map stands with a quantity of zero.
pub open spec fn all_levels_filled(m: Map<i64, i64>) -> bool {
    forall|p: i64| m.contains_key(p) ==> m[p] != 0
}

/// `a` comes before `b` when a side is read best price first: the higher
/// price where the side is read downwards, the lower one otherwise.
pub open spec fn comes_before(a: i64, b: i64, descending: bool) -> bool {
    if descending {
        a > b
    } else {
        a < b
    }
}

/// `out` holds the best `n` levels of `m`, best first: it has at most `n`
/// levels, each is a level of `m`, they stand in strict price order, and a
/// price of `m` is missing from `out` only when `out` is full and every price
/// in it comes before the missing one.
pub open spec fn best_levels(
    m: Map<i64, i64>,
    n: nat,
    out: Seq<(i64, i64)>,
    descending: bool,
) -> bool {
    &&& out.len() <= n
    &&& forall|i: int| 0 <= i < out.len() ==> m.contains_pair(#[trigger] out[i].0, out[i].1)
    &&& forall|i: int, j: int|
        0 <= i < j < out.len() ==> comes_before(
            #[trigger] out[i].0,
            #[trigger] out[j].0,
            descending,
        )
    &&& forall|p: i64|
        m.contains_key(p) && !has_price(out, p) ==> out.len() == n && forall|i: int|
            0 <= i < out.len() ==> comes_before(#[trigger] out[i].0, p, descending)
}

/// In an ordered sequence a price stands at one position only, so the map of
/// the sequence holds each level under its price.
pub proof fn lemma_level_in_map(s: Seq<(i64, i64)>, i: int)
    requires
        strictly_ascending(s),
        0 <= i < s.len(),
    ensures
        has_price(s, s[i].0),
        position_of(s, s[i].0) == i,
        levels_map(s).contains_pair(s[i].0, s[i].1),
{
    let j = position_of(s, s[i].0);
    assert(0 <= j < s.len() && s[j].0 == s[i].0);
    if j < i {
        assert(s[j].0 < s[i].0);
    } else if i < j {
        assert(s[i].0 < s[j].0);
    }
}

/// Every key of the map of a sequence is the price of one of its levels.
pub proof fn lemma_map_key_has_level(s: Seq<(i64, i64)>, price: i64)
    requires
        strictly_ascending(s),
        levels_map(s).contains_key(price),
    ensures
        0 <= position_of(s, price) < s.len(),
        s[position_of(s, price)] == (price, levels_map(s)[price]),
{
}

/// A level put in at the place its price calls for keeps the order, and
/// the map gains that price.
proof fn lemma_insert_level(s: Seq<(i64, i64)>, idx: int, price: i64, qty: i64)
    requires
        strictly_ascending(s),
        no_empty_level(s),
        0 <= idx <= s.len(),
        forall|i: int| 0 <= i < idx ==> s[i].0 < price,
        forall|i: int| idx <= i < s.len() ==> s[i].0 > price,
        qty != 0,
    ensures
        strictly_ascending(s.insert(idx, (price, qty))),
        no_empty_level(s.insert(idx, (price, qty))),
        levels_map(s.insert(idx, (price, qty))) == levels_map(s).insert(price, qty),
{
    let t = s.insert(idx, (price, qty));
    assert(forall|i: int| 0 <= i < idx ==> t[i] == s[i]);
    assert(t[idx] == (price, qty));
    assert(forall|i: int| idx < i < t.len() ==> t[i] == s[i - 1]);
    assert(strictly_ascending(t));
    assert(no_empty_level(t));
    let m = levels_map(s).insert(price, qty);
    assert forall|k: i64| levels_map(t).contains_key(k) <==> m.contains_key(k) by {
        if has_price(t, k) {
            let i = position_of(t, k);
            if i < idx {
                assert(s[i].0 == k);
            } else if i > idx {
                assert(s[i - 1].0 == k);
            }
        }
        if has_price(s, k) {
            let i = position_of(s, k);
            if i < idx {
                assert(t[i].0 == k);
            } else {
                assert(t[i + 1].0 == k);
            }
        }
        if k == price {
            assert(t[idx].0 == k);
        }
    }
    assert forall|k: i64| levels_map(t).contains_key(k) implies levels_map(t)[k] == m[k] by {
        let i = position_of(t, k);
        lemma_level_in_map(t, i);
        if i < idx {
            assert(s[i] == t[i]);
            lemma_level_in_map(s, i);
        } else if i > idx {
            assert(s[i - 1] == t[i]);
            lemma_level_in_map(s, i - 1);
        }
    }
    assert(levels_map(t) =~= m);
}

/// A new quantity at a position keeps the order, and the map holds the
/// price with that quantity.
proof fn lemma_replace_level(s: Seq<(i64, i64)>, idx: int, qty: i64)
    requires
        strictly_ascending(s),
        no_empty_level(s),
        0 <= idx < s.len(),
        qty != 0,
    ensures
        strictly_ascending(s.update(idx, (s[idx].0, qty))),
        no_empty_level(s.update(idx, (s[idx].0, qty))),
        levels_map(s.update(idx, (s[idx].0, qty))) == levels_map(s).insert(s[idx].0, qty),
{
    let price = s[idx].0;
    let t = s.update(idx, (price, qty));
    assert(forall|i: int| 0 <= i < t.len() ==> t[i].0 == s[i].0);
    assert(strictly_ascending(t));
    assert(no_empty_level(t));
    let m = levels_map(s).insert(price, qty);
    assert forall|k: i64| levels_map(t).contains_key(k) <==> m.contains_key(k) by {
        if has_price(t, k) {
            let i = position_of(t, k);
            assert(s[i].0 == k);
        }
        if has_price(s, k) {
            let i = position_of(s, k);
            assert(t[i].0 == k);
        }
        if k == price {
            assert(t[idx].0 == k);
        }
    }
    assert forall|k: i64| levels_map(t).contains_key(k) implies levels_map(t)[k] == m[k] by {
        let i = position_of(t, k);
        lemma_level_in_map(t, i);
        if i != idx {
            assert(s[i] == t[i]);
            lemma_level_in_map(s, i);
        }
    }
    assert(levels_map(t) =~= m);
}

/// A level taken out keeps the order, and the map loses its price.
proof fn lemma_remove_level(s: Seq<(i64, i64)>, idx: int)
    requires
        strictly_ascending(s),
        no_empty_level(s),
        0 <= idx < s.len(),
    ensures
        strictly_ascending(s.remove(idx)),
        no_empty_level(s.remove(idx)),
        levels_map(s.remove(idx)) == levels_map(s).remove(s[idx].0),
{
    let price = s[idx].0;
    let t = s.remove(idx);
    assert(forall|i: int| 0 <= i < idx ==> t[i] == s[i]);
    assert(forall|i: int| idx <= i < t.len() ==> t[i] == s[i + 1]);
    assert(strictly_ascending(t));
    assert(no_empty_level(t));
    let m = levels_map(s).remove(price);
    assert forall|k: i64| levels_map(t).contains_key(k) <==> m.contains_key(k) by {
        if has_price(t, k) {
            let i = position_of(t, k);
            if i < idx {
                assert(s[i].0 == k);
                assert(s[i].0 < s[idx].0);
            } else {
                assert(s[i + 1].0 == k);
                assert(s[idx].0 < s[i + 1].0);
            }
        }
        if has_price(s, k) && k != price {
            let i = position_of(s, k);
            if i < idx {
                assert(t[i].0 == k);
            } else {
                assert(t[i - 1].0 == k);
            }
        }
    }
    assert forall|k: i64| levels_map(t).contains_key(k) implies levels_map(t)[k] == m[k] by {
        let i = position_of(t, k);
        lemma_level_in_map(t, i);
        if i < idx {
            assert(s[i] == t[i]);
            lemma_level_in_map(s, i);
        } else {
            assert(s[i + 1] == t[i]);
            lemma_level_in_map(s, i + 1);
        }
    }
    assert(levels_map(t) =~= m);
}

/// A price that falls between two neighbours is not in the map.
proof fn lemma_absent_price(s: Seq<(i64, i64)>, idx: int, price: i64)
    requires
        strictly_ascending(s),
        0 <= idx <= s.len(),
        forall|i: int| 0 <= i < idx ==> s[i].0 < price,
        forall|i: int| idx <= i < s.len() ==> s[i].0 > price,
    ensures
        !levels_map(s).contains_key(price),
        levels_map(s).remove(price) == levels_map(s),
{
    if has_price(s, price) {
        let i = position_of(s, price);
        if i < idx {
            assert(s[i].0 < price);
        } else {
            assert(s[i].0 > price);
        }
    }
    assert(levels_map(s).remove(price) =~= levels_map(s));
}

/// A prefix of an ascending sequence holds the lowest levels of its map.
proof fn lemma_prefix_is_best(s: Seq<(i64, i64)>, n: nat, k: int)
    requires
        strictly_ascending(s),
        0 <= k <= s.len(),
        k <= n,
        k == n || k == s.len(),
    ensures
        best_levels(levels_map(s), n, s.take(k), false),
{
    let out = s.take(k);
    let m = levels_map(s);
    assert forall|i: int| 0 <= i < out.len() implies m.contains_pair(
        #[trigger] out[i].0,
        out[i].1,
    ) by {
        lemma_level_in_map(s, i);
    }
    assert forall|p: i64| m.contains_key(p) && !has_price(out, p) implies out.len() == n
        && forall|i: int| 0 <= i < out.len() ==> comes_before(#[trigger] out[i].0, p, false) by {
        let at = position_of(s, p);
        if at < k {
            assert(out[at].0 == p);
        }
        assert forall|i: int| 0 <= i < out.len() implies comes_before(
            #[trigger] out[i].0,
            p,
            false,
        ) by {
            assert(s[i].0 < s[at].0);
        }
    }
}

/// The last levels of an ascending sequence, read backwards, are the highest
/// levels of its map.
proof fn lemma_suffix_is_best(s: Seq<(i64, i64)>, n: nat, out: Seq<(i64, i64)>)
    requires
        strictly_ascending(s),
        out.len() <= s.len(),
        out.len() <= n,
        out.len() == n || out.len() == s.len(),
        forall|i: int| 0 <= i < out.len() ==> out[i] == s[s.len() - 1 - i],
    ensures
        best_levels(levels_map(s), n, out, true),
{
    let m = levels_map(s);
    assert forall|i: int| 0 <= i < out.len() implies m.contains_pair(
        #[trigger] out[i].0,
        out[i].1,
    ) by {
        lemma_level_in_map(s, s.len() - 1 - i);
    }
    assert forall|i: int, j: int| 0 <= i < j < out.len() implies comes_before(
        #[trigger] out[i].0,
        #[trigger] out[j].0,
        true,
    ) by {
        assert(s[s.len() - 1 - j].0 < s[s.len() - 1 - i].0);
    }
    assert forall|p: i64| m.contains_key(p) && !has_price(out, p) implies out.len() == n
        && forall|i: int| 0 <= i < out.len() ==> comes_before(#[trigger] out[i].0, p, true) by {
        let at = position_of(s, p);
        if at >= s.len() - out.len() {
            assert(out[s.len() - 1 - at].0 == p);
        }
        assert forall|i: int| 0 <= i < out.len() implies comes_before(
            #[trigger] out[i].0,
            p,
            true,
        ) by {
            assert(s[at].0 < s[s.len() - 1 - i].0);
        }
    }
}

/// What [`best_levels`] asks for is met by one sequence only.
pub proof fn lemma_best_levels_unique(
    m: Map<i64, i64>,
    n: nat,
    a: Seq<(i64, i64)>,
    b: Seq<(i64, i64)>,
    descending: bool,
)
    requires
        best_levels(m, n, a, descending),
        best_levels(m, n, b, descending),
    ensures
        a == b,
{
    lemma_best_levels_agree(m, n, a, b, descending, a.len() as int);
    lemma_best_levels_agree(m, n, b, a, descending, b.len() as int);
    if a.len() < b.len() {
        let p = b[a.len() as int].0;
        assert(m.contains_key(p));
        if has_price(a, p) {
            let i = position_of(a, p);
            assert(a[i] == b[i]);
            assert(comes_before(b[i].0, b[a.len() as int].0, descending));
        }
    } else if b.len() < a.len() {
        let p = a[b.len() as int].0;
        assert(m.contains_key(p));
        if has_price(b, p) {
            let i = position_of(b, p);
            assert(a[i] == b[i]);
            assert(comes_before(a[i].0, a[b.len() as int].0, descending));
        }
    }
    assert(a =~= b);
}

/// Two answers to [`best_levels`] agree on the first `k` positions that both
/// have.
proof fn lemma_best_levels_agree(
    m: Map<i64, i64>,
    n: nat,
    a: Seq<(i64, i64)>,
    b: Seq<(i64, i64)>,
    descending: bool,
    k: int,
)
    requires
        best_levels(m, n, a, descending),
        best_levels(m, n, b, descending),
        0 <= k <= a.len(),
    ensures
        forall|i: int| 0 <= i < k && i < b.len() ==> a[i] == b[i],
    decreases k,
{
    if k > 0 {
        lemma_best_levels_agree(m, n, a, b, descending, k - 1);
        let i = k - 1;
        if i < b.len() {
            let pa = a[i].0;
            let pb = b[i].0;
            assert(m.contains_pair(pa, a[i].1));
            assert(m.contains_pair(pb, b[i].1));
            lemma_not_before(m, n, a, b, descending, i);
            lemma_not_before(m, n, b, a, descending, i);
        }
    }
}

/// Where `other` agrees with `holder` on every position before `i`, the
/// price that `other` has at `i` does not come before the one `holder` has
/// there.
proof fn lemma_not_before(
    m: Map<i64, i64>,
    n: nat,
    holder: Seq<(i64, i64)>,
    other: Seq<(i64, i64)>,
    descending: bool,
    i: int,
)
    requires
        best_levels(m, n, holder, descending),
        best_levels(m, n, other, descending),
        0 <= i < holder.len(),
        0 <= i < other.len(),
        forall|j: int| 0 <= j < i ==> other[j] == holder[j],
    ensures
        !comes_before(other[i].0, holder[i].0, descending),
{
    let p = other[i].0;
    assert(m.contains_pair(other[i].0, other[i].1));
    if comes_before(p, holder[i].0, descending) {
        if has_price(holder, p) {
            let at = position_of(holder, p);
            if at < i {
                assert(other[at] == holder[at]);
                assert(comes_before(other[at].0, other[i].0, descending));
            } else if at > i {
                assert(comes_before(holder[i].0, holder[at].0, descending));
            }
        } else {
            assert(comes_before(holder[i].0, p, descending));
        }
    }
}

/// The same level change made twice in a row leaves what the first one left.
pub proof fn lemma_set_level_idempotent(m: Map<i64, i64>, price: i64, qty: i64)
    ensures
        set_level(set_level(m, price, qty), price, qty) == set_level(m, price, qty),
{
    assert(set_level(set_level(m, price, qty), price, qty) =~= set_level(m, price, qty));
}

/// A level change with a quantity of zero takes the price out of the map,
/// and a change of any other quantity puts it in with that quantity. No
/// other price is touched.
pub proof fn lemma_set_level_effect(m: Map<i64, i64>, price: i64, qty: i64)
    ensures
        qty == 0 ==> !set_level(m, price, qty).contains_key(price),
        qty != 0 ==> set_level(m, price, qty).contains_pair(price, qty),
        forall|p: i64|
            p != price ==> (set_level(m, price, qty).contains_key(p) <==> m.contains_key(p)),
        forall|p: i64|
            p != price && m.contains_key(p) ==> set_level(m, price, qty)[p] == m[p],
        all_levels_filled(m) ==> all_levels_filled(set_level(m, price, qty)),
{
}

/// A price that the map does not hold is in no answer to [`best_levels`].
pub proof fn lemma_absent_from_best(
    m: Map<i64, i64>,
    n: nat,
    out: Seq<(i64, i64)>,
    descending: bool,
    price: i64,
)
    requires
        best_levels(m, n, out, descending),
        !m.contains_key(price),
    ensures
        !has_price(out, price),
{
    if has_price(out, price) {
        let i = position_of(out, price);
        assert(m.contains_pair(out[i].0, out[i].1));
    }
}

/// Level changes never leave a price with a quantity of zero.
pub proof fn lemma_changes_keep_levels_filled(m: Map<i64, i64>, changes: Seq<(i64, i64)>)
    requires
        all_levels_filled(m),
    ensures
        all_levels_filled(apply_changes(m, changes)),
    decreases changes.len(),
{
    if changes.len() > 0 {
        lemma_changes_keep_levels_filled(m, changes.drop_last());
    }
}

/// What a snapshot leaves in an empty map is what it names, and no more: a
/// price is held exactly when some level of the snapshot names it with a
/// quantity other than zero, and no price is held with a quantity of zero.
pub proof fn lemma_loaded_levels(levels: Seq<(i64, i64)>, price: i64)
    ensures
        load_levels(Map::empty(), levels).contains_key(price) <==> exists|i: int|
            0 <= i < levels.len() && (#[trigger] levels[i]).0 == price && levels[i].1 != 0,
        all_levels_filled(load_levels(Map::empty(), levels)),
    decreases levels.len(),
{
    if levels.len() > 0 {
        let front = levels.drop_last();
        lemma_loaded_levels(front, price);
        assert forall|p: i64| #[trigger]
            load_levels(Map::empty(), levels).contains_key(p) implies load_levels(
            Map::empty(),
            levels,
        )[p] != 0 by {
            lemma_loaded_levels(front, p);
        }
        if load_levels(Map::empty(), levels).contains_key(price) {
            if levels.last().0 == price && levels.last().1 != 0 {
                assert(levels[levels.len() - 1].0 == price);
            } else {
                let i = choose|i: int|
                    0 <= i < front.len() && (#[trigger] front[i]).0 == price && front[i].1 != 0;
                assert(levels[i] == front[i]);
            }
        }
        if exists|i: int|
            0 <= i < levels.len() && (#[trigger] levels[i]).0 == price && levels[i].1 != 0 {
            let i = choose|i: int|
                0 <= i < levels.len() && (#[trigger] levels[i]).0 == price && levels[i].1 != 0;
            if i < front.len() {
                assert(front[i] == levels[i]);
            }
        }
    }
}

/// An ordered run of levels has as many prices as it has levels.
proof fn lemma_levels_count(s: Seq<(i64, i64)>)
    requires
        strictly_ascending(s),
    ensures
        levels_map(s).dom().finite(),
        levels_map(s).dom().len() == s.len(),
    decreases s.len(),
{
    if s.len() == 0 {
        assert(levels_map(s).dom() =~= Set::<i64>::empty());
    } else {
        let front = s.drop_last();
        let last = s.last();
        lemma_levels_count(front);
        assert forall|p: i64| levels_map(s).dom().contains(p) <==> levels_map(front).dom().insert(
            last.0,
        ).contains(p) by {
            if has_price(s, p) {
                let i = position_of(s, p);
                if i < front.len() {
                    assert(front[i].0 == p);
                }
            }
            if has_price(front, p) {
                let i = position_of(front, p);
                assert(s[i].0 == p);
            }
            if p == last.0 {
                assert(s[s.len() - 1].0 == p);
            }
        }
        assert(levels_map(s).dom() =~= levels_map(front).dom().insert(last.0));
        if has_price(front, last.0) {
            let i = position_of(front, last.0);
            assert(s[i].0 < s[s.len() - 1].0);
        }
    }
}

/// One side of the book: its levels in rising price order, none of them
/// with a quantity of zero.
#[derive(Debug)]
pub struct Ladder {
    levels: Vec<(i64, i64)>,
}

impl View for Ladder {
    type V = Map<i64, i64>;

    closed spec fn view(&self) -> Map<i64, i64> {
        levels_map(self.levels@)
    }
}

impl Clone for Ladder {
    fn clone(&self) -> (copy: Ladder)
        ensures
            copy@ == self@,
    {
        proof {
            use_type_invariant(self);
        }
        let mut levels: Vec<(i64, i64)> = Vec::new();
        let mut i: usize = 0;
        while i < self.levels.len()
            invariant
                i <= self.levels.len(),
                levels@ == self.levels@.take(i as int),
            decreases self.levels.len() - i,
        {
            levels.push(self.levels[i]);
            assert(levels@ =~= self.levels@.take(i + 1));
            i = i + 1;
        }
        assert(levels@ =~= self.levels@);
        Ladder { levels }
    }
}

impl Ladder {
    /// What every ladder keeps: rising prices and no quantity of zero.
    #[verifier::type_invariant]
    pub closed spec fn ordered(&self) -> bool {
        strictly_ascending(self.levels@) && no_empty_level(self.levels@)
    }

    /// An ordered ladder holds no price with a quantity of zero, and
    /// finitely many prices.
    pub proof fn lemma_levels_filled(self)
        requires
            self.ordered(),
        ensures
            all_levels_filled(self@),
            self@.dom().finite(),
    {
        lemma_levels_count(self.levels@);
        assert forall|p: i64| self@.contains_key(p) implies self@[p] != 0 by {
            lemma_map_key_has_level(self.levels@, p);
        }
    }

    /// A side without levels.
    pub fn new() -> (l: Ladder)
        ensures
            l@ == Map::<i64, i64>::empty(),
    {
        let l = Ladder { levels: Vec::new() };
        assert(l@ =~= Map::<i64, i64>::empty());
        l
    }

    /// The first position whose price is not below `price`.
    fn lower_bound(&self, price: i64) -> (idx: usize)
        ensures
            idx <= self.levels.len(),
            forall|i: int| 0 <= i < idx ==> self.levels[i].0 < price,
            forall|i: int| idx <= i < self.levels.len() ==> self.levels[i].0 >= price,
    {
        proof {
            use_type_invariant(self);
        }
        let mut lo: usize = 0;
        let mut hi: usize = self.levels.len();
        while lo < hi
            invariant
                lo <= hi <= self.levels.len(),
                strictly_ascending(self.levels@),
                forall|i: int| 0 <= i < lo ==> self.levels[i].0 < price,
                forall|i: int| hi <= i < self.levels.len() ==> self.levels[i].0 >= price,
            decreases hi - lo,
        {
            let mid: usize = lo + (hi - lo) / 2;
            if self.levels[mid].0 < price {
                lo = mid + 1;
            } else {
                hi = mid;
            }
        }
        lo
    }

    /// The quantity at `price`, where the side has that price.
    pub fn get(&self, price: i64) -> (qty: Option<i64>)
        ensures
            qty == (if self@.contains_key(price) {
                Some(self@[price])
            } else {
                None
            }),
            qty matches Some(q) ==> q != 0,
    {
        proof {
            use_type_invariant(self);
        }
        let idx = self.lower_bound(price);
        if idx < self.levels.len() && self.levels[idx].0 == price {
            proof {
                lemma_level_in_map(self.levels@, idx as int);
            }
            Some(self.levels[idx].1)
        } else {
            proof {
                lemma_absent_price(self.levels@, idx as int, price);
            }
            None
        }
    }

    /// One absolute level change: see [`set_level`].
    pub fn set(&mut self, price: i64, qty: i64)
        ensures
            final(self)@ == set_level(old(self)@, price, qty),
    {
        proof {
            use_type_invariant(&*self);
        }
        let idx = self.lower_bound(price);
        let found = idx < self.levels.len() && self.levels[idx].0 == price;
        if !found && qty == 0 {
            proof {
                lemma_absent_price(self.levels@, idx as int, price);
            }
            return ;
        }
        // The levels are changed outside the ladder and put back in order.
        let mut levels: Vec<(i64, i64)> = Vec::new();
        core::mem::swap(&mut self.levels, &mut levels);
        if found {
            if qty == 0 {
                proof {
                    lemma_remove_level(levels@, idx as int);
                }
                levels.remove(idx);
            } else {
                proof {
                    lemma_replace_level(levels@, idx as int, qty);
                }
                levels.set(idx, (price, qty));
            }
        } else {
            proof {
                lemma_insert_level(levels@, idx as int, price, qty);
            }
            levels.insert(idx, (price, qty));
        }
        self.levels = levels;
    }

    /// How many levels the side has.
    pub fn len(&self) -> (n: usize)
        ensures
            self@.dom().finite(),
            n == self@.dom().len(),
    {
        proof {
            use_type_invariant(self);
            lemma_levels_count(self.levels@);
        }
        self.levels.len()
    }

    /// Makes every change of `changes`, in order: see [`apply_changes`].
    pub fn apply(&mut self, changes: &Vec<(i64, i64)>)
        ensures
            final(self)@ == apply_changes(old(self)@, changes@),
    {
        let ghost before = self@;
        let mut i: usize = 0;
        while i < changes.len()
            invariant
                i <= changes.len(),
                self@ == apply_changes(before, changes@.take(i as int)),
            decreases changes.len() - i,
        {
            let change = changes[i];
            self.set(change.0, change.1);
            assert(changes@.take(i + 1).drop_last() =~= changes@.take(i as int));
            i = i + 1;
        }
        assert(changes@.take(i as int) =~= changes@);
    }

    /// Enters every level of `levels`, in order, but for those with a
    /// quantity of zero: see [`load_levels`].
    pub fn load(&mut self, levels: &Vec<(i64, i64)>)
        ensures
            final(self)@ == load_levels(old(self)@, levels@),
    {
        let ghost before = self@;
        let mut i: usize = 0;
        while i < levels.len()
            invariant
                i <= levels.len(),
                self@ == load_levels(before, levels@.take(i as int)),
            decreases levels.len() - i,
        {
            let level = levels[i];
            if level.1 != 0 {
                self.set(level.0, level.1);
            }
            assert(levels@.take(i + 1).drop_last() =~= levels@.take(i as int));
            i = i + 1;
        }
        assert(levels@.take(i as int) =~= levels@);
    }

    /// Up to `n` levels, lowest price first.
    pub fn lowest(&self, n: usize) -> (out: Vec<(i64, i64)>)
        ensures
            best_levels(self@, n as nat, out@, false),
    {
        proof {
            use_type_invariant(self);
        }
        let count: usize = if n < self.levels.len() {
            n
        } else {
            self.levels.len()
        };
        let mut out: Vec<(i64, i64)> = Vec::new();
        let mut i: usize = 0;
        while i < count
            invariant
                i <= count <= self.levels.len(),
                out@ == self.levels@.take(i as int),
            decreases count - i,
        {
            out.push(self.levels[i]);
            assert(out@ =~= self.levels@.take(i + 1));
            i = i + 1;
        }
        proof {
            lemma_prefix_is_best(self.levels@, n as nat, count as int);
        }
        out
    }

    /// Up to `n` levels, highest price first.
    pub fn highest(&self, n: usize) -> (out: Vec<(i64, i64)>)
        ensures
            best_levels(self@, n as nat, out@, true),
    {
        proof {
            use_type_invariant(self);
        }
        let len: usize = self.levels.len();
        let count: usize = if n < len {
            n
        } else {
            len
        };
        let mut out: Vec<(i64, i64)> = Vec::new();
        let mut i: usize = 0;
        while i < count
            invariant
                i <= count <= len,
                len == self.levels.len(),
                out.len() == i,
                forall|j: int| 0 <= j < i ==> out[j] == self.levels[len - 1 - j],
            decreases count - i,
        {
            out.push(self.levels[len - 1 - i]);
            i = i + 1;
        }
        proof {
            lemma_suffix_is_best(self.levels@, n as nat, out@);
        }
        out
    }
}

} // verus!
