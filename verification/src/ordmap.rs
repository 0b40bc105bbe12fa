//! A map that is walked in the order of its keys.
use crate::text;
use vstd::prelude::*;

verus! {

/// A key type: its values are told apart and ordered by what they view to.
pub trait Key: View + Sized {
    /// Whether key `a` comes before key `b`.
    spec fn precedes(a: Self::V, b: Self::V) -> bool;

    /// No key comes before itself.
    proof fn irreflexive(a: Self::V)
        ensures
            !Self::precedes(a, a),
    ;

    /// The order is transitive.
    proof fn transitive(a: Self::V, b: Self::V, c: Self::V)
        requires
            Self::precedes(a, b),
            Self::precedes(b, c),
        ensures
            Self::precedes(a, c),
    ;

    /// Of two different keys one comes before the other.
    proof fn total(a: Self::V, b: Self::V)
        ensures
            a == b || Self::precedes(a, b) || Self::precedes(b, a),
    ;

    /// Whether this key comes before `other`.
    fn is_before(&self, other: &Self) -> (r: bool)
        ensures
            r == Self::precedes(self@, other@),
    ;

    /// Whether this key and `other` are the same.
    fn same_key(&self, other: &Self) -> (r: bool)
        ensures
            r == (self@ == other@),
    ;

    /// A copy of this key.
    fn copy_key(&self) -> (k: Self)
        ensures
            k@ == self@,
    ;
}

impl Key for String {
    open spec fn precedes(a: Seq<char>, b: Seq<char>) -> bool {
        text::lex_before(a, b)
    }

    proof fn irreflexive(a: Seq<char>) {
        text::lemma_lex_irreflexive(a);
    }

    proof fn transitive(a: Seq<char>, b: Seq<char>, c: Seq<char>) {
        text::lemma_lex_transitive(a, b, c);
    }

    proof fn total(a: Seq<char>, b: Seq<char>) {
        text::lemma_lex_total(a, b);
    }

    fn is_before(&self, other: &Self) -> (r: bool) {
        text::before(self.as_str(), other.as_str())
    }

    fn same_key(&self, other: &Self) -> (r: bool) {
        text::same(self.as_str(), other.as_str())
    }

    fn copy_key(&self) -> (k: Self) {
        self.clone()
    }
}

/// Whether the keys of `e` strictly increase.
pub open spec fn increasing<K: Key, B>(e: Seq<(K::V, B)>) -> bool {
    forall|i: int, j: int|
        0 <= i < j < e.len() ==> K::precedes((#[trigger] e[i]).0, (#[trigger] e[j]).0)
}

/// An index at which `e` holds the key `k`.
pub open spec fn index_of_key<A, B>(e: Seq<(A, B)>, k: A) -> int {
    choose|i: int| 0 <= i < e.len() && (#[trigger] e[i]).0 == k
}

/// Whether `e` holds the key `k`.
pub open spec fn has_key<A, B>(e: Seq<(A, B)>, k: A) -> bool {
    exists|i: int| 0 <= i < e.len() && (#[trigger] e[i]).0 == k
}

/// The map that the entries `e` make up.
pub open spec fn map_of<A, B>(e: Seq<(A, B)>) -> Map<A, B> {
    Map::new(|k: A| has_key(e, k), |k: A| e[index_of_key(e, k)].1)
}

/// The entries of `m` in the order of their keys.
pub open spec fn ordered<K: Key, B>(m: Map<K::V, B>) -> Seq<(K::V, B)> {
    choose|e: Seq<(K::V, B)>| increasing::<K, B>(e) && map_of(e) == m
}

/// Each entry of increasing entries is found under its key.
pub proof fn lemma_map_of_at<K: Key, B>(e: Seq<(K::V, B)>, i: int)
    requires
        increasing::<K, B>(e),
        0 <= i < e.len(),
    ensures
        map_of(e).contains_key(e[i].0),
        map_of(e)[e[i].0] == e[i].1,
        index_of_key(e, e[i].0) == i,
{
    let k = e[i].0;
    assert(has_key(e, k));
    let j = index_of_key(e, k);
    assert(0 <= j < e.len() && e[j].0 == k);
    if j < i {
        assert(K::precedes(e[j].0, e[i].0));
        K::irreflexive(k);
    }
    if i < j {
        assert(K::precedes(e[i].0, e[j].0));
        K::irreflexive(k);
    }
}

/// There is one way to put the entries of a map in order.
pub proof fn lemma_ordered_unique<K: Key, B>(a: Seq<(K::V, B)>, b: Seq<(K::V, B)>)
    requires
        increasing::<K, B>(a),
        increasing::<K, B>(b),
        map_of(a) == map_of(b),
    ensures
        a == b,
    decreases a.len(),
{
    if a.len() == 0 {
        if b.len() > 0 {
            lemma_map_of_at::<K, B>(b, 0);
            assert(has_key(a, b[0].0));
        }
        assert(a =~= b);
    } else {
        lemma_map_of_at::<K, B>(a, 0);
        assert(has_key(b, a[0].0));
        let j = index_of_key(b, a[0].0);
        assert(b[j].0 == a[0].0);
        lemma_map_of_at::<K, B>(b, 0);
        assert(has_key(a, b[0].0));
        let i = index_of_key(a, b[0].0);
        assert(a[i].0 == b[0].0);
        if j > 0 {
            assert(K::precedes(b[0].0, b[j].0));
            if i > 0 {
                assert(K::precedes(a[0].0, a[i].0));
                K::transitive(a[0].0, b[0].0, a[0].0);
            }
            K::irreflexive(a[0].0);
            assert(false);
        }
        assert(a[0] == b[0]);
        let k = a[0].0;
        let a1 = a.drop_first();
        let b1 = b.drop_first();
        assert(increasing::<K, B>(a1)) by {
            assert forall|x: int, y: int| 0 <= x < y < a1.len() implies K::precedes(
                (#[trigger] a1[x]).0,
                (#[trigger] a1[y]).0,
            ) by {
                assert(a1[x] == a[x + 1] && a1[y] == a[y + 1]);
            }
        }
        assert(increasing::<K, B>(b1)) by {
            assert forall|x: int, y: int| 0 <= x < y < b1.len() implies K::precedes(
                (#[trigger] b1[x]).0,
                (#[trigger] b1[y]).0,
            ) by {
                assert(b1[x] == b[x + 1] && b1[y] == b[y + 1]);
            }
        }
        lemma_map_of_drop_first::<K, B>(a);
        lemma_map_of_drop_first::<K, B>(b);
        lemma_ordered_unique::<K, B>(a1, b1);
        assert(a =~= seq![a[0]] + a1);
        assert(b =~= seq![b[0]] + b1);
    }
}

proof fn lemma_map_of_drop_first<K: Key, B>(a: Seq<(K::V, B)>)
    requires
        increasing::<K, B>(a),
        a.len() > 0,
    ensures
        map_of(a.drop_first()) == map_of(a).remove(a[0].0),
{
    let a1 = a.drop_first();
    let k0 = a[0].0;
    assert(increasing::<K, B>(a1)) by {
        assert forall|x: int, y: int| 0 <= x < y < a1.len() implies K::precedes(
            (#[trigger] a1[x]).0,
            (#[trigger] a1[y]).0,
        ) by {
            assert(a1[x] == a[x + 1] && a1[y] == a[y + 1]);
        }
    }
    assert forall|k: K::V| map_of(a1).contains_key(k) == map_of(a).remove(k0).contains_key(k) by {
        if has_key(a1, k) {
            let i = index_of_key(a1, k);
            assert(a1[i] == a[i + 1]);
            assert(has_key(a, k));
            assert(K::precedes(a[0].0, a[i + 1].0));
            K::irreflexive(k0);
        }
        if has_key(a, k) && k != k0 {
            let i = index_of_key(a, k);
            assert(a1[i - 1] == a[i]);
            assert(has_key(a1, k));
        }
    }
    assert forall|k: K::V| map_of(a1).contains_key(k) implies map_of(a1)[k] == map_of(a).remove(
        k0,
    )[k] by {
        let i = index_of_key(a1, k);
        assert(a1[i] == a[i + 1]);
        lemma_map_of_at::<K, B>(a1, i);
        lemma_map_of_at::<K, B>(a, i + 1);
        assert(map_of(a).remove(k0).contains_key(k));
    }
    assert(map_of(a1) =~= map_of(a).remove(k0));
}

/// Increasing entries are the ordered entries of the map they make up.
pub proof fn lemma_ordered_is<K: Key, B>(e: Seq<(K::V, B)>)
    requires
        increasing::<K, B>(e),
    ensures
        ordered::<K, B>(map_of(e)) == e,
{
    let m = map_of(e);
    let o = ordered::<K, B>(m);
    assert(increasing::<K, B>(o) && map_of(o) == m);
    lemma_ordered_unique::<K, B>(o, e);
}

/// Entries with one more behind them, whose key comes after the others.
pub proof fn lemma_increasing_push<K: Key, B>(e: Seq<(K::V, B)>, k: K::V, b: B)
    requires
        increasing::<K, B>(e),
        e.len() > 0 ==> K::precedes(e.last().0, k),
    ensures
        increasing::<K, B>(e.push((k, b))),
        map_of(e.push((k, b))) == map_of(e).insert(k, b),
        !map_of(e).contains_key(k),
{
    let f = e.push((k, b));
    assert forall|i: int, j: int| 0 <= i < j < f.len() implies K::precedes(
        (#[trigger] f[i]).0,
        (#[trigger] f[j]).0,
    ) by {
        if j == e.len() {
            if i < e.len() - 1 {
                assert(K::precedes(e[i].0, e[e.len() - 1].0));
                K::transitive(e[i].0, e.last().0, k);
            }
        } else {
            assert(f[i] == e[i] && f[j] == e[j]);
        }
    }
    assert(e.insert(e.len() as int, (k, b)) =~= f);
    lemma_insert_at::<K, B>(e, e.len() as int, k, b);
}

/// The first entries of increasing entries, and one more of them.
pub proof fn lemma_take_next<K: Key, B>(e: Seq<(K::V, B)>, i: int)
    requires
        increasing::<K, B>(e),
        0 <= i < e.len(),
    ensures
        increasing::<K, B>(e.take(i)),
        increasing::<K, B>(e.take(i + 1)),
        e.take(i + 1) == e.take(i).push(e[i]),
        map_of(e.take(i + 1)) == map_of(e.take(i)).insert(e[i].0, e[i].1),
        !map_of(e.take(i)).contains_key(e[i].0),
{
    let f = e.take(i);
    assert forall|x: int, y: int| 0 <= x < y < f.len() implies K::precedes(
        (#[trigger] f[x]).0,
        (#[trigger] f[y]).0,
    ) by {
        assert(f[x] == e[x] && f[y] == e[y]);
    }
    assert(e.take(i + 1) =~= f.push(e[i]));
    if i > 0 {
        assert(f.last() == e[i - 1]);
    }
    assert(e[i] == (e[i].0, e[i].1));
    lemma_increasing_push::<K, B>(f, e[i].0, e[i].1);
}

/// The map of no entries is empty.
pub proof fn lemma_map_of_empty<K: Key, B>()
    ensures
        increasing::<K, B>(Seq::empty()),
        map_of(Seq::<(K::V, B)>::empty()) == Map::<K::V, B>::empty(),
{
    assert(map_of(Seq::<(K::V, B)>::empty()) =~= Map::<K::V, B>::empty());
}

/// Entries with one more at the place of its key.
proof fn lemma_insert_at<K: Key, B>(e: Seq<(K::V, B)>, n: int, k: K::V, b: B)
    requires
        increasing::<K, B>(e),
        0 <= n <= e.len(),
        increasing::<K, B>(e.insert(n, (k, b))),
    ensures
        map_of(e.insert(n, (k, b))) == map_of(e).insert(k, b),
        !map_of(e).contains_key(k),
{
    let f = e.insert(n, (k, b));
    assert(f[n] == (k, b));
    if has_key(e, k) {
        let i = index_of_key(e, k);
        if i < n {
            assert(f[i] == e[i]);
        } else {
            assert(f[i + 1] == e[i]);
        }
        K::irreflexive(k);
        assert(false);
    }
    assert forall|x: K::V| map_of(f).contains_key(x) == map_of(e).insert(k, b).contains_key(x) by {
        if has_key(f, x) && x != k {
            let i = index_of_key(f, x);
            if i < n {
                assert(e[i] == f[i]);
            } else {
                assert(e[i - 1] == f[i]);
            }
            assert(has_key(e, x));
        }
        if has_key(e, x) {
            let i = index_of_key(e, x);
            if i < n {
                assert(e[i] == f[i]);
            } else {
                assert(e[i] == f[i + 1]);
            }
            assert(has_key(f, x));
        }
        if x == k {
            assert(has_key(f, x));
        }
    }
    assert forall|x: K::V| map_of(f).contains_key(x) implies map_of(f)[x] == map_of(e).insert(
        k,
        b,
    )[x] by {
        let i = index_of_key(f, x);
        lemma_map_of_at::<K, B>(f, i);
        if i == n {
        } else if i < n {
            assert(e[i] == f[i]);
            lemma_map_of_at::<K, B>(e, i);
        } else {
            assert(e[i - 1] == f[i]);
            lemma_map_of_at::<K, B>(e, i - 1);
        }
        if x == k {
            lemma_map_of_at::<K, B>(f, n);
        }
    }
    assert(map_of(f) =~= map_of(e).insert(k, b));
}

/// Entries with the value of one of them replaced.
proof fn lemma_update_at<K: Key, B>(e: Seq<(K::V, B)>, n: int, b: B)
    requires
        increasing::<K, B>(e),
        0 <= n < e.len(),
    ensures
        increasing::<K, B>(e.update(n, (e[n].0, b))),
        map_of(e.update(n, (e[n].0, b))) == map_of(e).insert(e[n].0, b),
{
    let k = e[n].0;
    let f = e.update(n, (k, b));
    assert forall|x: int, y: int| 0 <= x < y < f.len() implies K::precedes(
        (#[trigger] f[x]).0,
        (#[trigger] f[y]).0,
    ) by {
        assert(f[x].0 == e[x].0 && f[y].0 == e[y].0);
    }
    assert forall|x: K::V| map_of(f).contains_key(x) == map_of(e).insert(k, b).contains_key(x) by {
        if has_key(f, x) {
            let i = index_of_key(f, x);
            assert(e[i].0 == f[i].0);
            assert(has_key(e, x));
        }
        if has_key(e, x) {
            let i = index_of_key(e, x);
            assert(e[i].0 == f[i].0);
            assert(has_key(f, x));
        }
        if x == k {
            assert(f[n].0 == k);
            assert(has_key(f, x));
        }
    }
    assert forall|x: K::V| map_of(f).contains_key(x) implies map_of(f)[x] == map_of(e).insert(
        k,
        b,
    )[x] by {
        let i = index_of_key(f, x);
        assert(e[i].0 == f[i].0);
        lemma_map_of_at::<K, B>(f, i);
        lemma_map_of_at::<K, B>(e, i);
        lemma_map_of_at::<K, B>(e, n);
    }
    assert(map_of(f) =~= map_of(e).insert(k, b));
}

/// Entries with one of them taken out.
proof fn lemma_remove_at<K: Key, B>(e: Seq<(K::V, B)>, n: int)
    requires
        increasing::<K, B>(e),
        0 <= n < e.len(),
    ensures
        increasing::<K, B>(e.remove(n)),
        map_of(e.remove(n)) == map_of(e).remove(e[n].0),
{
    let k = e[n].0;
    let f = e.remove(n);
    assert forall|x: int, y: int| 0 <= x < y < f.len() implies K::precedes(
        (#[trigger] f[x]).0,
        (#[trigger] f[y]).0,
    ) by {
        let x1 = if x < n { x } else { x + 1 };
        let y1 = if y < n { y } else { y + 1 };
        assert(f[x] == e[x1] && f[y] == e[y1]);
    }
    assert(f.insert(n, e[n]) =~= e);
    assert(e[n] == (k, e[n].1));
    lemma_insert_at::<K, B>(f, n, k, e[n].1);
    assert(map_of(f) =~= map_of(e).remove(k));
}

/// The place of a new key is the one that keeps the keys increasing.
proof fn lemma_gap<K: Key, B>(e: Seq<(K::V, B)>, n: int, k: K::V, b: B)
    requires
        increasing::<K, B>(e),
        0 <= n <= e.len(),
        !has_key(e, k),
        forall|j: int| 0 <= j < n ==> K::precedes((#[trigger] e[j]).0, k),
        forall|j: int| n <= j < e.len() ==> !K::precedes((#[trigger] e[j]).0, k),
    ensures
        increasing::<K, B>(e.insert(n, (k, b))),
{
    let f = e.insert(n, (k, b));
    assert forall|x: int, y: int| 0 <= x < y < f.len() implies K::precedes(
        (#[trigger] f[x]).0,
        (#[trigger] f[y]).0,
    ) by {
        let x1 = if x < n { x } else { x - 1 };
        let y1 = if y < n { y } else { y - 1 };
        if x != n {
            assert(f[x] == e[x1]);
        }
        if y != n {
            assert(f[y] == e[y1]);
        }
        if x == n {
            K::total(e[y1].0, k);
            assert(has_key(e, e[y1].0));
        } else if y == n {
        } else {
            assert(x1 < y1);
        }
    }
}

/// One more entry has a place among increasing entries.
pub proof fn lemma_order_insert<K: Key, B>(e: Seq<(K::V, B)>, k: K::V, b: B) -> (f: Seq<(K::V, B)>)
    requires
        increasing::<K, B>(e),
    ensures
        increasing::<K, B>(f),
        map_of(f) == map_of(e).insert(k, b),
        forall|i: int| 0 <= i < f.len() ==> (#[trigger] f[i]).0 == k || has_key(e, f[i].0),
    decreases e.len(),
{
    if has_key(e, k) {
        let n = index_of_key(e, k);
        lemma_update_at::<K, B>(e, n, b);
        let f = e.update(n, (e[n].0, b));
        assert forall|i: int| 0 <= i < f.len() implies (#[trigger] f[i]).0 == k || has_key(
            e,
            f[i].0,
        ) by {
            assert(f[i].0 == e[i].0);
        }
        f
    } else if e.len() == 0 {
        lemma_increasing_push::<K, B>(e, k, b);
        e.push((k, b))
    } else {
        let l = e.last();
        K::total(l.0, k);
        assert(has_key(e, l.0)) by {
            assert(e[e.len() - 1].0 == l.0);
        }
        if K::precedes(l.0, k) {
            lemma_increasing_push::<K, B>(e, k, b);
            let f = e.push((k, b));
            assert forall|i: int| 0 <= i < f.len() implies (#[trigger] f[i]).0 == k || has_key(
                e,
                f[i].0,
            ) by {
                if i < e.len() {
                    assert(f[i] == e[i]);
                }
            }
            f
        } else {
            let n = e.len() - 1;
            lemma_take_next::<K, B>(e, n);
            assert(e.take(n + 1) =~= e);
            let front = e.take(n);
            let g = lemma_order_insert::<K, B>(front, k, b);
            if g.len() > 0 {
                let x = g[g.len() - 1].0;
                if x != k {
                    let j = index_of_key(front, x);
                    assert(front[j] == e[j]);
                    assert(K::precedes(e[j].0, e[n].0));
                }
            }
            lemma_increasing_push::<K, B>(g, l.0, l.1);
            let f = g.push((l.0, l.1));
            assert(map_of(f) =~= map_of(e).insert(k, b));
            assert forall|i: int| 0 <= i < f.len() implies (#[trigger] f[i]).0 == k || has_key(
                e,
                f[i].0,
            ) by {
                if i < g.len() {
                    assert(f[i] == g[i]);
                    if f[i].0 != k {
                        let j = index_of_key(front, f[i].0);
                        assert(front[j] == e[j]);
                    }
                }
            }
            f
        }
    }
}

/// The entries of a finite map can be put in order.
pub proof fn lemma_ordered_exists<K: Key, B>(m: Map<K::V, B>)
    requires
        m.dom().finite(),
    ensures
        increasing::<K, B>(ordered::<K, B>(m)),
        map_of(ordered::<K, B>(m)) == m,
{
    let e = lemma_some_order::<K, B>(m);
    assert(increasing::<K, B>(e) && map_of(e) == m);
}

proof fn lemma_some_order<K: Key, B>(m: Map<K::V, B>) -> (e: Seq<(K::V, B)>)
    requires
        m.dom().finite(),
    ensures
        increasing::<K, B>(e),
        map_of(e) == m,
    decreases m.dom().len(),
{
    if m.dom().len() == 0 {
        lemma_map_of_empty::<K, B>();
        assert(m =~= Map::<K::V, B>::empty());
        Seq::empty()
    } else {
        let k = m.dom().choose();
        assert(m.dom().contains(k));
        let rest = m.remove(k);
        assert(rest.dom() =~= m.dom().remove(k));
        let e = lemma_some_order::<K, B>(rest);
        let f = lemma_order_insert::<K, B>(e, k, m[k]);
        assert(rest.insert(k, m[k]) =~= m);
        f
    }
}

/// A value that can be copied without loss of what it views to.
pub trait Duplicate: View + Sized {
    /// A copy of this value.
    fn duplicate(&self) -> (r: Self)
        ensures
            r@ == self@,
    ;
}

impl Duplicate for String {
    fn duplicate(&self) -> (r: Self) {
        self.clone()
    }
}

/// A map from keys to values, walked in the order of its keys.
pub struct OrdMap<K: Key, V: View> {
    keys: Vec<K>,
    vals: Vec<V>,
}

impl<K: Key, V: View> View for OrdMap<K, V> {
    type V = Map<K::V, V::V>;

    closed spec fn view(&self) -> Map<K::V, V::V> {
        map_of(self.entries())
    }
}

impl<K: Key, V: View> OrdMap<K, V> {
    closed spec fn entries(&self) -> Seq<(K::V, V::V)> {
        Seq::new(self.keys@.len(), |i: int| (self.keys@[i]@, self.vals@[i]@))
    }

    #[verifier::type_invariant]
    closed spec fn inv(self) -> bool {
        &&& self.keys@.len() == self.vals@.len()
        &&& increasing::<K, V::V>(self.entries())
    }

    /// The empty map.
    pub fn new() -> (m: Self)
        ensures
            m@ == Map::<K::V, V::V>::empty(),
    {
        let m = OrdMap { keys: Vec::new(), vals: Vec::new() };
        assert(m@ =~= Map::<K::V, V::V>::empty());
        m
    }

    /// How many entries the map has.
    pub fn len(&self) -> (n: usize)
        ensures
            n == ordered::<K, V::V>(self@).len(),
            increasing::<K, V::V>(ordered::<K, V::V>(self@)),
            map_of(ordered::<K, V::V>(self@)) == self@,
    {
        proof {
            use_type_invariant(self);
            lemma_ordered_is::<K, V::V>(self.entries());
        }
        self.keys.len()
    }

    /// Whether the map has no entry.
    pub fn is_empty(&self) -> (r: bool)
        ensures
            r == (self@ == Map::<K::V, V::V>::empty()),
    {
        proof {
            use_type_invariant(self);
            if self.keys@.len() > 0 {
                lemma_map_of_at::<K, V::V>(self.entries(), 0);
            } else {
                assert(self@ =~= Map::<K::V, V::V>::empty());
            }
        }
        self.keys.len() == 0
    }

    /// The `i`-th key in order.
    pub fn key_at(&self, i: usize) -> (k: &K)
        requires
            i < ordered::<K, V::V>(self@).len(),
        ensures
            k@ == ordered::<K, V::V>(self@)[i as int].0,
            self@.contains_key(k@),
    {
        proof {
            use_type_invariant(self);
            lemma_ordered_is::<K, V::V>(self.entries());
            lemma_map_of_at::<K, V::V>(self.entries(), i as int);
        }
        &self.keys[i]
    }

    /// The value of the `i`-th key in order.
    pub fn val_at(&self, i: usize) -> (v: &V)
        requires
            i < ordered::<K, V::V>(self@).len(),
        ensures
            v@ == ordered::<K, V::V>(self@)[i as int].1,
            v@ == self@[ordered::<K, V::V>(self@)[i as int].0],
    {
        proof {
            use_type_invariant(self);
            lemma_ordered_is::<K, V::V>(self.entries());
            lemma_map_of_at::<K, V::V>(self.entries(), i as int);
        }
        &self.vals[i]
    }

    /// The number of keys before `k`, and whether `k` stands right behind them.
    fn locate(&self, k: &K) -> (r: (usize, bool))
        ensures
            r.0 <= self.keys@.len(),
            forall|j: int| 0 <= j < r.0 ==> K::precedes(#[trigger] self.keys@[j]@, k@),
            forall|j: int|
                r.0 <= j < self.keys@.len() ==> !K::precedes(#[trigger] self.keys@[j]@, k@),
            r.1 ==> r.0 < self.keys@.len() && self.keys@[r.0 as int]@ == k@,
            r.1 == self@.contains_key(k@),
    {
        proof {
            use_type_invariant(self);
        }
        let mut lo: usize = 0;
        let mut hi: usize = self.keys.len();
        while lo < hi
            invariant
                lo <= hi <= self.keys@.len(),
                forall|j: int| 0 <= j < lo ==> K::precedes(#[trigger] self.keys@[j]@, k@),
                forall|j: int|
                    hi <= j < self.keys@.len() ==> !K::precedes(#[trigger] self.keys@[j]@, k@),
                self.inv(),
            decreases hi - lo,
        {
            let mid: usize = lo + (hi - lo) / 2;
            let ghost e = self.entries();
            assert(forall|j: int|
                0 <= j < e.len() ==> (#[trigger] e[j]).0 == self.keys@[j]@);
            if self.keys[mid].is_before(k) {
                assert forall|j: int| 0 <= j < mid + 1 implies K::precedes(
                    #[trigger] self.keys@[j]@,
                    k@,
                ) by {
                    if j < mid {
                        assert(K::precedes(e[j].0, e[mid as int].0));
                        K::transitive(e[j].0, e[mid as int].0, k@);
                    }
                }
                lo = mid + 1;
            } else {
                assert forall|j: int| mid <= j < self.keys@.len() implies !K::precedes(
                    #[trigger] self.keys@[j]@,
                    k@,
                ) by {
                    if mid < j && K::precedes(self.keys@[j]@, k@) {
                        assert(K::precedes(e[mid as int].0, e[j].0));
                        K::transitive(e[mid as int].0, e[j].0, k@);
                    }
                }
                hi = mid;
            }
        }
        let found = lo < self.keys.len() && self.keys[lo].same_key(k);
        proof {
            let e = self.entries();
            assert(forall|j: int|
                0 <= j < e.len() ==> (#[trigger] e[j]).0 == self.keys@[j]@);
            if found {
                assert(e[lo as int].0 == k@);
                assert(has_key(e, k@));
            } else if has_key(e, k@) {
                let i = index_of_key(e, k@);
                assert(e[i].0 == k@);
                K::irreflexive(k@);
                assert(i >= lo) by {
                    if i < lo {
                        assert(K::precedes(self.keys@[i]@, k@));
                    }
                }
                if i > lo {
                    assert(K::precedes(e[lo as int].0, e[i].0));
                    assert(!K::precedes(self.keys@[lo as int]@, k@));
                }
                assert(false);
            }
        }
        (lo, found)
    }

    /// The value under `k`.
    pub fn get(&self, k: &K) -> (r: Option<&V>)
        ensures
            match r {
                Some(v) => self@.contains_key(k@) && v@ == self@[k@],
                None => !self@.contains_key(k@),
            },
    {
        let (i, found) = self.locate(k);
        if found {
            proof {
                use_type_invariant(self);
                lemma_map_of_at::<K, V::V>(self.entries(), i as int);
            }
            Some(&self.vals[i])
        } else {
            None
        }
    }

    /// Whether the map has the key `k`.
    pub fn contains_key(&self, k: &K) -> (r: bool)
        ensures
            r == self@.contains_key(k@),
    {
        let (i, found) = self.locate(k);
        found
    }

    /// Puts `v` under `k`, in place of what stood there.
    pub fn insert(&mut self, k: K, v: V)
        ensures
            final(self)@ == old(self)@.insert(k@, v@),
    {
        let (i, found) = self.locate(&k);
        proof {
            use_type_invariant(&*self);
        }
        let ghost e = self.entries();
        let ghost kv = k@;
        let ghost vv = v@;
        let mut taken = OrdMap::<K, V>::new();
        std::mem::swap(self, &mut taken);
        let OrdMap { mut keys, mut vals } = taken;
        assert(forall|j: int| 0 <= j < e.len() ==> (#[trigger] e[j]) == (keys@[j]@, vals@[j]@));
        if found {
            vals.set(i, v);
            proof {
                lemma_update_at::<K, V::V>(e, i as int, vv);
                assert(Seq::new(keys@.len(), |j: int| (keys@[j]@, vals@[j]@)) =~= e.update(
                    i as int,
                    (e[i as int].0, vv),
                ));
            }
        } else {
            keys.insert(i, k);
            vals.insert(i, v);
            proof {
                lemma_gap::<K, V::V>(e, i as int, kv, vv);
                lemma_insert_at::<K, V::V>(e, i as int, kv, vv);
                assert(Seq::new(keys@.len(), |j: int| (keys@[j]@, vals@[j]@)) =~= e.insert(
                    i as int,
                    (kv, vv),
                ));
            }
        }
        *self = OrdMap { keys, vals };
    }

    /// Takes the entry of `k` out and returns its value.
    pub fn remove(&mut self, k: &K) -> (r: Option<V>)
        ensures
            final(self)@ == old(self)@.remove(k@),
            match r {
                Some(v) => old(self)@.contains_key(k@) && v@ == old(self)@[k@],
                None => !old(self)@.contains_key(k@),
            },
    {
        let (i, found) = self.locate(k);
        if !found {
            assert(self@ =~= self@.remove(k@));
            return None;
        }
        proof {
            use_type_invariant(&*self);
        }
        let ghost e = self.entries();
        let mut taken = OrdMap::<K, V>::new();
        std::mem::swap(self, &mut taken);
        let OrdMap { mut keys, mut vals } = taken;
        assert(forall|j: int| 0 <= j < e.len() ==> (#[trigger] e[j]) == (keys@[j]@, vals@[j]@));
        keys.remove(i);
        let v = vals.remove(i);
        proof {
            lemma_remove_at::<K, V::V>(e, i as int);
            lemma_map_of_at::<K, V::V>(e, i as int);
            assert(Seq::new(keys@.len(), |j: int| (keys@[j]@, vals@[j]@)) =~= e.remove(i as int));
        }
        *self = OrdMap { keys, vals };
        Some(v)
    }
}

impl<K: Key, V: Duplicate> Duplicate for OrdMap<K, V> {
    fn duplicate(&self) -> (r: Self) {
        let n: usize = self.len();
        let ghost e = ordered::<K, V::V>(self@);
        let mut out = OrdMap::<K, V>::new();
        let mut i: usize = 0;
        proof {
            lemma_map_of_empty::<K, V::V>();
            assert(e.take(0) =~= Seq::empty());
        }
        while i < n
            invariant
                i <= n == e.len(),
                e == ordered::<K, V::V>(self@),
                increasing::<K, V::V>(e),
                out@ == map_of(e.take(i as int)),
            decreases n - i,
        {
            proof {
                lemma_take_next::<K, V::V>(e, i as int);
            }
            out.insert(self.key_at(i).copy_key(), self.val_at(i).duplicate());
            i += 1;
        }
        assert(e.take(i as int) =~= e);
        out
    }
}

/// The names under which `m` holds something, in order.
pub open spec fn names_of<B>(m: Map<Seq<char>, B>) -> Seq<Seq<char>> {
    let e = ordered::<String, B>(m);
    Seq::new(e.len(), |i: int| e[i].0)
}

/// The names under which `m` holds something, in order.
pub fn names<V: View>(m: &OrdMap<String, V>) -> (out: Vec<String>)
    ensures
        text::views(out@) == names_of(m@),
{
    let n: usize = m.len();
    let ghost e = ordered::<String, V::V>(m@);
    let mut out: Vec<String> = Vec::new();
    let mut i: usize = 0;
    while i < n
        invariant
            i <= n == e.len(),
            e == ordered::<String, V::V>(m@),
            text::views(out@) =~= Seq::new(i as nat, |j: int| e[j].0),
        decreases n - i,
    {
        let ghost before = text::views(out@);
        out.push(m.key_at(i).clone());
        assert(text::views(out@) =~= before.push(e[i as int].0));
        i += 1;
    }
    assert(text::views(out@) =~= names_of(m@));
    out
}

/// The set of the names in `v`, each name standing for itself.
pub open spec fn set_of(v: Seq<Seq<char>>) -> Map<Seq<char>, Seq<char>> {
    Map::new(|p: Seq<char>| v.contains(p), |p: Seq<char>| p)
}

/// Adding a name to the end of `v` adds it to the set.
pub proof fn lemma_set_push(v: Seq<Seq<char>>, p: Seq<char>)
    ensures
        set_of(v.push(p)) == set_of(v).insert(p, p),
        set_of(Seq::<Seq<char>>::empty()) == Map::<Seq<char>, Seq<char>>::empty(),
{
    let w = v.push(p);
    assert forall|q: Seq<char>| w.contains(q) == (v.contains(q) || q == p) by {
        if v.contains(q) {
            let j = choose|j: int| 0 <= j < v.len() && v[j] == q;
            assert(w[j] == q);
        }
        if q == p {
            assert(w[v.len() as int] == q);
        }
        if w.contains(q) && q != p {
            let j = choose|j: int| 0 <= j < w.len() && w[j] == q;
            assert(v[j] == q);
        }
    }
    assert(set_of(w) =~= set_of(v).insert(p, p));
    assert(set_of(Seq::<Seq<char>>::empty()) =~= Map::<Seq<char>, Seq<char>>::empty());
}

/// Adds the names in `v` to the set `out`.
pub fn add_names(out: &mut OrdMap<String, String>, v: &Vec<String>)
    ensures
        final(out)@ == old(out)@.union_prefer_right(set_of(text::views(v@))),
{
    let ghost start = out@;
    let ghost vs = text::views(v@);
    let mut i: usize = 0;
    proof {
        assert(vs.take(0) =~= Seq::<Seq<char>>::empty());
        lemma_set_push(vs, Seq::empty());
        assert(start.union_prefer_right(set_of(vs.take(0))) =~= start);
    }
    while i < v.len()
        invariant
            i <= v.len() == vs.len(),
            vs == text::views(v@),
            out@ == start.union_prefer_right(set_of(vs.take(i as int))),
        decreases v.len() - i,
    {
        proof {
            let p = vs[i as int];
            assert(vs.take(i + 1) =~= vs.take(i as int).push(p));
            lemma_set_push(vs.take(i as int), p);
            assert(start.union_prefer_right(set_of(vs.take(i as int)).insert(p, p))
                =~= start.union_prefer_right(set_of(vs.take(i as int))).insert(p, p));
        }
        out.insert(v[i].clone(), v[i].clone());
        i += 1;
    }
    assert(vs.take(i as int) =~= vs);
}

/// The names in `v` in order, each once.
pub open spec fn sorted_names(v: Seq<Seq<char>>) -> Seq<Seq<char>> {
    names_of(set_of(v))
}

/// The names in `v` in order, each once.
pub fn sort_names(v: &Vec<String>) -> (out: Vec<String>)
    ensures
        text::views(out@) == sorted_names(text::views(v@)),
{
    let mut set = OrdMap::<String, String>::new();
    add_names(&mut set, v);
    assert(set@ =~= set_of(text::views(v@)));
    names(&set)
}

} // verus!
