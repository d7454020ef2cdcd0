use vstd::prelude::*;

verus! {

use crate::trie::{find_key, lemma_find_key, SpecTrie};

// ---------------------------------------------------------------------------
// Shapes of patterns and tries
// ---------------------------------------------------------------------------

/// A pattern of ordinary characters: no wildcard, no end anchor.
pub open spec fn literal_pattern(k: Seq<char>) -> bool {
    forall|i: int| 0 <= i < k.len() ==> k[i] != '*' && k[i] != '\0'
}

/// Whether `a` starts `b`.
pub open spec fn is_prefix(a: Seq<char>, b: Seq<char>) -> bool {
    a.len() <= b.len() && b.take(a.len() as int) == a
}

impl<T> SpecTrie<T> {
    /// No wildcard child anywhere.
    pub open spec fn no_wild(self) -> bool
        decreases self, self.children.len() + 1int,
    {
        self.wildcard is None && self.no_wild_children(0)
    }

    pub open spec fn no_wild_children(self, i: int) -> bool
        decreases self, self.children.len() - i,
    {
        if 0 <= i < self.children.len() {
            self.children[i].1.no_wild() && self.no_wild_children(i + 1)
        } else {
            true
        }
    }

    /// No wildcard and no anchored payload anywhere: the trie of a set of
    /// literal patterns.
    pub open spec fn plain(self) -> bool
        decreases self, self.children.len() + 1int,
    {
        self.wildcard is None && self.exact is None && self.plain_children(0)
    }

    pub open spec fn plain_children(self, i: int) -> bool
        decreases self, self.children.len() - i,
    {
        if 0 <= i < self.children.len() {
            self.children[i].1.plain() && self.plain_children(i + 1)
        } else {
            true
        }
    }

    /// The `value` slot at the end of the literal path `p`, if the path
    /// exists.
    pub open spec fn node_value(self, p: Seq<char>) -> Option<T>
        decreases p.len(),
    {
        if p.len() == 0 {
            self.value
        } else {
            let i = find_key(self.children, p[0]);
            if 0 <= i < self.children.len() {
                self.children[i].1.node_value(p.skip(1))
            } else {
                None
            }
        }
    }

    /// Longest-prefix lookup: the value of the deepest node on the query's
    /// literal path that carries one.
    pub open spec fn lpv(self, q: Seq<char>) -> Option<T>
        decreases self,
    {
        if q.len() > 0 {
            let i = find_key(self.children, q[0]);
            if 0 <= i < self.children.len() {
                match self.children[i].1.lpv(q.skip(1)) {
                    Some(v) => Some(v),
                    None => self.value,
                }
            } else {
                self.value
            }
        } else {
            self.value
        }
    }
}

proof fn lemma_plain_child<T>(t: SpecTrie<T>, i: int, j: int)
    requires
        t.plain_children(i),
        i <= j < t.children.len(),
        0 <= i,
    ensures
        t.children[j].1.plain(),
    decreases j - i,
{
    if i < j {
        lemma_plain_child(t, i + 1, j);
    }
}

proof fn lemma_no_wild_child<T>(t: SpecTrie<T>, i: int, j: int)
    requires
        t.no_wild_children(i),
        i <= j < t.children.len(),
        0 <= i,
    ensures
        t.children[j].1.no_wild(),
    decreases j - i,
{
    if i < j {
        lemma_no_wild_child(t, i + 1, j);
    }
}

// ---------------------------------------------------------------------------
// find_key under children updates
// ---------------------------------------------------------------------------

proof fn lemma_find_key_keys_equal<T>(
    s1: Seq<(char, SpecTrie<T>)>,
    s2: Seq<(char, SpecTrie<T>)>,
    c: char,
)
    requires
        s1.len() == s2.len(),
        forall|k: int| 0 <= k < s1.len() ==> (#[trigger] s1[k]).0 == s2[k].0,
    ensures
        find_key(s1, c) == find_key(s2, c),
    decreases s1.len(),
{
    if s1.len() > 0 {
        assert(s1[0].0 == s2[0].0);
        lemma_find_key_keys_equal(s1.skip(1), s2.skip(1), c);
        assert forall|k: int| 0 <= k < s1.skip(1).len() implies (#[trigger] s1.skip(1)[k]).0
            == s2.skip(1)[k].0 by {
            assert(s1[k + 1].0 == s2[k + 1].0);
        }
        lemma_find_key_keys_equal(s1.skip(1), s2.skip(1), c);
    }
}

proof fn lemma_find_key_update<T>(s: Seq<(char, SpecTrie<T>)>, i: int, x: (char, SpecTrie<T>))
    requires
        0 <= i < s.len(),
        x.0 == s[i].0,
    ensures
        forall|c: char| find_key(s.update(i, x), c) == find_key(s, c),
{
    assert forall|c: char| find_key(s.update(i, x), c) == find_key(s, c) by {
        lemma_find_key_keys_equal(s.update(i, x), s, c);
    }
}

proof fn lemma_find_key_push<T>(s: Seq<(char, SpecTrie<T>)>, x: (char, SpecTrie<T>), c: char)
    ensures
        find_key(s.push(x), c) == (if find_key(s, c) >= 0 {
            find_key(s, c)
        } else if x.0 == c {
            s.len() as int
        } else {
            -1int
        }),
    decreases s.len(),
{
    if s.len() == 0 {
        assert(s.push(x)[0] == x);
        assert(s.push(x).skip(1) =~= Seq::<(char, SpecTrie<T>)>::empty());
        assert(find_key(Seq::<(char, SpecTrie<T>)>::empty(), c) == -1);
        if x.0 != c {
            assert(find_key(s.push(x), c) == -1);
        }
    } else {
        assert(s.push(x)[0] == s[0]);
        lemma_find_key_push(s.skip(1), x, c);
        assert(s.push(x).skip(1) =~= s.skip(1).push(x));
        assert(find_key(s.push(x).skip(1), c) == find_key(s.skip(1).push(x), c));
        if s[0].0 != c {
            assert(find_key(s, c) == (if find_key(s.skip(1), c) < 0 {
                -1int
            } else {
                find_key(s.skip(1), c) + 1
            }));
        }
    }
}

// ---------------------------------------------------------------------------
// Literal tries answer by longest valued prefix
// ---------------------------------------------------------------------------

/// In a trie with no wildcards and no anchors, the lookup answers exactly
/// what longest-prefix search answers.
pub proof fn lemma_plain_get_is_lpv<T>(t: SpecTrie<T>, q: Seq<char>)
    requires
        t.plain(),
    ensures
        t.get(q) == t.lpv(q),
    decreases t,
{
    if q.len() > 0 {
        let i = find_key(t.children, q[0]);
        if 0 <= i < t.children.len() {
            lemma_plain_child(t, 0, i);
            lemma_plain_get_is_lpv(t.children[i].1, q.skip(1));
        }
    }
}

/// When no proper prefix of the query reaches a valued node, longest-prefix
/// search falls back to the root's own value.
pub proof fn lemma_lpv_default<T>(t: SpecTrie<T>, q: Seq<char>)
    requires
        forall|j: int| 1 <= j <= q.len() ==> t.node_value(#[trigger] q.take(j)) is None,
    ensures
        t.lpv(q) == t.value,
    decreases t,
{
    if q.len() > 0 {
        let i = find_key(t.children, q[0]);
        if 0 <= i < t.children.len() {
            let child = t.children[i].1;
            let q1 = q.skip(1);
            assert forall|j: int| 1 <= j <= q1.len() implies child.node_value(
                #[trigger] q1.take(j),
            ) is None by {
                assert(q.take(j + 1)[0] == q[0]);
                assert(q.take(j + 1).skip(1) =~= q1.take(j));
                assert(t.node_value(q.take(j + 1)) is None);
            }
            lemma_lpv_default(child, q1);
            assert(q.take(1)[0] == q[0]);
            assert(q.take(1).skip(1) =~= Seq::<char>::empty());
            assert(t.node_value(q.take(1)) is None);
            assert(child.node_value(Seq::empty()) == child.value);
            assert(child.lpv(q1) is None);
        }
    }
}

// ---------------------------------------------------------------------------
// How inserting a literal pattern changes the structure
// ---------------------------------------------------------------------------

proof fn lemma_insert_plain<T>(t: SpecTrie<T>, k: Seq<char>, v: T)
    requires
        t.plain(),
        literal_pattern(k),
    ensures
        t.insert(k, v).plain(),
    decreases k.len(),
{
    let t2 = t.insert(k, v);
    if k.len() == 0 {
        lemma_plain_children_same(t2, t, 0);
    } else {
        assert(k[0] != '*' && k[0] != '\0');
        let i = find_key(t.children, k[0]);
        lemma_find_key(t.children, k[0]);
        assert forall|x: int| 0 <= x < k.skip(1).len() implies k.skip(1)[x] != '*' && k.skip(1)[x]
            != '\0' by {
            assert(k.skip(1)[x] == k[x + 1]);
        }
        if i >= 0 {
            lemma_plain_child(t, 0, i);
            lemma_insert_plain(t.children[i].1, k.skip(1), v);
            lemma_plain_children_update(t, t2, i, 0);
        } else {
            lemma_empty_plain::<T>();
            lemma_insert_plain(SpecTrie::empty(), k.skip(1), v);
            lemma_plain_children_push(t, t2, 0);
        }
    }
}

proof fn lemma_empty_plain<T>()
    ensures
        SpecTrie::<T>::empty().plain(),
        SpecTrie::<T>::empty().no_wild(),
{
    let t = SpecTrie::<T>::empty();
    assert(t.plain_children(0));
    assert(t.no_wild_children(0));
}

proof fn lemma_plain_children_same<T>(a: SpecTrie<T>, b: SpecTrie<T>, i: int)
    requires
        a.children == b.children,
        b.plain_children(i),
        0 <= i,
    ensures
        a.plain_children(i),
    decreases a.children.len() - i,
{
    if i < a.children.len() {
        lemma_plain_children_same(a, b, i + 1);
    }
}

proof fn lemma_plain_children_update<T>(t: SpecTrie<T>, t2: SpecTrie<T>, j: int, i: int)
    requires
        0 <= j < t.children.len(),
        t2.children == t.children.update(j, (t.children[j].0, t2.children[j].1)),
        t2.children[j].1.plain(),
        t.plain_children(0),
        0 <= i,
    ensures
        t2.plain_children(i),
    decreases t2.children.len() - i,
{
    if i < t2.children.len() {
        lemma_plain_children_update(t, t2, j, i + 1);
        if i != j {
            assert(t2.children[i] == t.children[i]);
            lemma_plain_child(t, 0, i);
        }
    }
}

proof fn lemma_plain_children_push<T>(t: SpecTrie<T>, t2: SpecTrie<T>, i: int)
    requires
        t2.children == t.children.push(t2.children.last()),
        t2.children.len() == t.children.len() + 1,
        t2.children.last().1.plain(),
        t.plain_children(0),
        0 <= i,
    ensures
        t2.plain_children(i),
    decreases t2.children.len() - i,
{
    if i < t2.children.len() {
        lemma_plain_children_push(t, t2, i + 1);
        if i < t.children.len() {
            assert(t2.children[i] == t.children[i]);
            lemma_plain_child(t, 0, i);
        }
    }
}

/// Inserting a literal pattern sets the value at the end of exactly that
/// path and leaves every other path's value alone.
proof fn lemma_node_value_insert<T>(t: SpecTrie<T>, k: Seq<char>, v: T, p: Seq<char>)
    requires
        literal_pattern(k),
    ensures
        t.insert(k, v).node_value(p) == (if p == k {
            Some(v)
        } else {
            t.node_value(p)
        }),
    decreases k.len() + p.len(),
{
    let t2 = t.insert(k, v);
    if k.len() == 0 {
        if p.len() > 0 {
            let i = find_key(t.children, p[0]);
            lemma_find_key(t.children, p[0]);
            assert(t2.children == t.children);
            assert(t2.node_value(p) == t.node_value(p));
        } else {
            assert(p =~= k);
            assert(t2.node_value(p) == Some(v));
        }
    } else {
        assert(k[0] != '*' && k[0] != '\0');
        let i = find_key(t.children, k[0]);
        lemma_find_key(t.children, k[0]);
        assert forall|x: int| 0 <= x < k.skip(1).len() implies k.skip(1)[x] != '*' && k.skip(1)[x]
            != '\0' by {
            assert(k.skip(1)[x] == k[x + 1]);
        }
        if p.len() == 0 {
            assert(p != k);
            assert(t2.value == t.value);
            assert(t2.node_value(p) == t.node_value(p));
        } else {
            let pi = find_key(t.children, p[0]);
            lemma_find_key(t.children, p[0]);
            if i >= 0 {
                lemma_find_key_update(
                    t.children,
                    i,
                    (t.children[i].0, t2.children[i].1),
                );
                if p[0] == k[0] {
                    lemma_node_value_insert(t.children[i].1, k.skip(1), v, p.skip(1));
                    assert((p == k) == (p.skip(1) == k.skip(1))) by {
                        if p.skip(1) == k.skip(1) {
                            assert forall|x: int| 0 <= x < p.len() implies p[x] == k[x] by {
                                if x > 0 {
                                    assert(p[x] == p.skip(1)[x - 1]);
                                    assert(k[x] == k.skip(1)[x - 1]);
                                }
                            }
                            assert(p =~= k);
                        }
                        if p == k {
                            assert(p.skip(1) =~= k.skip(1));
                        }
                    }
                    assert(t2.node_value(p) == (if p == k { Some(v) } else { t.node_value(p) }));
                } else {
                    if 0 <= pi < t.children.len() {
                        assert(t2.children[pi] == t.children[pi]);
                    }
                    assert(p != k);
                    assert(t2.node_value(p) == t.node_value(p));
                }
            } else {
                lemma_find_key_push(t.children, t2.children.last(), p[0]);
                if p[0] == k[0] {
                    lemma_empty_node_value::<T>(p.skip(1));
                    lemma_node_value_insert(SpecTrie::empty(), k.skip(1), v, p.skip(1));
                    assert((p == k) == (p.skip(1) == k.skip(1))) by {
                        if p.skip(1) == k.skip(1) {
                            assert forall|x: int| 0 <= x < p.len() implies p[x] == k[x] by {
                                if x > 0 {
                                    assert(p[x] == p.skip(1)[x - 1]);
                                    assert(k[x] == k.skip(1)[x - 1]);
                                }
                            }
                            assert(p =~= k);
                        }
                        if p == k {
                            assert(p.skip(1) =~= k.skip(1));
                        }
                    }
                    assert(t2.node_value(p) == t2.children[t.children.len() as int].1.node_value(
                        p.skip(1),
                    ));
                    assert(t2.node_value(p) == (if p == k { Some(v) } else { t.node_value(p) }));
                } else {
                    assert(p != k);
                    if 0 <= pi < t.children.len() {
                        assert(t2.children[pi] == t.children[pi]);
                    }
                    assert(t2.node_value(p) == t.node_value(p));
                }
            }
        }
    }
    assert(t2.node_value(p) == (if p == k {
        Some(v)
    } else {
        t.node_value(p)
    }));
}

proof fn lemma_empty_node_value<T>(p: Seq<char>)
    ensures
        SpecTrie::<T>::empty().node_value(p) is None,
{
    let t = SpecTrie::<T>::empty();
    if p.len() > 0 {
        lemma_find_key(t.children, p[0]);
    }
}

/// The value a deepest valued prefix gives is what longest-prefix search
/// answers: a valued node at depth `m` with nothing valued below it along
/// the query decides the lookup.
proof fn lemma_lpv_at_depth<T>(t: SpecTrie<T>, q: Seq<char>, m: int)
    requires
        0 <= m <= q.len(),
        t.node_value(q.take(m)) is Some,
        forall|j: int| m < j <= q.len() ==> t.node_value(#[trigger] q.take(j)) is None,
    ensures
        t.lpv(q) == t.node_value(q.take(m)),
    decreases m,
{
    if m == 0 {
        assert(q.take(0) =~= Seq::<char>::empty());
        lemma_lpv_default(t, q);
    } else {
        assert(q.take(m)[0] == q[0]);
        let i = find_key(t.children, q[0]);
        lemma_find_key(t.children, q[0]);
        assert(find_key(t.children, q.take(m)[0]) == i);
        assert(0 <= i < t.children.len());
        let child = t.children[i].1;
        let q1 = q.skip(1);
        assert(q.take(m).skip(1) =~= q1.take(m - 1));
        assert forall|j: int| m - 1 < j <= q1.len() implies child.node_value(
            #[trigger] q1.take(j),
        ) is None by {
            assert(q.take(j + 1)[0] == q[0]);
            assert(q.take(j + 1).skip(1) =~= q1.take(j));
            assert(t.node_value(q.take(j + 1)) is None);
        }
        lemma_lpv_at_depth(child, q1, m - 1);
    }
}

// ---------------------------------------------------------------------------
// The laws
// ---------------------------------------------------------------------------

/// A trie whose only content is a possible root default.
pub open spec fn root_default<T>(d: Option<T>) -> SpecTrie<T> {
    SpecTrie { value: d, exact: None, wildcard: None, children: Seq::empty() }
}

/// The trie a sequence of insertions builds, in order.
pub open spec fn build<T>(t: SpecTrie<T>, ps: Seq<(Seq<char>, T)>) -> SpecTrie<T>
    decreases ps.len(),
{
    if ps.len() == 0 {
        t
    } else {
        build(t.insert(ps[0].0, ps[0].1), ps.skip(1))
    }
}

/// Inserting any number of literal patterns over a root default, a query
/// that stands in no prefix relation with any of the patterns answers with
/// that default.  Queries that some pattern strictly prefixes are out: they
/// answer with that pattern's value instead.
pub proof fn lemma_unmatched_query_defaults<T>(ps: Seq<(Seq<char>, T)>, d: Option<T>, q: Seq<char>)
    requires
        forall|i: int| 0 <= i < ps.len() ==> literal_pattern((#[trigger] ps[i]).0),
        forall|i: int| 0 <= i < ps.len() ==> !is_prefix(q, (#[trigger] ps[i]).0),
        forall|i: int| 0 <= i < ps.len() ==> !is_prefix((#[trigger] ps[i]).0, q),
    ensures
        build(root_default(d), ps).get(q) == d,
{
    let t0 = root_default(d);
    assert(t0.plain_children(0));
    assert forall|j: int| 1 <= j <= q.len() implies t0.node_value(#[trigger] q.take(j)) is None by {
        lemma_find_key(t0.children, q.take(j)[0]);
    }
    lemma_build_keeps_default(t0, ps, q);
    let t = build(t0, ps);
    lemma_plain_get_is_lpv(t, q);
    lemma_lpv_default(t, q);
}

proof fn lemma_build_keeps_default<T>(t: SpecTrie<T>, ps: Seq<(Seq<char>, T)>, q: Seq<char>)
    requires
        t.plain(),
        forall|j: int| 1 <= j <= q.len() ==> t.node_value(#[trigger] q.take(j)) is None,
        forall|i: int| 0 <= i < ps.len() ==> literal_pattern((#[trigger] ps[i]).0),
        forall|i: int| 0 <= i < ps.len() ==> !is_prefix((#[trigger] ps[i]).0, q),
    ensures
        build(t, ps).plain(),
        build(t, ps).value == t.value,
        forall|j: int|
            1 <= j <= q.len() ==> build(t, ps).node_value(#[trigger] q.take(j)) is None,
    decreases ps.len(),
{
    if ps.len() > 0 {
        let k = ps[0].0;
        let v = ps[0].1;
        assert(ps[0] == ps.first());
        let t2 = t.insert(k, v);
        lemma_insert_plain(t, k, v);
        assert(!is_prefix(k, q));
        assert(k.len() > 0) by {
            if k.len() == 0 {
                assert(q.take(0) =~= k);
                assert(is_prefix(k, q));
            }
        }
        assert(t2.value == t.value);
        assert forall|j: int| 1 <= j <= q.len() implies t2.node_value(
            #[trigger] q.take(j),
        ) is None by {
            lemma_node_value_insert(t, k, v, q.take(j));
            assert(q.take(j) != k) by {
                if q.take(j) == k {
                    assert(q.take(k.len() as int) =~= k);
                    assert(is_prefix(k, q));
                }
            }
        }
        assert forall|i: int| 0 <= i < ps.skip(1).len() implies literal_pattern(
            (#[trigger] ps.skip(1)[i]).0,
        ) && !is_prefix(ps.skip(1)[i].0, q) by {
            assert(ps.skip(1)[i] == ps[i + 1]);
        }
        lemma_build_keeps_default(t2, ps.skip(1), q);
    }
}

/// An inserted literal pattern answers every query it starts, unless a
/// strictly longer pattern in the trie also matches the query.
pub proof fn lemma_prefix_match_wins<T>(t: SpecTrie<T>, p: Seq<char>, v: T, q: Seq<char>)
    requires
        t.plain(),
        literal_pattern(p),
        is_prefix(p, q),
        forall|j: int| p.len() < j <= q.len() ==> t.node_value(#[trigger] q.take(j)) is None,
    ensures
        t.insert(p, v).get(q) == Some(v),
{
    let t2 = t.insert(p, v);
    lemma_insert_plain(t, p, v);
    lemma_plain_get_is_lpv(t2, q);
    assert(q.take(p.len() as int) == p);
    lemma_node_value_insert(t, p, v, p);
    assert(t2.node_value(q.take(p.len() as int)) == Some(v));
    assert forall|j: int| p.len() < j <= q.len() implies t2.node_value(
        #[trigger] q.take(j),
    ) is None by {
        lemma_node_value_insert(t, p, v, q.take(j));
        assert(q.take(j) != p);
    }
    lemma_lpv_at_depth(t2, q, p.len() as int);
}

// ---------------------------------------------------------------------------
// End anchors
// ---------------------------------------------------------------------------

proof fn lemma_insert_no_wild<T>(t: SpecTrie<T>, k: Seq<char>, v: T)
    requires
        t.no_wild(),
        forall|i: int| 0 <= i < k.len() ==> k[i] != '*',
    ensures
        t.insert(k, v).no_wild(),
    decreases k.len(),
{
    let t2 = t.insert(k, v);
    if k.len() == 0 || k[0] == '\0' {
        lemma_no_wild_children_same(t2, t, 0);
    } else {
        let i = find_key(t.children, k[0]);
        lemma_find_key(t.children, k[0]);
        assert forall|x: int| 0 <= x < k.skip(1).len() implies k.skip(1)[x] != '*' by {
            assert(k.skip(1)[x] == k[x + 1]);
        }
        if i >= 0 {
            lemma_no_wild_child(t, 0, i);
            lemma_insert_no_wild(t.children[i].1, k.skip(1), v);
            lemma_no_wild_children_update(t, t2, i, 0);
        } else {
            lemma_empty_plain::<T>();
            lemma_insert_no_wild(SpecTrie::empty(), k.skip(1), v);
            lemma_no_wild_children_push(t, t2, 0);
        }
    }
}

proof fn lemma_no_wild_children_same<T>(a: SpecTrie<T>, b: SpecTrie<T>, i: int)
    requires
        a.children == b.children,
        b.no_wild_children(i),
        0 <= i,
    ensures
        a.no_wild_children(i),
    decreases a.children.len() - i,
{
    if i < a.children.len() {
        lemma_no_wild_children_same(a, b, i + 1);
    }
}

proof fn lemma_no_wild_children_update<T>(t: SpecTrie<T>, t2: SpecTrie<T>, j: int, i: int)
    requires
        0 <= j < t.children.len(),
        t2.children == t.children.update(j, (t.children[j].0, t2.children[j].1)),
        t2.children[j].1.no_wild(),
        t.no_wild_children(0),
        0 <= i,
    ensures
        t2.no_wild_children(i),
    decreases t2.children.len() - i,
{
    if i < t2.children.len() {
        lemma_no_wild_children_update(t, t2, j, i + 1);
        if i != j {
            assert(t2.children[i] == t.children[i]);
            lemma_no_wild_child(t, 0, i);
        }
    }
}

proof fn lemma_no_wild_children_push<T>(t: SpecTrie<T>, t2: SpecTrie<T>, i: int)
    requires
        t2.children == t.children.push(t2.children.last()),
        t2.children.len() == t.children.len() + 1,
        t2.children.last().1.no_wild(),
        t.no_wild_children(0),
        0 <= i,
    ensures
        t2.no_wild_children(i),
    decreases t2.children.len() - i,
{
    if i < t2.children.len() {
        lemma_no_wild_children_push(t, t2, i + 1);
        if i < t.children.len() {
            assert(t2.children[i] == t.children[i]);
            lemma_no_wild_child(t, 0, i);
        }
    }
}

/// In a wildcard-free trie, a pattern inserted with an end anchor answers
/// the query that spells exactly the pattern.
pub proof fn lemma_anchor_hits_exact<T>(t: SpecTrie<T>, p: Seq<char>, v: T, q: Seq<char>)
    requires
        t.no_wild(),
        literal_pattern(p),
        q == p,
    ensures
        t.insert(p.push('\0'), v).get(q) == Some(v),
{
    lemma_anchor_lookup(t, p, v);
}

proof fn lemma_anchor_lookup<T>(t: SpecTrie<T>, p: Seq<char>, v: T)
    requires
        t.no_wild(),
        literal_pattern(p),
    ensures
        t.insert(p.push('\0'), v).lookup(p) is Some,
        t.insert(p.push('\0'), v).lookup(p)->0.value == v,
        t.insert(p.push('\0'), v).lookup(p)->0.exact,
    decreases p.len(),
{
    let kq = p.push('\0');
    let t2 = t.insert(kq, v);
    if p.len() == 0 {
        assert(kq[0] == '\0');
        assert(t2 == SpecTrie { exact: Some(v), ..t });
    } else {
        assert(kq[0] == p[0]);
        assert(p[0] != '*' && p[0] != '\0');
        assert(kq.skip(1) =~= p.skip(1).push('\0'));
        let i = find_key(t.children, p[0]);
        lemma_find_key(t.children, p[0]);
        assert forall|x: int| 0 <= x < p.skip(1).len() implies p.skip(1)[x] != '*' && p.skip(1)[x]
            != '\0' by {
            assert(p.skip(1)[x] == p[x + 1]);
        }
        if i >= 0 {
            lemma_no_wild_child(t, 0, i);
            lemma_anchor_lookup(t.children[i].1, p.skip(1), v);
            lemma_find_key_update(t.children, i, (t.children[i].0, t2.children[i].1));
            assert(t2.children[i].1 == t.children[i].1.insert(kq.skip(1), v));
        } else {
            lemma_empty_plain::<T>();
            lemma_anchor_lookup(SpecTrie::empty(), p.skip(1), v);
            lemma_find_key_push(t.children, t2.children.last(), p[0]);
            assert(t2.children[t.children.len() as int].1 == SpecTrie::empty().insert(
                kq.skip(1),
                v,
            ));
        }
    }
}

/// Inserting an anchored literal pattern changes no query but the one that
/// spells exactly the pattern: any strictly longer (or different) query
/// answers as before.
pub proof fn lemma_anchor_leaves_rest<T>(t: SpecTrie<T>, p: Seq<char>, v: T, q: Seq<char>)
    requires
        literal_pattern(p),
        q != p,
    ensures
        t.insert(p.push('\0'), v).lookup(q) == t.lookup(q),
        t.insert(p.push('\0'), v).get(q) == t.get(q),
    decreases p.len(),
{
    let kq = p.push('\0');
    let t2 = t.insert(kq, v);
    if p.len() == 0 {
        assert(kq[0] == '\0');
        assert(t2 == SpecTrie { exact: Some(v), ..t });
        assert(q.len() > 0) by {
            if q.len() == 0 {
                assert(q =~= p);
            }
        }
    } else {
        assert(kq[0] == p[0]);
        assert(p[0] != '*' && p[0] != '\0');
        assert(kq.skip(1) =~= p.skip(1).push('\0'));
        let i = find_key(t.children, p[0]);
        lemma_find_key(t.children, p[0]);
        assert forall|x: int| 0 <= x < p.skip(1).len() implies p.skip(1)[x] != '*' && p.skip(1)[x]
            != '\0' by {
            assert(p.skip(1)[x] == p[x + 1]);
        }
        if q.len() == 0 {
            assert(t2.value == t.value && t2.exact == t.exact && t2.wildcard == t.wildcard);
        } else {
            let qi = find_key(t.children, q[0]);
            lemma_find_key(t.children, q[0]);
            if i >= 0 {
                lemma_find_key_update(t.children, i, (t.children[i].0, t2.children[i].1));
                if q[0] == p[0] {
                    assert(q.skip(1) != p.skip(1)) by {
                        if q.skip(1) == p.skip(1) {
                            assert forall|x: int| 0 <= x < q.len() implies q[x] == p[x] by {
                                if x > 0 {
                                    assert(q[x] == q.skip(1)[x - 1]);
                                    assert(p[x] == p.skip(1)[x - 1]);
                                }
                            }
                            assert(q =~= p);
                        }
                    }
                    lemma_anchor_leaves_rest(t.children[i].1, p.skip(1), v, q.skip(1));
                    assert(t2.children[i].1 == t.children[i].1.insert(kq.skip(1), v));
                } else {
                    if 0 <= qi < t.children.len() {
                        assert(t2.children[qi] == t.children[qi]);
                    }
                }
            } else {
                lemma_find_key_push(t.children, t2.children.last(), q[0]);
                if q[0] == p[0] {
                    assert(q.skip(1) != p.skip(1)) by {
                        if q.skip(1) == p.skip(1) {
                            assert forall|x: int| 0 <= x < q.len() implies q[x] == p[x] by {
                                if x > 0 {
                                    assert(q[x] == q.skip(1)[x - 1]);
                                    assert(p[x] == p.skip(1)[x - 1]);
                                }
                            }
                            assert(q =~= p);
                        }
                    }
                    lemma_fresh_anchor_misses(p.skip(1), v, q.skip(1));
                    assert(t2.children[t.children.len() as int].1 == SpecTrie::empty().insert(
                        kq.skip(1),
                        v,
                    ));
                    assert(find_key(t2.children, q[0]) == t.children.len());
                } else {
                    if 0 <= qi < t.children.len() {
                        assert(t2.children[qi] == t.children[qi]);
                    }
                }
            }
        }
    }
}

/// A freshly created anchored chain matches nothing but its own spelling.
proof fn lemma_fresh_anchor_misses<T>(p: Seq<char>, v: T, q: Seq<char>)
    requires
        literal_pattern(p),
        q != p,
    ensures
        SpecTrie::<T>::empty().insert(p.push('\0'), v).lookup(q) is None,
    decreases p.len(),
{
    let kq = p.push('\0');
    let t2 = SpecTrie::<T>::empty().insert(kq, v);
    if p.len() == 0 {
        assert(kq[0] == '\0');
        assert(q.len() > 0) by {
            if q.len() == 0 {
                assert(q =~= p);
            }
        }
        if q.len() > 0 {
            lemma_find_key(t2.children, q[0]);
        }
    } else {
        assert(kq[0] == p[0]);
        assert(p[0] != '*' && p[0] != '\0');
        assert(kq.skip(1) =~= p.skip(1).push('\0'));
        assert forall|x: int| 0 <= x < p.skip(1).len() implies p.skip(1)[x] != '*' && p.skip(1)[x]
            != '\0' by {
            assert(p.skip(1)[x] == p[x + 1]);
        }
        lemma_find_key(SpecTrie::<T>::empty().children, p[0]);
        lemma_find_key_push(SpecTrie::<T>::empty().children, t2.children.last(), p[0]);
        assert(t2.children.len() == 1);
        if q.len() == 0 {
        } else {
            lemma_find_key_push(SpecTrie::<T>::empty().children, t2.children.last(), q[0]);
            if q[0] == p[0] {
                assert(q.skip(1) != p.skip(1)) by {
                    if q.skip(1) == p.skip(1) {
                        assert forall|x: int| 0 <= x < q.len() implies q[x] == p[x] by {
                            if x > 0 {
                                assert(q[x] == q.skip(1)[x - 1]);
                                assert(p[x] == p.skip(1)[x - 1]);
                            }
                        }
                        assert(q =~= p);
                    }
                }
                lemma_fresh_anchor_misses(p.skip(1), v, q.skip(1));
                assert(t2.children[0].1 == SpecTrie::<T>::empty().insert(kq.skip(1), v));
            }
        }
    }
}

// ---------------------------------------------------------------------------
// Repeated insertion
// ---------------------------------------------------------------------------

/// Inserting the same pattern and value twice leaves the trie as one
/// insertion does, and the second insertion hands that value back as the
/// displaced payload.
pub proof fn lemma_insert_idempotent<T>(t: SpecTrie<T>, k: Seq<char>, v: T)
    ensures
        t.insert(k, v).insert(k, v) == t.insert(k, v),
        t.insert(k, v).displaced(k) == Some(v),
{
    lemma_insert_overwrites(t, k, v, v);
}

/// Of two insertions at the same pattern the later one wins: the earlier
/// value is gone from the trie entirely, so every subsequent lookup answers
/// as if only the later insertion had happened.
pub proof fn lemma_last_write_wins<T>(t: SpecTrie<T>, k: Seq<char>, v1: T, v2: T)
    ensures
        t.insert(k, v1).insert(k, v2) == t.insert(k, v2),
        t.insert(k, v1).insert(k, v2).get(k) == t.insert(k, v2).get(k),
{
    lemma_insert_overwrites(t, k, v1, v2);
}

proof fn lemma_insert_overwrites<T>(t: SpecTrie<T>, k: Seq<char>, v1: T, v2: T)
    ensures
        t.insert(k, v1).insert(k, v2) == t.insert(k, v2),
        t.insert(k, v1).displaced(k) == Some(v1),
    decreases k.len(),
{
    let ta = t.insert(k, v1);
    let tb = ta.insert(k, v2);
    let tc = t.insert(k, v2);
    if k.len() == 0 {
        assert(tb == tc);
    } else if k[0] == '*' {
        let w0 = match t.wildcard {
            Some(w) => *w,
            None => SpecTrie::empty(),
        };
        lemma_insert_overwrites(w0, k.skip(1), v1, v2);
        assert(tb == tc);
    } else if k[0] == '\0' {
        assert(tb == tc);
    } else {
        let i = find_key(t.children, k[0]);
        lemma_find_key(t.children, k[0]);
        if i >= 0 {
            let child = t.children[i].1;
            lemma_insert_overwrites(child, k.skip(1), v1, v2);
            lemma_find_key_update(t.children, i, (t.children[i].0, ta.children[i].1));
            assert(ta.children[i] == (k[0], child.insert(k.skip(1), v1)));
            assert(tb.children =~= tc.children);
            assert(tb == tc);
        } else {
            lemma_find_key_push(t.children, ta.children.last(), k[0]);
            assert(find_key(ta.children, k[0]) == t.children.len());
            let fresh = SpecTrie::<T>::empty().insert(k.skip(1), v1);
            assert(ta.children[t.children.len() as int] == (k[0], fresh));
            lemma_insert_overwrites(fresh, k.skip(1), v1, v2);
            lemma_insert_overwrites(SpecTrie::<T>::empty(), k.skip(1), v1, v2);
            assert(tb.children =~= tc.children);
            assert(tb == tc);
        }
    }
}

// ---------------------------------------------------------------------------
// The pre-inserted default
// ---------------------------------------------------------------------------

/// After the empty pattern is given a default in a fresh trie, every query
/// answers with at least that default.
pub proof fn lemma_default_covers<T>(d: T, q: Seq<char>)
    ensures
        SpecTrie::<T>::empty().insert(Seq::empty(), d).get(q) == Some(d),
{
    let t = SpecTrie::<T>::empty().insert(Seq::empty(), d);
    assert(t.children == Seq::<(char, SpecTrie<T>)>::empty());
    if q.len() > 0 {
        lemma_find_key(t.children, q[0]);
    }
}

} // verus!
