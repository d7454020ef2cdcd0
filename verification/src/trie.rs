use vstd::prelude::*;

verus! {

// ---------------------------------------------------------------------------
// Mathematical model
// ---------------------------------------------------------------------------

/// Model of one trie node.  A pattern is a sequence of characters in which
/// `*` matches any (possibly empty) span of the candidate and a `'\0'`
/// requires the candidate to end exactly there.  `value` is the payload of a
/// pattern that ended at this node without an end anchor (a prefix rule),
/// `exact` the payload of a pattern that ended here with the anchor,
/// `wildcard` the subtree entered by a `*`, and `children` the literal edges,
/// kept in insertion order and looked up by their first occurrence.
#[verifier::ext_equal]
pub struct SpecTrie<T> {
    pub value: Option<T>,
    pub exact: Option<T>,
    pub wildcard: Option<Box<SpecTrie<T>>>,
    pub children: Seq<(char, SpecTrie<T>)>,
}

/// Index of the first entry keyed by `c`, or `-1` when there is none.
pub open spec fn find_key<T>(s: Seq<(char, SpecTrie<T>)>, c: char) -> int
    decreases s.len(),
{
    if s.len() == 0 {
        -1
    } else if s[0].0 == c {
        0
    } else {
        let r = find_key(s.skip(1), c);
        if r < 0 {
            -1
        } else {
            r + 1
        }
    }
}

pub proof fn lemma_find_key<T>(s: Seq<(char, SpecTrie<T>)>, c: char)
    ensures
        find_key(s, c) >= 0 ==> find_key(s, c) < s.len() && s[find_key(s, c)].0 == c,
        find_key(s, c) < 0 ==> forall|j: int| 0 <= j < s.len() ==> (#[trigger] s[j]).0 != c,
        forall|j: int| 0 <= j < find_key(s, c) ==> (#[trigger] s[j]).0 != c,
    decreases s.len(),
{
    if s.len() > 0 && s[0].0 != c {
        lemma_find_key(s.skip(1), c);
        assert forall|j: int| 0 <= j < s.len() && find_key(s, c) < 0 implies (#[trigger] s[j]).0
            != c by {
            if j > 0 {
                assert(s.skip(1)[j - 1] == s[j]);
            }
        }
        assert forall|j: int| 0 <= j < find_key(s, c) implies (#[trigger] s[j]).0 != c by {
            if j > 0 {
                assert(s.skip(1)[j - 1] == s[j]);
            }
        }
    }
}

impl<T> SpecTrie<T> {
    /// The node a fresh trie consists of.
    pub open spec fn empty() -> Self {
        SpecTrie { value: None, exact: None, wildcard: None, children: Seq::empty() }
    }

    /// Insertion: `*` descends into the wildcard child, `'\0'` stores the
    /// payload in the `exact` slot and ignores the rest of the pattern, any
    /// other character descends into its literal child, and an exhausted
    /// pattern stores the payload in the `value` slot.
    pub open spec fn insert(self, key: Seq<char>, v: T) -> SpecTrie<T>
        decreases key.len(),
    {
        if key.len() == 0 {
            SpecTrie { value: Some(v), ..self }
        } else if key[0] == '*' {
            let w = match self.wildcard {
                Some(w) => *w,
                None => SpecTrie::empty(),
            };
            SpecTrie { wildcard: Some(Box::new(w.insert(key.skip(1), v))), ..self }
        } else if key[0] == '\0' {
            SpecTrie { exact: Some(v), ..self }
        } else {
            let i = find_key(self.children, key[0]);
            if i >= 0 {
                SpecTrie {
                    children: self.children.update(
                        i,
                        (key[0], self.children[i].1.insert(key.skip(1), v)),
                    ),
                    ..self
                }
            } else {
                SpecTrie {
                    children: self.children.push(
                        (key[0], SpecTrie::empty().insert(key.skip(1), v)),
                    ),
                    ..self
                }
            }
        }
    }

    /// The payload that `insert` with this key displaces.
    pub open spec fn displaced(self, key: Seq<char>) -> Option<T>
        decreases key.len(),
    {
        if key.len() == 0 {
            self.value
        } else if key[0] == '*' {
            match self.wildcard {
                Some(w) => w.displaced(key.skip(1)),
                None => None,
            }
        } else if key[0] == '\0' {
            self.exact
        } else {
            let i = find_key(self.children, key[0]);
            if i >= 0 {
                self.children[i].1.displaced(key.skip(1))
            } else {
                None
            }
        }
    }
}

// ---------------------------------------------------------------------------
// Lookup model
// ---------------------------------------------------------------------------

/// A candidate found during lookup: its payload, whether it came from an
/// `exact` slot, and how many trie edges lie between the node where the
/// candidate was found and the node reporting it.
pub struct SpecMatch<T> {
    pub value: T,
    pub exact: bool,
    pub steps: nat,
}

/// The rank order the lookup consults when it already holds `a` and meets a
/// new candidate `b`: it moves to `b` exactly when `a` outranks `b`, so of
/// two candidates met at the same node the lower-ranked one survives (and on
/// equal rank the earlier one).  Anchored candidates outrank all others.
pub open spec fn outranks<T>(a: SpecMatch<T>, b: SpecMatch<T>) -> bool {
    (a.exact && !b.exact) || (a.exact == b.exact && a.steps > b.steps)
}

/// Folds one more candidate into the current selection, the way the lookup
/// does: a newcomer replaces the current candidate only when the current one
/// strictly outranks it.
pub open spec fn fold_candidate<T>(
    cur: Option<SpecMatch<T>>,
    new: Option<SpecMatch<T>>,
) -> Option<SpecMatch<T>> {
    match new {
        None => cur,
        Some(n) => match cur {
            None => Some(n),
            Some(c) => if outranks(c, n) {
                Some(n)
            } else {
                cur
            },
        },
    }
}

impl<T> SpecTrie<T> {
    /// What the lookup reports for query suffix `q` at this node: first the
    /// wildcard subtree is tried against every suffix of `q` (longest
    /// first), then the literal edge for the next character; an exhausted
    /// query at a node with an `exact` payload returns that payload alone;
    /// otherwise the best deeper candidate gains one step, and failing all
    /// that the node's own `value` answers with zero steps.
    pub open spec fn lookup(self, q: Seq<char>) -> Option<SpecMatch<T>>
        decreases self, q.len() + 1int,
    {
        let found = match self.wildcard {
            Some(w) => w.wild_scan(q, None),
            None => None,
        };
        let best = if q.len() > 0 {
            let i = find_key(self.children, q[0]);
            if 0 <= i < self.children.len() {
                fold_candidate(found, self.children[i].1.lookup(q.skip(1)))
            } else {
                found
            }
        } else {
            found
        };
        if q.len() == 0 && self.exact is Some {
            Some(SpecMatch { value: self.exact->0, exact: true, steps: 0 })
        } else if best is Some {
            let m = best->0;
            Some(SpecMatch { value: m.value, exact: m.exact, steps: m.steps + 1 })
        } else {
            match self.value {
                Some(v) => Some(SpecMatch { value: v, exact: false, steps: 0 }),
                None => None,
            }
        }
    }

    /// Tries this (wildcard) subtree against `q` and every shorter suffix of
    /// `q`, folding the outcomes into `acc` in that order.
    pub open spec fn wild_scan(self, q: Seq<char>, acc: Option<SpecMatch<T>>) -> Option<
        SpecMatch<T>,
    >
        decreases self, q.len() + 2int,
    {
        let acc2 = fold_candidate(acc, self.lookup(q));
        if q.len() == 0 {
            acc2
        } else {
            self.wild_scan(q.skip(1), acc2)
        }
    }

    /// The payload the lookup answers with, if any.
    pub open spec fn get(self, q: Seq<char>) -> Option<T> {
        match self.lookup(q) {
            Some(m) => Some(m.value),
            None => None,
        }
    }
}

/// A trie whose root holds a default answers every query.
pub proof fn lemma_lookup_total<T>(t: SpecTrie<T>, q: Seq<char>)
    requires
        t.value is Some,
    ensures
        t.lookup(q) is Some,
{
}

// ---------------------------------------------------------------------------
// Height, and the bound it puts on step counts
// ---------------------------------------------------------------------------

pub open spec fn int_max(a: int, b: int) -> int {
    if a >= b {
        a
    } else {
        b
    }
}

impl<T> SpecTrie<T> {
    /// One more than the longest chain of edges below this node.
    pub open spec fn height(self) -> int
        decreases self, self.children.len() + 1int,
    {
        let wh = match self.wildcard {
            Some(w) => w.height(),
            None => 0,
        };
        1 + int_max(wh, self.children_height(0))
    }

    /// The largest height among children `i..`.
    pub open spec fn children_height(self, i: int) -> int
        decreases self, self.children.len() - i,
    {
        if 0 <= i < self.children.len() {
            int_max(self.children[i].1.height(), self.children_height(i + 1))
        } else {
            0
        }
    }
}

proof fn lemma_height_pos<T>(t: SpecTrie<T>)
    ensures
        t.height() >= 1,
        t.wildcard is Some ==> t.wildcard->0.height() < t.height(),
    decreases t, t.children.len() + 2int,
{
    lemma_children_height_nonneg(t, 0);
    if t.wildcard is Some {
        lemma_height_pos(*t.wildcard->0);
    }
}

proof fn lemma_children_height_nonneg<T>(t: SpecTrie<T>, i: int)
    ensures
        t.children_height(i) >= 0,
    decreases t, t.children.len() - i,
{
    if 0 <= i < t.children.len() {
        lemma_children_height_nonneg(t, i + 1);
    }
}

/// Every child's subtree is lower than the node itself.
proof fn lemma_child_height<T>(t: SpecTrie<T>, j: int)
    requires
        0 <= j < t.children.len(),
    ensures
        t.children[j].1.height() < t.height(),
{
    lemma_children_height_ge(t, 0, j);
}

proof fn lemma_children_height_ge<T>(t: SpecTrie<T>, i: int, j: int)
    requires
        0 <= i <= j < t.children.len(),
    ensures
        t.children_height(i) >= t.children[j].1.height(),
    decreases j - i,
{
    lemma_children_height_nonneg(t, i + 1);
    if i < j {
        lemma_children_height_ge(t, i + 1, j);
    }
}

spec fn steps_bound<T>(o: Option<SpecMatch<T>>, b: int) -> bool {
    o is Some ==> o->0.steps <= b
}

/// A candidate's step count never exceeds the height of the subtree that
/// reported it, less one.
proof fn lemma_lookup_steps<T>(t: SpecTrie<T>, q: Seq<char>)
    ensures
        steps_bound(t.lookup(q), t.height() - 1),
    decreases t, q.len() + 1int,
{
    lemma_height_pos(t);
    let found = match t.wildcard {
        Some(w) => w.wild_scan(q, None),
        None => None,
    };
    match t.wildcard {
        Some(w) => {
            lemma_wild_scan_steps(*w, q, None, -1);
            assert(steps_bound(found, w.height() - 1));
        },
        None => {},
    }
    if q.len() > 0 {
        let i = find_key(t.children, q[0]);
        if 0 <= i < t.children.len() {
            lemma_lookup_steps(t.children[i].1, q.skip(1));
            lemma_child_height(t, i);
        }
    }
}

proof fn lemma_wild_scan_steps<T>(w: SpecTrie<T>, q: Seq<char>, acc: Option<SpecMatch<T>>, b: int)
    requires
        steps_bound(acc, b),
    ensures
        steps_bound(w.wild_scan(q, acc), int_max(b, w.height() - 1)),
    decreases w, q.len() + 2int,
{
    lemma_lookup_steps(w, q);
    let acc2 = fold_candidate(acc, w.lookup(q));
    assert(steps_bound(acc2, int_max(b, w.height() - 1)));
    if q.len() > 0 {
        lemma_wild_scan_steps(w, q.skip(1), acc2, int_max(b, w.height() - 1));
    }
}

/// Inserting a pattern cannot raise the trie above the pattern's own length
/// plus one.
proof fn lemma_insert_height<T>(t: SpecTrie<T>, key: Seq<char>, v: T)
    ensures
        t.insert(key, v).height() <= int_max(t.height(), key.len() + 1int),
    decreases key.len(),
{
    lemma_height_pos(t);
    let t2 = t.insert(key, v);
    if key.len() == 0 {
        lemma_same_shape_height(t2, t);
    } else if key[0] == '*' {
        let w = match t.wildcard {
            Some(w) => *w,
            None => SpecTrie::empty(),
        };
        lemma_insert_height(w, key.skip(1), v);
        lemma_height_pos(w);
        if t.wildcard is Some {
            lemma_height_pos(t);
        } else {
            lemma_empty_height::<T>();
        }
        assert(t2.children =~= t.children);
        lemma_children_height_same(t2, t, 0);
    } else if key[0] == '\0' {
        lemma_same_shape_height(t2, t);
    } else {
        let i = find_key(t.children, key[0]);
        lemma_find_key(t.children, key[0]);
        if i >= 0 {
            lemma_insert_height(t.children[i].1, key.skip(1), v);
            lemma_child_height(t, i);
            lemma_update_children_height(t, t2, i, int_max(t.height() - 1, key.len() as int));
        } else {
            lemma_empty_height::<T>();
            lemma_insert_height(SpecTrie::empty(), key.skip(1), v);
            lemma_push_children_height(t, t2, int_max(t.height() - 1, key.len() as int));
        }
    }
}

proof fn lemma_empty_height<T>()
    ensures
        SpecTrie::<T>::empty().height() == 1,
{
    let t = SpecTrie::<T>::empty();
    assert(t.children_height(0) == 0);
}

/// Two nodes with the same wildcard and children have the same height.
proof fn lemma_same_shape_height<T>(a: SpecTrie<T>, b: SpecTrie<T>)
    requires
        a.wildcard == b.wildcard,
        a.children == b.children,
    ensures
        a.height() == b.height(),
{
    lemma_children_height_same(a, b, 0);
}

proof fn lemma_children_height_same<T>(a: SpecTrie<T>, b: SpecTrie<T>, i: int)
    requires
        a.children == b.children,
    ensures
        a.children_height(i) == b.children_height(i),
    decreases a.children.len() - i,
{
    if 0 <= i < a.children.len() {
        lemma_children_height_same(a, b, i + 1);
    }
}

/// Replacing child `j` by a subtree of height at most `h` keeps every
/// children height at or below the larger of the old bound and `h`.
proof fn lemma_update_children_height<T>(t: SpecTrie<T>, t2: SpecTrie<T>, j: int, h: int)
    requires
        h >= 0,
        0 <= j < t.children.len(),
        t2.children == t.children.update(j, (t.children[j].0, t2.children[j].1)),
        t2.children[j].1.height() <= h,
        t2.wildcard == t.wildcard,
        t.children_height(0) <= h,
    ensures
        t2.height() <= 1 + int_max(match t.wildcard {
            Some(w) => w.height(),
            None => 0,
        }, h),
{
    lemma_update_children_height_rec(t, t2, j, h, 0);
}

proof fn lemma_update_children_height_rec<T>(t: SpecTrie<T>, t2: SpecTrie<T>, j: int, h: int, i: int)
    requires
        h >= 0,
        0 <= j < t.children.len(),
        t2.children == t.children.update(j, (t.children[j].0, t2.children[j].1)),
        t2.children[j].1.height() <= h,
        t.children_height(0) <= h,
        0 <= i,
    ensures
        t2.children_height(i) <= h,
    decreases t2.children.len() - i,
{
    if i < t2.children.len() {
        lemma_update_children_height_rec(t, t2, j, h, i + 1);
        if i != j {
            assert(t2.children[i] == t.children[i]);
            lemma_children_height_ge(t, 0, i);
        }
    }
}

/// Appending a child of height at most `h` keeps every children height at or
/// below the larger of the old bound and `h`.
proof fn lemma_push_children_height<T>(t: SpecTrie<T>, t2: SpecTrie<T>, h: int)
    requires
        h >= 0,
        t2.children == t.children.push(t2.children.last()),
        t2.children.len() == t.children.len() + 1,
        t2.children.last().1.height() <= h,
        t2.wildcard == t.wildcard,
        t.children_height(0) <= h,
    ensures
        t2.height() <= 1 + int_max(match t.wildcard {
            Some(w) => w.height(),
            None => 0,
        }, h),
{
    lemma_push_children_height_rec(t, t2, h, 0);
}

proof fn lemma_push_children_height_rec<T>(t: SpecTrie<T>, t2: SpecTrie<T>, h: int, i: int)
    requires
        h >= 0,
        t2.children == t.children.push(t2.children.last()),
        t2.children.len() == t.children.len() + 1,
        t2.children.last().1.height() <= h,
        t.children_height(0) <= h,
        0 <= i,
    ensures
        t2.children_height(i) <= h,
    decreases t2.children.len() - i,
{
    if i < t2.children.len() {
        lemma_push_children_height_rec(t, t2, h, i + 1);
        if i < t.children.len() {
            assert(t2.children[i] == t.children[i]);
            lemma_children_height_ge(t, 0, i);
        }
    }
}

// ---------------------------------------------------------------------------
// Executable trie
// ---------------------------------------------------------------------------

/// Prefix trie that supports wildcards and end anchors.  Its behaviour is
/// the model's: `v@` is the [`SpecTrie`] this trie denotes.
#[derive(Debug)]
pub struct PrefixTrie<T: Copy> {
    value: Option<T>,
    exact: Option<T>,
    wildcard: Option<Box<PrefixTrie<T>>>,
    children: Vec<(char, PrefixTrie<T>)>,
}

impl<T: Copy> PrefixTrie<T> {
    pub closed spec fn spec_view(&self) -> SpecTrie<T>
        decreases self,
    {
        SpecTrie {
            value: self.value,
            exact: self.exact,
            wildcard: match self.wildcard {
                Some(b) => Some(Box::new(b.spec_view())),
                None => None,
            },
            children: Seq::new(
                self.children@.len(),
                |i: int|
                    if 0 <= i < self.children@.len() {
                        (self.children@[i].0, self.children@[i].1.spec_view())
                    } else {
                        (self.children@[i].0, SpecTrie::empty())
                    },
            ),
        }
    }

    /// The lookup counts steps in a machine word; every operation keeps the
    /// trie low enough for that counter.
    pub open spec fn wf(&self) -> bool {
        self@.height() <= usize::MAX + 1
    }
}

impl<T: Copy> View for PrefixTrie<T> {
    type V = SpecTrie<T>;

    open spec fn view(&self) -> SpecTrie<T> {
        self.spec_view()
    }
}

/// The model candidate an executable lookup result stands for.
pub open spec fn cand_spec<T>(r: Option<(T, bool, usize)>) -> Option<SpecMatch<T>> {
    match r {
        Some((v, e, s)) => Some(SpecMatch { value: v, exact: e, steps: s as nat }),
        None => None,
    }
}

impl<T: Copy> PrefixTrie<T> {
    /// Creates a new [`PrefixTrie`].
    pub fn new() -> (r: Self)
        ensures
            r@ == SpecTrie::<T>::empty(),
            r.wf(),
    {
        let r = PrefixTrie { value: None, exact: None, wildcard: None, children: Vec::new() };
        proof {
            assert(r@.children =~= SpecTrie::<T>::empty().children);
            assert(r@ == SpecTrie::<T>::empty());
            lemma_empty_height::<T>();
        }
        r
    }

    /// Index of the child keyed by `c`, if any.
    fn find_child(&self, c: char) -> (r: Option<usize>)
        ensures
            match r {
                Some(j) => j == find_key(self@.children, c) && j < self.children@.len(),
                None => find_key(self@.children, c) < 0,
            },
    {
        proof {
            lemma_find_key(self@.children, c);
        }
        let mut j: usize = 0;
        while j < self.children.len()
            invariant
                j <= self.children@.len(),
                forall|k: int| 0 <= k < j ==> (#[trigger] self@.children[k]).0 != c,
                find_key(self@.children, c) >= 0 ==> find_key(self@.children, c)
                    < self@.children.len() && self@.children[find_key(self@.children, c)].0 == c,
                find_key(self@.children, c) < 0 ==> forall|k: int|
                    0 <= k < self@.children.len() ==> (#[trigger] self@.children[k]).0 != c,
                forall|k: int|
                    0 <= k < find_key(self@.children, c) ==> (#[trigger] self@.children[k]).0 != c,
            decreases self.children@.len() - j,
        {
            if self.children[j].0 == c {
                proof {
                    assert(self@.children[j as int].0 == c);
                }
                return Some(j);
            }
            proof {
                assert(self@.children[j as int].0 != c);
            }
            j += 1;
        }
        None
    }

    /// Inserts a value for the pattern `key[i..]`, returning the payload it
    /// displaces.
    fn insert_at(&mut self, key: &[char], i: usize, value: T) -> (r: Option<T>)
        requires
            i <= key@.len(),
        ensures
            final (self)@ == old(self)@.insert(key@.skip(i as int), value),
            r == old(self)@.displaced(key@.skip(i as int)),
        decreases key@.len() - i,
    {
        let ghost pat = key@.skip(i as int);
        if i == key.len() {
            let r = self.value;
            self.value = Some(value);
            proof {
                assert(final (self)@.children =~= old(self)@.children);
                assert(final (self)@ == old(self)@.insert(pat, value));
            }
            r
        } else {
            let c = key[i];
            proof {
                assert(pat[0] == c);
                assert(pat.skip(1) =~= key@.skip(i + 1 as int));
            }
            if c == '*' {
                match self.wildcard.take() {
                    Some(mut b) => {
                        let r = (&mut *b).insert_at(key, i + 1, value);
                        self.wildcard = Some(b);
                        proof {
                            assert(final (self)@.children =~= old(self)@.children);
                            assert(final (self)@ == old(self)@.insert(pat, value));
                        }
                        r
                    },
                    None => {
                        let mut child = PrefixTrie::new();
                        child.insert_at(key, i + 1, value);
                        self.wildcard = Some(Box::new(child));
                        proof {
                            assert(final (self)@.children =~= old(self)@.children);
                            assert(final (self)@ == old(self)@.insert(pat, value));
                        }
                        None
                    },
                }
            } else if c == '\0' {
                let r = self.exact;
                self.exact = Some(value);
                proof {
                    assert(final (self)@.children =~= old(self)@.children);
                    assert(final (self)@ == old(self)@.insert(pat, value));
                }
                r
            } else {
                proof {
                    lemma_find_key(old(self)@.children, c);
                }
                match self.find_child(c) {
                    Some(j) => {
                        let mut pair = self.children.remove(j);
                        let r = pair.1.insert_at(key, i + 1, value);
                        self.children.insert(j, pair);
                        proof {
                            assert(self.children@ =~= old(self).children@.update(j as int, pair));
                            assert(final (self)@.children =~= old(self)@.children.update(
                                j as int,
                                (c, old(self)@.children[j as int].1.insert(pat.skip(1), value)),
                            ));
                            assert(final (self)@ == old(self)@.insert(pat, value));
                        }
                        r
                    },
                    None => {
                        let mut child = PrefixTrie::new();
                        child.insert_at(key, i + 1, value);
                        self.children.push((c, child));
                        proof {
                            assert(final (self)@.children =~= old(self)@.children.push(
                                (c, SpecTrie::empty().insert(pat.skip(1), value)),
                            ));
                            assert(final (self)@ == old(self)@.insert(pat, value));
                        }
                        None
                    },
                }
            }
        }
    }

    /// Inserts a value at a given pattern, given as characters.
    /// `*` symbols are wildcards; a `'\0'` character restricts the pattern
    /// to exact matches, and anything after it is ignored.
    pub fn insert_chars(&mut self, key: &[char], value: T) -> (r: Option<T>)
        requires
            old(self).wf(),
        ensures
            final (self)@ == old(self)@.insert(key@, value),
            final (self).wf(),
            r == old(self)@.displaced(key@),
    {
        let n = key.len();
        proof {
            assert(key@.len() == n);
            assert(key@.skip(0) =~= key@);
            lemma_insert_height(old(self)@, key@, value);
        }
        self.insert_at(key, 0, value)
    }

    /// Inserts a value at a given pattern.
    /// `*` symbols are wildcards; a `'\0'` character restricts the pattern
    /// to exact matches, and anything after it is ignored.
    pub fn insert(&mut self, key: &str, value: T) -> (r: Option<T>)
        requires
            old(self).wf(),
        ensures
            final (self)@ == old(self)@.insert(key@, value),
            final (self).wf(),
            r == old(self)@.displaced(key@),
    {
        let chars = crate::text::chars_of(key);
        self.insert_chars(chars.as_slice(), value)
    }
}

impl<T: Copy> Default for PrefixTrie<T> {
    fn default() -> (r: Self)
        ensures
            r@ == SpecTrie::<T>::empty(),
            r.wf(),
    {
        PrefixTrie::new()
    }
}

/// Folds one executable candidate into another, mirroring
/// [`fold_candidate`].
fn merge_cand<T>(cur: Option<(T, bool, usize)>, new: Option<(T, bool, usize)>) -> (r: Option<
    (T, bool, usize),
>)
    ensures
        cand_spec(r) == fold_candidate(cand_spec(cur), cand_spec(new)),
{
    match new {
        None => cur,
        Some(n) => match cur {
            None => Some(n),
            Some(c) => {
                if (c.1 && !n.1) || (c.1 == n.1 && c.2 > n.2) {
                    Some(n)
                } else {
                    Some(c)
                }
            },
        },
    }
}

impl<T: Copy> PrefixTrie<T> {
    /// The lookup's recursive walk over the query suffix `key[i..]`.
    fn lookup_at(&self, key: &[char], i: usize) -> (r: Option<(T, bool, usize)>)
        requires
            self.wf(),
            i <= key@.len(),
        ensures
            cand_spec(r) == self@.lookup(key@.skip(i as int)),
        decreases self@.height(),
    {
        let ghost q = key@.skip(i as int);
        proof {
            lemma_height_pos(self@);
        }
        let mut best: Option<(T, bool, usize)> = None;
        let ghost mut acc: Option<SpecMatch<T>> = None;

        if let Some(w) = &self.wildcard {
            proof {
                assert(self@.wildcard == Some(Box::new(w.spec_view())));
                assert(w@.height() < self@.height());
            }
            let mut j = i;
            loop
                invariant
                    self.wf(),
                    i <= j <= key@.len(),
                    w == self.wildcard->0,
                    w@.height() < self@.height(),
                    cand_spec(best) == acc,
                    w@.wild_scan(key@.skip(j as int), acc) == w@.wild_scan(q, None),
                ensures
                    cand_spec(best) == w@.wild_scan(q, None),
                decreases key@.len() - j,
            {
                proof {
                    lemma_height_pos(w@);
                }
                let r = w.lookup_at(key, j);
                best = merge_cand(best, r);
                proof {
                    acc = fold_candidate(acc, w@.lookup(key@.skip(j as int)));
                }
                if j == key.len() {
                    break ;
                }
                proof {
                    assert(key@.skip(j as int).skip(1) =~= key@.skip(j + 1 as int));
                }
                j += 1;
            }
            proof {
                lemma_wild_scan_steps(w@, q, None, -1);
            }
        }

        if i < key.len() {
            let c = key[i];
            proof {
                assert(q[0] == c);
                assert(q.skip(1) =~= key@.skip(i + 1 as int));
            }
            if let Some(jx) = self.find_child(c) {
                proof {
                    lemma_child_height(self@, jx as int);
                    lemma_height_pos(self@.children[jx as int].1);
                }
                let child = &self.children[jx];
                let r = child.1.lookup_at(key, i + 1);
                proof {
                    lemma_lookup_steps(self@.children[jx as int].1, key@.skip(i + 1 as int));
                }
                best = merge_cand(best, r);
            }
        } else {
            if let Some(e) = self.exact {
                return Some((e, true, 0));
            }
        }

        match best {
            Some(b) => {
                proof {
                    assert(b.2 + 1 <= usize::MAX);
                }
                Some((b.0, b.1, b.2 + 1))
            },
            None => match self.value {
                Some(v) => Some((v, false, 0)),
                None => None,
            },
        }
    }

    /// Gets the value of the most precise matching pattern, the query given
    /// as characters.
    pub fn get_chars(&self, key: &[char]) -> (r: Option<T>)
        requires
            self.wf(),
        ensures
            r == self@.get(key@),
    {
        proof {
            assert(key@.skip(0) =~= key@);
        }
        match self.lookup_at(key, 0) {
            Some(p) => Some(p.0),
            None => None,
        }
    }

    /// Gets the value of the most precise matching pattern.
    pub fn get(&self, key: &str) -> (r: Option<T>)
        requires
            self.wf(),
        ensures
            r == self@.get(key@),
    {
        let chars = crate::text::chars_of(key);
        self.get_chars(chars.as_slice())
    }

    /// Checks whether some pattern matches the key, the query given as
    /// characters.
    pub fn has_chars(&self, key: &[char]) -> (r: bool)
        requires
            self.wf(),
        ensures
            r == (self@.get(key@) is Some),
    {
        self.get_chars(key).is_some()
    }

    /// Checks whether some pattern matches the key.
    pub fn has(&self, key: &str) -> (r: bool)
        requires
            self.wf(),
        ensures
            r == (self@.get(key@) is Some),
    {
        self.get(key).is_some()
    }
}

/// Relies on Vec::shrink_to_fit: it only changes capacity, never contents.
#[verifier::external_body]
fn shrink_children<T: Copy>(v: &mut Vec<(char, PrefixTrie<T>)>)
    ensures
        final (v)@ == old(v)@,
{
    v.shrink_to_fit();
}

impl<T: Copy> PrefixTrie<T> {
    /// Shrinks the internal data structure, saving a few bytes.
    pub fn shrink(&mut self)
        ensures
            final (self)@ == old(self)@,
        decreases *old(self),
    {
        shrink_children(&mut self.children);
        let mut j: usize = 0;
        while j < self.children.len()
            invariant
                j <= self.children@.len(),
                self.children@.len() == old(self).children@.len(),
                self.value == old(self).value,
                self.exact == old(self).exact,
                self.wildcard == old(self).wildcard,
                forall|k: int|
                    j <= k < self.children@.len() ==> self.children@[k] == old(
                        self,
                    ).children@[k],
                self@ == old(self)@,
            decreases self.children@.len() - j,
        {
            let ghost snap = *self;
            let mut pair = self.children.remove(j);
            proof {
                assert(pair == old(self).children@[j as int]);
                assert(decreases_to!(*old(self) => pair.1));
            }
            pair.1.shrink();
            self.children.insert(j, pair);
            proof {
                assert(self.children@ =~= snap.children@.update(j as int, pair));
                assert(self@.children =~= snap@.children);
                assert(self@ == old(self)@);
            }
            j += 1;
        }
    }
}

} // verus!


