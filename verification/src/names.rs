//! Ordered sets and maps keyed by text.
use vstd::prelude::*;
use crate::text::{chars_of, views};

verus! {

// ---------------------------------------------------------------------------
// The order of text
// ---------------------------------------------------------------------------

/// Dictionary order by code point.
pub open spec fn text_lt(a: Seq<char>, b: Seq<char>) -> bool
    decreases a.len(),
{
    if b.len() == 0 {
        false
    } else if a.len() == 0 {
        true
    } else if a[0] != b[0] {
        a[0] < b[0]
    } else {
        text_lt(a.subrange(1, a.len() as int), b.subrange(1, b.len() as int))
    }
}

pub proof fn lemma_text_lt_irreflexive(a: Seq<char>)
    ensures
        !text_lt(a, a),
    decreases a.len(),
{
    if a.len() > 0 {
        lemma_text_lt_irreflexive(a.subrange(1, a.len() as int));
    }
}

pub proof fn lemma_text_lt_transitive(a: Seq<char>, b: Seq<char>, c: Seq<char>)
    requires
        text_lt(a, b),
        text_lt(b, c),
    ensures
        text_lt(a, c),
    decreases a.len(),
{
    if a.len() > 0 && b.len() > 0 && c.len() > 0 && a[0] == b[0] && b[0] == c[0] {
        lemma_text_lt_transitive(
            a.subrange(1, a.len() as int),
            b.subrange(1, b.len() as int),
            c.subrange(1, c.len() as int),
        );
    }
}

pub proof fn lemma_text_lt_total(a: Seq<char>, b: Seq<char>)
    ensures
        a == b || text_lt(a, b) || text_lt(b, a),
    decreases a.len(),
{
    if a.len() > 0 && b.len() > 0 && a[0] == b[0] {
        let x = a.subrange(1, a.len() as int);
        let y = b.subrange(1, b.len() as int);
        lemma_text_lt_total(x, y);
        if x == y {
            assert(a =~= seq![a[0]] + x);
            assert(b =~= seq![b[0]] + y);
        }
    } else if a.len() == 0 && b.len() == 0 {
        assert(a =~= b);
    }
}

proof fn lemma_text_lt_at(a: Seq<char>, b: Seq<char>, k: int)
    requires
        0 <= k <= a.len(),
        k <= b.len(),
        a.subrange(0, k) == b.subrange(0, k),
    ensures
        k < a.len() && k < b.len() && a[k] < b[k] ==> text_lt(a, b),
        k == a.len() && k < b.len() ==> text_lt(a, b),
    decreases k,
{
    if k > 0 {
        assert(a[0] == a.subrange(0, k)[0]);
        assert(b[0] == b.subrange(0, k)[0]);
        let x = a.subrange(1, a.len() as int);
        let y = b.subrange(1, b.len() as int);
        assert(x.subrange(0, k - 1) =~= a.subrange(0, k).subrange(1, k));
        assert(y.subrange(0, k - 1) =~= b.subrange(0, k).subrange(1, k));
        lemma_text_lt_at(x, y, k - 1);
    }
}

#[derive(PartialEq, Eq, Structural, Clone, Copy, Debug)]
pub enum TextOrder {
    Before,
    Same,
    After,
}

/// How two texts stand to each other in dictionary order.
pub fn order_of(a: &str, b: &str) -> (r: TextOrder)
    ensures
        r is Before <==> text_lt(a@, b@),
        r is Same <==> a@ == b@,
        r is After <==> text_lt(b@, a@),
{
    let x = chars_of(a);
    let y = chars_of(b);
    let mut i: usize = 0;
    proof {
        lemma_text_lt_irreflexive(a@);
        lemma_text_lt_irreflexive(b@);
        if text_lt(a@, b@) && text_lt(b@, a@) {
            lemma_text_lt_transitive(a@, b@, a@);
        }
        assert(x@.subrange(0, 0) =~= y@.subrange(0, 0));
    }
    while i < x.len() && i < y.len()
        invariant
            i <= x@.len(),
            i <= y@.len(),
            x@ == a@,
            y@ == b@,
            x@.subrange(0, i as int) == y@.subrange(0, i as int),
            !(text_lt(a@, b@) && text_lt(b@, a@)),
            !text_lt(a@, a@),
            !text_lt(b@, b@),
        decreases x@.len() - i,
    {
        if x[i] < y[i] {
            proof {
                lemma_text_lt_at(x@, y@, i as int);
            }
            return TextOrder::Before;
        }
        if y[i] < x[i] {
            proof {
                lemma_text_lt_at(y@, x@, i as int);
            }
            return TextOrder::After;
        }
        assert(x@.subrange(0, i + 1) =~= x@.subrange(0, i as int).push(x@[i as int]));
        assert(y@.subrange(0, i + 1) =~= y@.subrange(0, i as int).push(y@[i as int]));
        i = i + 1;
    }
    proof {
        lemma_text_lt_at(x@, y@, i as int);
        lemma_text_lt_at(y@, x@, i as int);
    }
    if i < y.len() {
        TextOrder::Before
    } else if i < x.len() {
        TextOrder::After
    } else {
        assert(x@.subrange(0, i as int) =~= x@);
        assert(y@.subrange(0, i as int) =~= y@);
        TextOrder::Same
    }
}

/// Strictly ascending in dictionary order; so nothing occurs twice.
pub open spec fn ascending(s: Seq<Seq<char>>) -> bool {
    forall|i: int, j: int| 0 <= i < j < s.len() ==> text_lt(#[trigger] s[i], #[trigger] s[j])
}

// ---------------------------------------------------------------------------
// Sets of names
// ---------------------------------------------------------------------------

/// A set of names, kept in dictionary order.
#[derive(Debug, PartialEq, Eq)]
pub struct NameSet {
    names: Vec<String>,
}

impl View for NameSet {
    type V = Set<Seq<char>>;

    closed spec fn view(&self) -> Set<Seq<char>> {
        views(self.names@).to_set()
    }
}

impl NameSet {
    #[verifier::type_invariant]
    spec fn well_formed(&self) -> bool {
        ascending(views(self.names@))
    }

    /// The names in order.
    pub closed spec fn listed(&self) -> Seq<Seq<char>> {
        views(self.names@)
    }

    pub fn new() -> (r: NameSet)
        ensures
            r@ == Set::<Seq<char>>::empty(),
            r.listed() == Seq::<Seq<char>>::empty(),
    {
        let r = NameSet { names: Vec::new() };
        assert(views(r.names@) =~= Seq::<Seq<char>>::empty());
        assert(r@ =~= Set::<Seq<char>>::empty());
        r
    }

    /// The names as a list, in dictionary order.
    pub fn names(&self) -> (r: &Vec<String>)
        ensures
            views(r@) == self.listed(),
            ascending(views(r@)),
            views(r@).to_set() == self@,
    {
        proof {
            use_type_invariant(self);
        }
        &self.names
    }

    pub fn len(&self) -> (r: usize)
        ensures
            r == self@.len(),
            self@.finite(),
    {
        proof {
            use_type_invariant(self);
            lemma_ascending_distinct(views(self.names@));
            views(self.names@).unique_seq_to_set();
        }
        self.names.len()
    }

    pub fn is_empty(&self) -> (r: bool)
        ensures
            r == (self@ == Set::<Seq<char>>::empty()),
            r == (self@.len() == 0),
    {
        let n: usize = self.len();
        proof {
            if self@.len() == 0 {
                assert(self@ =~= Set::<Seq<char>>::empty());
            }
        }
        n == 0
    }

    /// The first position whose name is not before `name`.
    fn slot(&self, name: &str) -> (r: usize)
        ensures
            r <= self.names@.len(),
            forall|i: int| 0 <= i < r ==> text_lt(#[trigger] self.names@[i]@, name@),
            r < self.names@.len() ==> !text_lt(self.names@[r as int]@, name@),
            self@.contains(name@) <==> r < self.names@.len() && self.names@[r as int]@ == name@,
    {
        proof {
            use_type_invariant(self);
        }
        let mut i: usize = 0;
        while i < self.names.len() && matches!(order_of(&self.names[i], name), TextOrder::Before)
            invariant
                i <= self.names@.len(),
                forall|j: int| 0 <= j < i ==> text_lt(#[trigger] self.names@[j]@, name@),
            decreases self.names@.len() - i,
        {
            i = i + 1;
        }
        proof {
            let s = views(self.names@);
            lemma_text_lt_irreflexive(name@);
            if self@.contains(name@) {
                let k = choose|k: int| 0 <= k < s.len() && s[k] == name@;
                assert(self.names@[k]@ == name@);
                if k > i {
                    assert(text_lt(s[i as int], s[k]));
                }
            }
            if i < self.names@.len() && self.names@[i as int]@ == name@ {
                assert(s[i as int] == name@);
            }
        }
        i
    }

    pub fn contains(&self, name: &str) -> (r: bool)
        ensures
            r == self@.contains(name@),
    {
        let at: usize = self.slot(name);
        at < self.names.len() && matches!(order_of(&self.names[at], name), TextOrder::Same)
    }

    /// Adds `name`; false when it was there already.
    pub fn insert(&mut self, name: String) -> (r: bool)
        ensures
            final(self)@ == old(self)@.insert(name@),
            r == !old(self)@.contains(name@),
    {
        let at: usize = self.slot(&name);
        if at < self.names.len() && matches!(order_of(&self.names[at], &name), TextOrder::Same) {
            assert(self@.insert(name@) =~= self@);
            return false;
        }
        proof {
            use_type_invariant(&*self);
        }
        let ghost before = views(self.names@);
        let ghost key = name@;
        let mut names: Vec<String> = Vec::new();
        std::mem::swap(&mut names, &mut self.names);
        names.insert(at, name);
        proof {
            let after = views(names@);
            assert(after =~= before.insert(at as int, key));
            assert forall|i: int| 0 <= i < at implies text_lt(#[trigger] before[i], key) by {
                assert(before[i] == old(self).names@[i]@);
            }
            lemma_insert_ascending(before, at as int, key);
            lemma_insert_to_set(before, at as int, key);
        }
        self.names = names;
        true
    }

    pub fn is_subset(&self, other: &NameSet) -> (r: bool)
        ensures
            r == self@.subset_of(other@),
    {
        let mut i: usize = 0;
        while i < self.names.len()
            invariant
                i <= self.names@.len(),
                forall|j: int| 0 <= j < i ==> other@.contains(#[trigger] self.names@[j]@),
            decreases self.names@.len() - i,
        {
            if !other.contains(&self.names[i]) {
                assert(views(self.names@)[i as int] == self.names@[i as int]@);
                assert(self@.contains(self.names@[i as int]@));
                return false;
            }
            i = i + 1;
        }
        proof {
            assert forall|x: Seq<char>| self@.contains(x) implies other@.contains(x) by {
                let s = views(self.names@);
                let k = choose|k: int| 0 <= k < s.len() && s[k] == x;
                assert(self.names@[k]@ == x);
            }
        }
        true
    }
}

impl NameSet {
    pub fn is_disjoint(&self, other: &NameSet) -> (r: bool)
        ensures
            r == self@.disjoint(other@),
    {
        let mut i: usize = 0;
        while i < self.names.len()
            invariant
                i <= self.names@.len(),
                forall|j: int| 0 <= j < i ==> !other@.contains(#[trigger] self.names@[j]@),
            decreases self.names@.len() - i,
        {
            if other.contains(&self.names[i]) {
                assert(views(self.names@)[i as int] == self.names@[i as int]@);
                assert(self@.contains(self.names@[i as int]@));
                return false;
            }
            i = i + 1;
        }
        proof {
            assert forall|x: Seq<char>| self@.contains(x) implies !other@.contains(x) by {
                let s = views(self.names@);
                let k = choose|k: int| 0 <= k < s.len() && s[k] == x;
                assert(self.names@[k]@ == x);
            }
        }
        true
    }

    /// The names of both sets.
    pub fn union(&self, other: &NameSet) -> (r: NameSet)
        ensures
            r@ == self@.union(other@),
    {
        let mut r = self.clone();
        let mut i: usize = 0;
        assert(views(other.names@.take(0)).to_set() =~= Set::<Seq<char>>::empty());
        assert(r@ =~= self@.union(views(other.names@.take(0)).to_set()));
        while i < other.names.len()
            invariant
                i <= other.names@.len(),
                r@ == self@.union(views(other.names@.take(i as int)).to_set()),
            decreases other.names@.len() - i,
        {
            r.insert(other.names[i].clone());
            proof {
                lemma_views_take_set(other.names@, i as int);
                assert(r@ =~= self@.union(views(other.names@.take(i + 1)).to_set()));
            }
            i = i + 1;
        }
        assert(other.names@.take(i as int) =~= other.names@);
        r
    }

    /// The names of this set that `other` lacks.
    pub fn difference(&self, other: &NameSet) -> (r: NameSet)
        ensures
            r@ == self@.difference(other@),
    {
        let mut r = NameSet::new();
        let mut i: usize = 0;
        assert(views(self.names@.take(0)).to_set() =~= Set::<Seq<char>>::empty());
        assert(r@ =~= views(self.names@.take(0)).to_set().difference(other@));
        while i < self.names.len()
            invariant
                i <= self.names@.len(),
                r@ == views(self.names@.take(i as int)).to_set().difference(other@),
            decreases self.names@.len() - i,
        {
            let ghost before = r@;
            if !other.contains(&self.names[i]) {
                r.insert(self.names[i].clone());
            }
            proof {
                lemma_views_take_set(self.names@, i as int);
                assert(r@ =~= views(self.names@.take(i + 1)).to_set().difference(other@));
            }
            i = i + 1;
        }
        assert(self.names@.take(i as int) =~= self.names@);
        r
    }
}

impl Clone for NameSet {
    fn clone(&self) -> (r: NameSet)
        ensures
            r@ == self@,
            r.listed() == self.listed(),
    {
        proof {
            use_type_invariant(self);
        }
        let mut names: Vec<String> = Vec::new();
        let mut i: usize = 0;
        while i < self.names.len()
            invariant
                i <= self.names@.len(),
                names@ == self.names@.take(i as int),
            decreases self.names@.len() - i,
        {
            names.push(self.names[i].clone());
            i = i + 1;
            assert(names@ =~= self.names@.take(i as int));
        }
        assert(names@ =~= self.names@);
        NameSet { names }
    }
}

proof fn lemma_views_take_set(list: Seq<String>, i: int)
    requires
        0 <= i < list.len(),
    ensures
        views(list.take(i + 1)).to_set() == views(list.take(i)).to_set().insert(list[i]@),
{
    let a = views(list.take(i));
    let b = views(list.take(i + 1));
    assert(b =~= a.push(list[i]@));
    lemma_insert_to_set(a, a.len() as int, list[i]@);
    assert(a.insert(a.len() as int, list[i]@) =~= b);
}

proof fn lemma_ascending_distinct(s: Seq<Seq<char>>)
    requires
        ascending(s),
    ensures
        s.no_duplicates(),
{
    assert forall|i: int, j: int| 0 <= i < s.len() && 0 <= j < s.len() && i != j implies s[i]
        != s[j] by {
        lemma_text_lt_irreflexive(s[i]);
        if i < j {
            assert(text_lt(s[i], s[j]));
        } else {
            assert(text_lt(s[j], s[i]));
        }
    }
}

proof fn lemma_insert_ascending(s: Seq<Seq<char>>, at: int, key: Seq<char>)
    requires
        ascending(s),
        0 <= at <= s.len(),
        forall|i: int| 0 <= i < at ==> text_lt(#[trigger] s[i], key),
        at < s.len() ==> !text_lt(s[at], key) && s[at] != key,
    ensures
        ascending(s.insert(at, key)),
{
    let t = s.insert(at, key);
    if at < s.len() {
        lemma_text_lt_total(s[at], key);
    }
    assert forall|i: int, j: int| 0 <= i < j < t.len() implies text_lt(
        #[trigger] t[i],
        #[trigger] t[j],
    ) by {
        if j < at {
            assert(t[i] == s[i] && t[j] == s[j]);
        } else if j == at {
            assert(t[i] == s[i] && t[j] == key);
        } else if i == at {
            assert(t[i] == key && t[j] == s[j - 1]);
            if j - 1 > at {
                assert(text_lt(s[at], s[j - 1]));
                lemma_text_lt_transitive(key, s[at], s[j - 1]);
            }
        } else if i < at {
            assert(t[i] == s[i] && t[j] == s[j - 1]);
        } else {
            assert(t[i] == s[i - 1] && t[j] == s[j - 1]);
        }
    }
}

proof fn lemma_insert_to_set(s: Seq<Seq<char>>, at: int, key: Seq<char>)
    requires
        0 <= at <= s.len(),
    ensures
        s.insert(at, key).to_set() == s.to_set().insert(key),
{
    let t = s.insert(at, key);
    assert forall|x: Seq<char>| t.to_set().contains(x) <==> s.to_set().insert(key).contains(x) by {
        if t.contains(x) {
            let k = choose|k: int| 0 <= k < t.len() && t[k] == x;
            if k < at {
                assert(s[k] == x);
            } else if k > at {
                assert(s[k - 1] == x);
            }
        }
        if s.contains(x) {
            let k = choose|k: int| 0 <= k < s.len() && s[k] == x;
            if k < at {
                assert(t[k] == x);
            } else {
                assert(t[k + 1] == x);
            }
        }
        assert(t[at] == key);
    }
    assert(t.to_set() =~= s.to_set().insert(key));
}

// ---------------------------------------------------------------------------
// Maps from names
// ---------------------------------------------------------------------------

/// A map from names, kept in dictionary order of the names.
#[derive(Debug, PartialEq, Eq)]
pub struct NameMap<T> {
    keys: Vec<String>,
    values: Vec<T>,
}

impl<T> View for NameMap<T> {
    type V = Map<Seq<char>, T>;

    closed spec fn view(&self) -> Map<Seq<char>, T> {
        pairs_map(views(self.keys@), self.values@)
    }
}

/// The map that two lists of the same length stand for.
pub open spec fn pairs_map<T>(keys: Seq<Seq<char>>, values: Seq<T>) -> Map<Seq<char>, T> {
    Map::new(|k: Seq<char>| keys.contains(k), |k: Seq<char>| values[keys.index_of(k)])
}

proof fn lemma_pairs_map_at<T>(keys: Seq<Seq<char>>, values: Seq<T>, i: int)
    requires
        ascending(keys),
        keys.len() == values.len(),
        0 <= i < keys.len(),
    ensures
        pairs_map(keys, values).dom().contains(keys[i]),
        pairs_map(keys, values)[keys[i]] == values[i],
{
    lemma_ascending_distinct(keys);
    assert(keys.contains(keys[i]));
    let k = keys.index_of(keys[i]);
    assert(keys[k] == keys[i]);
}

impl<T: Clone> Clone for NameMap<T> {
    fn clone(&self) -> (r: NameMap<T>)
        ensures
            r@.dom() == self@.dom(),
            forall|k: Seq<char>| #[trigger]
                self@.dom().contains(k) ==> cloned(self@[k], r@[k]),
    {
        proof {
            use_type_invariant(self);
        }
        let mut keys: Vec<String> = Vec::new();
        let mut values: Vec<T> = Vec::new();
        let mut i: usize = 0;
        while i < self.keys.len()
            invariant
                i <= self.keys@.len(),
                self.keys@.len() == self.values@.len(),
                keys@ == self.keys@.take(i as int),
                values@.len() == i,
                forall|k: int| 0 <= k < i ==> cloned(self.values@[k], #[trigger] values@[k]),
            decreases self.keys@.len() - i,
        {
            keys.push(self.keys[i].clone());
            values.push(self.values[i].clone());
            i = i + 1;
            assert(keys@ =~= self.keys@.take(i as int));
        }
        assert(keys@ =~= self.keys@);
        let r = NameMap { keys, values };
        proof {
            assert(r@.dom() =~= self@.dom());
            assert forall|k: Seq<char>| #[trigger] self@.dom().contains(k) implies cloned(
                self@[k],
                r@[k],
            ) by {
                let at = views(self.keys@).index_of(k);
                assert(views(self.keys@)[at] == k);
                assert(cloned(self.values@[at], r.values@[at]));
            }
        }
        r
    }
}

impl<T> NameMap<T> {
    #[verifier::type_invariant]
    spec fn well_formed(&self) -> bool {
        ascending(views(self.keys@)) && self.keys@.len() == self.values@.len()
    }

    pub fn new() -> (r: NameMap<T>)
        ensures
            r@ == Map::<Seq<char>, T>::empty(),
    {
        let r = NameMap { keys: Vec::new(), values: Vec::new() };
        assert(views(r.keys@) =~= Seq::<Seq<char>>::empty());
        assert(r@ =~= Map::<Seq<char>, T>::empty());
        r
    }

    /// The keys as a list, in dictionary order.
    pub fn keys(&self) -> (r: &Vec<String>)
        ensures
            ascending(views(r@)),
            views(r@).to_set() == self@.dom(),
    {
        proof {
            use_type_invariant(self);
            assert(views(self.keys@).to_set() =~= self@.dom());
        }
        &self.keys
    }

    pub fn len(&self) -> (r: usize)
        ensures
            r == self@.dom().len(),
    {
        proof {
            use_type_invariant(self);
            lemma_ascending_distinct(views(self.keys@));
            views(self.keys@).unique_seq_to_set();
            assert(views(self.keys@).to_set() =~= self@.dom());
        }
        self.keys.len()
    }

    fn slot(&self, name: &str) -> (r: usize)
        ensures
            r <= self.keys@.len(),
            self.keys@.len() == self.values@.len(),
            forall|i: int| 0 <= i < r ==> text_lt(#[trigger] self.keys@[i]@, name@),
            r < self.keys@.len() ==> !text_lt(self.keys@[r as int]@, name@),
            self@.dom().contains(name@) <==> r < self.keys@.len() && self.keys@[r as int]@ == name@,
            self@.dom().contains(name@) ==> self@[name@] == self.values@[r as int],
    {
        proof {
            use_type_invariant(self);
        }
        let mut i: usize = 0;
        while i < self.keys.len() && matches!(order_of(&self.keys[i], name), TextOrder::Before)
            invariant
                i <= self.keys@.len(),
                forall|j: int| 0 <= j < i ==> text_lt(#[trigger] self.keys@[j]@, name@),
            decreases self.keys@.len() - i,
        {
            i = i + 1;
        }
        proof {
            let s = views(self.keys@);
            lemma_text_lt_irreflexive(name@);
            if self@.dom().contains(name@) {
                let k = choose|k: int| 0 <= k < s.len() && s[k] == name@;
                assert(self.keys@[k]@ == name@);
                if k > i {
                    assert(text_lt(s[i as int], s[k]));
                }
            }
            if i < self.keys@.len() && self.keys@[i as int]@ == name@ {
                assert(s[i as int] == name@);
                lemma_pairs_map_at(s, self.values@, i as int);
            }
        }
        i
    }

    pub fn get(&self, name: &str) -> (r: Option<&T>)
        ensures
            r is Some <==> self@.dom().contains(name@),
            r matches Some(v) ==> *v == self@[name@],
    {
        let at: usize = self.slot(name);
        if at < self.keys.len() && matches!(order_of(&self.keys[at], name), TextOrder::Same) {
            Some(&self.values[at])
        } else {
            None
        }
    }

    pub fn contains_key(&self, name: &str) -> (r: bool)
        ensures
            r == self@.dom().contains(name@),
    {
        self.get(name).is_some()
    }

    /// Sets the value of `name`.
    pub fn insert(&mut self, name: String, value: T)
        ensures
            final(self)@ == old(self)@.insert(name@, value),
    {
        let at: usize = self.slot(&name);
        proof {
            use_type_invariant(&*self);
        }
        let ghost before = views(self.keys@);
        let ghost olds = self.values@;
        let ghost key = name@;
        let present = at < self.keys.len() && matches!(
            order_of(&self.keys[at], &name),
            TextOrder::Same
        );
        let mut whole = NameMap { keys: Vec::new(), values: Vec::new() };
        std::mem::swap(&mut whole, self);
        let NameMap { mut keys, mut values } = whole;
        if present {
            values.set(at, value);
            proof {
                assert(values@ == olds.update(at as int, value));
                assert forall|k: Seq<char>| before.to_set().contains(k) implies pairs_map(
                    before,
                    values@,
                )[k] == pairs_map(before, olds).insert(key, value)[k] by {
                    let i = choose|i: int| 0 <= i < before.len() && before[i] == k;
                    lemma_ascending_distinct(before);
                    assert(before[at as int] == key);
                    lemma_pairs_map_at(before, values@, i);
                    lemma_pairs_map_at(before, olds, i);
                }
                assert(before[at as int] == key);
                assert(pairs_map(before, values@) =~= pairs_map(before, olds).insert(key, value));
            }
        } else {
            keys.insert(at, name);
            values.insert(at, value);
            proof {
                let after = views(keys@);
                assert(after =~= before.insert(at as int, key));
                assert forall|i: int| 0 <= i < at implies text_lt(#[trigger] before[i], key) by {
                    assert(before[i] == old(self).keys@[i]@);
                }
                lemma_insert_ascending(before, at as int, key);
                lemma_insert_to_set(before, at as int, key);
                assert forall|k: Seq<char>| after.to_set().contains(k) implies pairs_map(
                    after,
                    values@,
                )[k] == pairs_map(before, olds).insert(key, value)[k] by {
                    let i = choose|i: int| 0 <= i < after.len() && after[i] == k;
                    lemma_ascending_distinct(after);
                    lemma_pairs_map_at(after, values@, i);
                    assert(after[at as int] == key);
                    if i < at {
                        assert(before[i] == k);
                        lemma_pairs_map_at(before, olds, i);
                    } else if i > at {
                        assert(before[i - 1] == k);
                        lemma_pairs_map_at(before, olds, i - 1);
                    }
                }
                assert(pairs_map(after, values@) =~= pairs_map(before, olds).insert(key, value));
            }
        }
        *self = NameMap { keys, values };
    }
}

// ---------------------------------------------------------------------------
// Laws
// ---------------------------------------------------------------------------

/// Of two texts the one that ends first, or has the smaller character where they first differ,
/// comes first.
pub proof fn how_texts_are_ordered(head: Seq<char>, a: Seq<char>, b: Seq<char>)
    ensures
        a.len() > 0 && b.len() > 0 && a[0] < b[0] ==> text_lt(head + a, head + b) && !text_lt(
            head + b,
            head + a,
        ),
        b.len() > 0 ==> text_lt(head, head + b) && !text_lt(head + b, head),
    decreases head.len(),
{
    if head.len() > 0 {
        let rest = head.subrange(1, head.len() as int);
        how_texts_are_ordered(rest, a, b);
        assert((head + a).subrange(1, (head + a).len() as int) =~= rest + a);
        assert((head + b).subrange(1, (head + b).len() as int) =~= rest + b);
    } else {
        assert(head + a =~= a);
        assert(head + b =~= b);
    }
}

/// Names that ascend are each before all later ones, so none of them comes twice.
pub proof fn ascending_names_come_once(s: Seq<Seq<char>>, i: int, j: int)
    requires
        ascending(s),
        0 <= i < j < s.len(),
    ensures
        text_lt(s[i], s[j]),
        s[i] != s[j],
{
    lemma_text_lt_irreflexive(s[i]);
}

} // verus!
