//! A map from strings to values that keeps its entries in the order of their keys.

use vstd::prelude::*;

verus! {

/// `a` and `b` agree before place `i`, and there `a` ends or has the smaller byte.
pub open spec fn parts_at(a: Seq<u8>, b: Seq<u8>, i: int) -> bool {
    &&& 0 <= i <= a.len()
    &&& i < b.len()
    &&& forall|j: int| 0 <= j < i ==> a[j] == b[j]
    &&& i < a.len() ==> a[i] < b[i]
}

/// `a` stands before `b` in the order of dictionaries.
pub open spec fn bytes_before(a: Seq<u8>, b: Seq<u8>) -> bool {
    exists|i: int| #[trigger] parts_at(a, b, i)
}

/// `a` stands before `b` in the order of strings, which goes by their UTF-8 bytes.
pub open spec fn key_before(a: Seq<char>, b: Seq<char>) -> bool {
    bytes_before(vstd::utf8::encode_utf8(a), vstd::utf8::encode_utf8(b))
}

/// No string stands before itself.
pub proof fn lemma_key_irreflexive(a: Seq<char>)
    ensures
        !key_before(a, a),
{
}

/// The order of strings is transitive.
pub proof fn lemma_key_transitive(a: Seq<char>, b: Seq<char>, c: Seq<char>)
    requires
        key_before(a, b),
        key_before(b, c),
    ensures
        key_before(a, c),
{
    let x = vstd::utf8::encode_utf8(a);
    let y = vstd::utf8::encode_utf8(b);
    let z = vstd::utf8::encode_utf8(c);
    let i = choose|i: int| parts_at(x, y, i);
    let j = choose|j: int| parts_at(y, z, j);
    if i <= j {
        assert(parts_at(x, z, i));
    } else {
        assert(parts_at(x, z, j));
    }
}

/// Strings with the same bytes are the same.
proof fn lemma_same_bytes(a: Seq<char>, b: Seq<char>)
    requires
        vstd::utf8::encode_utf8(a) == vstd::utf8::encode_utf8(b),
    ensures
        a == b,
{
    vstd::utf8::encode_utf8_decode_utf8(a);
    vstd::utf8::encode_utf8_decode_utf8(b);
}

/// Of two strings, which stands first.
pub enum Standing {
    Before,
    Same,
    After,
}

/// Where `a` stands in relation to `b` in the order of strings.
pub fn standing(a: &str, b: &str) -> (r: Standing)
    ensures
        match r {
            Standing::Before => key_before(a@, b@) && a@ != b@,
            Standing::Same => a@ == b@,
            Standing::After => key_before(b@, a@) && a@ != b@,
        },
{
    let x = a.as_bytes();
    let y = b.as_bytes();
    proof {
        lemma_key_irreflexive(a@);
    }
    let mut i: usize = 0;
    while i < x.len() && i < y.len()
        invariant
            i <= x@.len(),
            i <= y@.len(),
            x@ == vstd::utf8::encode_utf8(a@),
            y@ == vstd::utf8::encode_utf8(b@),
            !key_before(a@, a@),
            forall|j: int| 0 <= j < i ==> x@[j] == y@[j],
        decreases x@.len() - i,
    {
        if x[i] < y[i] {
            assert(parts_at(x@, y@, i as int));
            return Standing::Before;
        }
        if y[i] < x[i] {
            assert(parts_at(y@, x@, i as int));
            return Standing::After;
        }
        i += 1;
    }
    if i < y.len() {
        assert(parts_at(x@, y@, i as int));
        Standing::Before
    } else if i < x.len() {
        assert(parts_at(y@, x@, i as int));
        Standing::After
    } else {
        assert(x@ =~= y@);
        proof {
            lemma_same_bytes(a@, b@);
        }
        Standing::Same
    }
}

/// The entries stand in the strict order of their keys.
pub open spec fn sorted<V>(e: Seq<(String, V)>) -> bool {
    forall|i: int, j: int|
        #![trigger e[i], e[j]]
        0 <= i < j < e.len() ==> key_before(e[i].0@, e[j].0@)
}

/// Entry `i` has the key `k`.
pub open spec fn key_at<V>(e: Seq<(String, V)>, k: Seq<char>, i: int) -> bool {
    0 <= i < e.len() && e[i].0@ == k
}

/// Some entry has the key `k`.
pub open spec fn has_key<V>(e: Seq<(String, V)>, k: Seq<char>) -> bool {
    exists|i: int| key_at(e, k, i)
}

/// The value of an entry with the key `k`.
pub open spec fn value_of<V>(e: Seq<(String, V)>, k: Seq<char>) -> V {
    e[choose|i: int| key_at(e, k, i)].1
}

/// The map that the entries make up.
pub open spec fn map_of<V>(e: Seq<(String, V)>) -> Map<Seq<char>, V> {
    Map::new(|k: Seq<char>| has_key(e, k), |k: Seq<char>| value_of(e, k))
}

/// In sorted entries a key stands once, and the map gives its value.
pub proof fn lemma_entry<V>(e: Seq<(String, V)>, i: int)
    requires
        sorted(e),
        0 <= i < e.len(),
    ensures
        map_of(e).contains_key(e[i].0@),
        map_of(e)[e[i].0@] == e[i].1,
{
    let k = e[i].0@;
    assert(key_at(e, k, i));
    let n = choose|n: int| key_at(e, k, n);
    assert(key_at(e, k, n));
    lemma_key_irreflexive(k);
    if n < i {
        assert(key_before(e[n].0@, e[i].0@));
    }
    if i < n {
        assert(key_before(e[i].0@, e[n].0@));
    }
}

/// A new entry put at its place.
proof fn lemma_insert<V>(e: Seq<(String, V)>, i: int, key: String, value: V)
    requires
        sorted(e),
        0 <= i <= e.len(),
        forall|j: int| 0 <= j < i ==> key_before(#[trigger] e[j].0@, key@),
        forall|j: int| i <= j < e.len() ==> key_before(key@, #[trigger] e[j].0@),
    ensures
        sorted(e.insert(i, (key, value))),
        map_of(e.insert(i, (key, value))) == map_of(e).insert(key@, value),
        !map_of(e).contains_key(key@),
{
    let f = e.insert(i, (key, value));
    assert forall|a: int, b: int|
        #![trigger f[a], f[b]]
        0 <= a < b < f.len() implies key_before(f[a].0@, f[b].0@) by {
        let x = if a < i {
            e[a]
        } else {
            e[a - 1]
        };
        let y = if b < i {
            e[b]
        } else {
            e[b - 1]
        };
    }
    lemma_key_irreflexive(key@);
    if has_key(e, key@) {
        let n = choose|n: int| key_at(e, key@, n);
        assert(e[n].0@ == key@);
    }
    assert forall|k: Seq<char>| has_key(f, k) == (k == key@ || has_key(e, k)) by {
        if has_key(f, k) {
            let n = choose|n: int| key_at(f, k, n);
            if n < i {
                assert(key_at(e, k, n));
            } else if n > i {
                assert(key_at(e, k, n - 1));
            }
        }
        if k == key@ {
            assert(key_at(f, k, i));
        } else if has_key(e, k) {
            let n = choose|n: int| key_at(e, k, n);
            if n < i {
                assert(key_at(f, k, n));
            } else {
                assert(key_at(f, k, n + 1));
            }
        }
    }
    assert forall|k: Seq<char>| #[trigger] has_key(f, k) implies map_of(f)[k] == map_of(e).insert(
        key@,
        value,
    )[k] by {
        if k == key@ {
            lemma_entry(f, i);
        } else {
            let n = choose|n: int| key_at(e, k, n);
            assert(key_at(e, k, n));
            lemma_entry(e, n);
            if n < i {
                lemma_entry(f, n);
            } else {
                lemma_entry(f, n + 1);
            }
        }
    }
    assert(map_of(f) =~= map_of(e).insert(key@, value));
}

/// The value of an entry replaced.
proof fn lemma_update<V>(e: Seq<(String, V)>, f: Seq<(String, V)>, i: int)
    requires
        sorted(e),
        0 <= i < e.len(),
        f.len() == e.len(),
        f[i].0@ == e[i].0@,
        forall|j: int| 0 <= j < e.len() && j != i ==> #[trigger] f[j] == e[j],
    ensures
        sorted(f),
        map_of(f) == map_of(e).insert(e[i].0@, f[i].1),
{
    assert forall|a: int, b: int|
        #![trigger f[a], f[b]]
        0 <= a < b < f.len() implies key_before(f[a].0@, f[b].0@) by {
        assert(f[a].0@ == e[a].0@);
        assert(f[b].0@ == e[b].0@);
    }
    let key = e[i].0@;
    assert forall|k: Seq<char>| has_key(f, k) == (k == key || has_key(e, k)) by {
        if has_key(f, k) {
            let n = choose|n: int| key_at(f, k, n);
            assert(f[n].0@ == e[n].0@);
            assert(key_at(e, k, n));
        }
        if has_key(e, k) {
            let n = choose|n: int| key_at(e, k, n);
            assert(f[n].0@ == e[n].0@);
            assert(key_at(f, k, n));
        }
        if k == key {
            assert(key_at(f, k, i));
        }
    }
    assert forall|k: Seq<char>| #[trigger] has_key(f, k) implies map_of(f)[k] == map_of(e).insert(
        key,
        f[i].1,
    )[k] by {
        if k == key {
            lemma_entry(f, i);
        } else {
            let n = choose|n: int| key_at(e, k, n);
            assert(key_at(e, k, n));
            lemma_entry(e, n);
            lemma_entry(f, n);
        }
    }
    assert(map_of(f) =~= map_of(e).insert(key, f[i].1));
}

/// An entry taken out.
proof fn lemma_remove<V>(e: Seq<(String, V)>, i: int)
    requires
        sorted(e),
        0 <= i < e.len(),
    ensures
        sorted(e.remove(i)),
        map_of(e.remove(i)) == map_of(e).remove(e[i].0@),
{
    let f = e.remove(i);
    let key = e[i].0@;
    lemma_key_irreflexive(key);
    assert forall|a: int, b: int|
        #![trigger f[a], f[b]]
        0 <= a < b < f.len() implies key_before(f[a].0@, f[b].0@) by {
        let x = if a < i {
            e[a]
        } else {
            e[a + 1]
        };
        let y = if b < i {
            e[b]
        } else {
            e[b + 1]
        };
    }
    assert forall|k: Seq<char>| has_key(f, k) == (k != key && has_key(e, k)) by {
        if has_key(f, k) {
            let n = choose|n: int| key_at(f, k, n);
            let m = if n < i {
                n
            } else {
                n + 1
            };
            assert(key_at(e, k, m));
            if k == key {
                if m < i {
                    assert(key_before(e[m].0@, e[i].0@));
                } else {
                    assert(key_before(e[i].0@, e[m].0@));
                }
            }
        }
        if k != key && has_key(e, k) {
            let n = choose|n: int| key_at(e, k, n);
            if n < i {
                assert(key_at(f, k, n));
            } else {
                assert(key_at(f, k, n - 1));
            }
        }
    }
    assert forall|k: Seq<char>| #[trigger] has_key(f, k) implies map_of(f)[k] == map_of(e)[k] by {
        let n = choose|n: int| key_at(e, k, n);
        assert(key_at(e, k, n));
        lemma_entry(e, n);
        if n < i {
            lemma_entry(f, n);
        } else {
            lemma_entry(f, n - 1);
        }
    }
    assert(map_of(f) =~= map_of(e).remove(key));
}

/// A map from strings to values. Its entries stand in the order of their keys,
/// and no key stands twice.
#[derive(Debug, PartialEq, Eq)]
pub struct StrMap<V> {
    entries: Vec<(String, V)>,
}

impl<V> View for StrMap<V> {
    type V = Map<Seq<char>, V>;

    closed spec fn view(&self) -> Map<Seq<char>, V> {
        map_of(self.entries@)
    }
}

/// What the values of the map stand for.
pub open spec fn deep<V: DeepView>(m: Map<Seq<char>, V>) -> Map<Seq<char>, V::V> {
    m.map_values(|v: V| v.deep_view())
}

impl<V: DeepView> DeepView for StrMap<V> {
    type V = Map<Seq<char>, V::V>;

    open spec fn deep_view(&self) -> Map<Seq<char>, V::V> {
        deep(self@)
    }
}

/// An entry put in.
pub broadcast proof fn lemma_deep_insert<V: DeepView>(m: Map<Seq<char>, V>, k: Seq<char>, v: V)
    ensures
        #[trigger] deep(m.insert(k, v)) == deep(m).insert(k, v.deep_view()),
{
    assert(deep(m.insert(k, v)) =~= deep(m).insert(k, v.deep_view()));
}

/// An entry taken out.
pub broadcast proof fn lemma_deep_remove<V: DeepView>(m: Map<Seq<char>, V>, k: Seq<char>)
    ensures
        #[trigger] deep(m.remove(k)) == deep(m).remove(k),
{
    assert(deep(m.remove(k)) =~= deep(m).remove(k));
}

/// No entries.
pub broadcast proof fn lemma_deep_empty<V: DeepView>()
    ensures
        #[trigger] deep(Map::<Seq<char>, V>::empty()) == Map::<Seq<char>, V::V>::empty(),
{
    assert(deep(Map::<Seq<char>, V>::empty()) =~= Map::<Seq<char>, V::V>::empty());
}

pub broadcast group group_deep {
    lemma_deep_insert,
    lemma_deep_remove,
    lemma_deep_empty,
}

impl<V> StrMap<V> {
    #[verifier::type_invariant]
    closed spec fn wf(self) -> bool {
        sorted(self.entries@)
    }

    /// The entries in their order.
    pub closed spec fn listing(self) -> Seq<(String, V)> {
        self.entries@
    }

    /// A map without entries.
    pub fn new() -> (r: Self)
        ensures
            r@ == Map::<Seq<char>, V>::empty(),
    {
        let r = StrMap { entries: Vec::new() };
        assert(r@ =~= Map::<Seq<char>, V>::empty()) by {
            assert forall|k: Seq<char>| !has_key(r.entries@, k) by {
                if has_key(r.entries@, k) {
                    let n = choose|n: int| key_at(r.entries@, k, n);
                }
            }
        }
        r
    }

    /// The place of `key`, or the place where it would go.
    fn place(&self, key: &str) -> (r: Result<usize, usize>)
        ensures
            match r {
                Ok(i) => i < self.entries@.len() && self.entries@[i as int].0@ == key@,
                Err(i) => {
                    &&& i <= self.entries@.len()
                    &&& forall|j: int|
                        0 <= j < i ==> key_before(#[trigger] self.entries@[j].0@, key@)
                    &&& forall|j: int|
                        i <= j < self.entries@.len() ==> key_before(
                            key@,
                            #[trigger] self.entries@[j].0@,
                        )
                },
            },
    {
        proof {
            use_type_invariant(self);
        }
        let mut lo: usize = 0;
        let mut hi: usize = self.entries.len();
        while lo < hi
            invariant
                sorted(self.entries@),
                lo <= hi <= self.entries@.len(),
                forall|j: int| 0 <= j < lo ==> key_before(#[trigger] self.entries@[j].0@, key@),
                forall|j: int|
                    hi <= j < self.entries@.len() ==> key_before(
                        key@,
                        #[trigger] self.entries@[j].0@,
                    ),
            decreases hi - lo,
        {
            let mid: usize = lo + (hi - lo) / 2;
            match standing(self.entries[mid].0.as_str(), key) {
                Standing::Same => {
                    return Ok(mid);
                },
                Standing::Before => {
                    assert forall|j: int| 0 <= j < mid + 1 implies key_before(
                        #[trigger] self.entries@[j].0@,
                        key@,
                    ) by {
                        if j < mid {
                            lemma_key_transitive(
                                self.entries@[j].0@,
                                self.entries@[mid as int].0@,
                                key@,
                            );
                        }
                    }
                    lo = mid + 1;
                },
                Standing::After => {
                    assert forall|j: int| mid <= j < self.entries@.len() implies key_before(
                        key@,
                        #[trigger] self.entries@[j].0@,
                    ) by {
                        if j > mid {
                            lemma_key_transitive(
                                key@,
                                self.entries@[mid as int].0@,
                                self.entries@[j].0@,
                            );
                        }
                    }
                    hi = mid;
                },
            }
        }
        Err(lo)
    }

    /// The place where a key that is not in the map would go shows its absence.
    proof fn lemma_absent(e: Seq<(String, V)>, key: Seq<char>, i: int)
        requires
            0 <= i <= e.len(),
            forall|j: int| 0 <= j < i ==> key_before(#[trigger] e[j].0@, key),
            forall|j: int| i <= j < e.len() ==> key_before(key, #[trigger] e[j].0@),
        ensures
            !map_of(e).contains_key(key),
    {
        lemma_key_irreflexive(key);
        if has_key(e, key) {
            let n = choose|n: int| key_at(e, key, n);
            assert(e[n].0@ == key);
        }
    }

    /// The value of `key`.
    pub fn get(&self, key: &str) -> (r: Option<&V>)
        ensures
            match r {
                Some(v) => self@.contains_key(key@) && *v == self@[key@],
                None => !self@.contains_key(key@),
            },
    {
        proof {
            use_type_invariant(self);
        }
        match self.place(key) {
            Ok(i) => {
                proof {
                    lemma_entry(self.entries@, i as int);
                }
                Some(&self.entries[i].1)
            },
            Err(i) => {
                proof {
                    Self::lemma_absent(self.entries@, key@, i as int);
                }
                None
            },
        }
    }

    /// Whether the map has `key`.
    pub fn contains_key(&self, key: &str) -> (r: bool)
        ensures
            r == self@.contains_key(key@),
    {
        self.get(key).is_some()
    }

    /// Gives `key` the value `value`; the value that it had before is returned.
    pub fn insert(&mut self, key: String, value: V) -> (r: Option<V>)
        ensures
            final(self)@ == old(self)@.insert(key@, value),
            match r {
                Some(v) => old(self)@.contains_key(key@) && v == old(self)@[key@],
                None => !old(self)@.contains_key(key@),
            },
    {
        proof {
            use_type_invariant(&*self);
        }
        let at = self.place(key.as_str());
        let mut e: Vec<(String, V)> = Vec::new();
        std::mem::swap(&mut e, &mut self.entries);
        let ghost before = e@;
        match at {
            Ok(i) => {
                proof {
                    lemma_entry(before, i as int);
                }
                let ghost fresh = (key, value);
                e.push((key, value));
                let had = e.swap_remove(i);
                proof {
                    lemma_update(before, e@, i as int);
                }
                self.entries = e;
                Some(had.1)
            },
            Err(i) => {
                proof {
                    Self::lemma_absent(before, key@, i as int);
                    lemma_insert(before, i as int, key, value);
                }
                e.insert(i, (key, value));
                self.entries = e;
                None
            },
        }
    }

    /// Takes `key` out; the value that it had is returned.
    pub fn remove(&mut self, key: &str) -> (r: Option<V>)
        ensures
            final(self)@ == old(self)@.remove(key@),
            match r {
                Some(v) => old(self)@.contains_key(key@) && v == old(self)@[key@],
                None => !old(self)@.contains_key(key@),
            },
    {
        proof {
            use_type_invariant(&*self);
        }
        let at = self.place(key);
        match at {
            Ok(i) => {
                let mut e: Vec<(String, V)> = Vec::new();
                std::mem::swap(&mut e, &mut self.entries);
                proof {
                    lemma_entry(e@, i as int);
                    lemma_remove(e@, i as int);
                }
                let had = e.remove(i);
                self.entries = e;
                Some(had.1)
            },
            Err(i) => {
                proof {
                    Self::lemma_absent(self.entries@, key@, i as int);
                    assert(self@.remove(key@) =~= self@);
                }
                None
            },
        }
    }

    /// The entries in the order of their keys.
    pub fn entries(&self) -> (r: &Vec<(String, V)>)
        ensures
            r@ == self.listing(),
            sorted(r@),
            map_of(r@) == self@,
    {
        proof {
            use_type_invariant(self);
        }
        &self.entries
    }

    /// The entries in the order of their keys, handed out.
    pub fn into_entries(self) -> (r: Vec<(String, V)>)
        ensures
            r@ == self.listing(),
            sorted(r@),
            map_of(r@) == self@,
    {
        proof {
            use_type_invariant(&self);
        }
        self.entries
    }
}

impl<V: Clone> Clone for StrMap<V> {
    fn clone(&self) -> (r: Self)
        ensures
            r@.dom() == self@.dom(),
            forall|k: Seq<char>| #[trigger]
                self@.contains_key(k) ==> cloned::<V>(self@[k], r@[k]),
    {
        proof {
            use_type_invariant(self);
        }
        let mut e: Vec<(String, V)> = Vec::new();
        let mut i: usize = 0;
        while i < self.entries.len()
            invariant
                i <= self.entries@.len(),
                e@.len() == i,
                forall|j: int|
                    #![trigger e@[j]]
                    0 <= j < i ==> e@[j].0@ == self.entries@[j].0@ && cloned::<V>(
                        self.entries@[j].1,
                        e@[j].1,
                    ),
            decreases self.entries@.len() - i,
        {
            let pair = &self.entries[i];
            e.push((pair.0.clone(), pair.1.clone()));
            i += 1;
        }
        proof {
            let old_e = self.entries@;
            let new_e = e@;
            assert(sorted(new_e)) by {
                assert forall|a: int, b: int|
                    #![trigger new_e[a], new_e[b]]
                    0 <= a < b < new_e.len() implies key_before(new_e[a].0@, new_e[b].0@) by {
                    assert(key_before(old_e[a].0@, old_e[b].0@));
                }
            }
            assert forall|k: Seq<char>| has_key(old_e, k) == has_key(new_e, k) by {
                if has_key(old_e, k) {
                    let n = choose|n: int| key_at(old_e, k, n);
                    assert(new_e[n].0@ == old_e[n].0@);
                    assert(key_at(new_e, k, n));
                }
                if has_key(new_e, k) {
                    let n = choose|n: int| key_at(new_e, k, n);
                    assert(key_at(old_e, k, n));
                }
            }
            assert forall|k: Seq<char>| #[trigger]
                map_of(old_e).contains_key(k) implies cloned::<V>(
                map_of(old_e)[k],
                map_of(new_e)[k],
            ) by {
                let n = choose|n: int| key_at(old_e, k, n);
                assert(new_e[n].0@ == old_e[n].0@);
                lemma_entry(old_e, n);
                lemma_entry(new_e, n);
            }
            assert(map_of(old_e).dom() =~= map_of(new_e).dom());
        }
        StrMap { entries: e }
    }
}

/// A text stands before those that go on after it, and of two texts that part at a
/// character the one with the lower code point stands first.
pub proof fn law_order_of_texts(
    start: Seq<char>,
    c: char,
    x: Seq<char>,
    d: char,
    y: Seq<char>,
)
    requires
        vstd::utf8::is_ascii_chars(start + seq![c] + x),
        vstd::utf8::is_ascii_chars(start + seq![d] + y),
    ensures
        key_before(start, start + seq![c] + x),
        (c as int) < d as int ==> key_before(start + seq![c] + x, start + seq![d] + y),
{
    let a = start + seq![c] + x;
    let b = start + seq![d] + y;
    let n = start.len() as int;
    assert forall|i: int| 0 <= i < n implies '\0' <= #[trigger] start[i] <= '\u{7f}' by {
        assert(a[i] == start[i]);
    }
    vstd::utf8::is_ascii_chars_encode_utf8(a);
    vstd::utf8::is_ascii_chars_encode_utf8(b);
    vstd::utf8::is_ascii_chars_encode_utf8(start);
    let p = vstd::utf8::encode_utf8(a);
    let q = vstd::utf8::encode_utf8(b);
    let s = vstd::utf8::encode_utf8(start);
    assert forall|i: int| 0 <= i < n implies s[i] == p[i] && p[i] == q[i] by {
        assert(a[i] == start[i] && b[i] == start[i]);
    }
    assert(parts_at(s, p, n));
    assert(a[n] == c && b[n] == d);
    if (c as int) < d as int {
        assert(parts_at(p, q, n));
    }
}

/// Of two different texts one stands before the other, and not both before each other.
pub proof fn law_order_is_total(a: Seq<char>, b: Seq<char>)
    ensures
        a != b ==> key_before(a, b) || key_before(b, a),
        !(key_before(a, b) && key_before(b, a)),
{
    let x = vstd::utf8::encode_utf8(a);
    let y = vstd::utf8::encode_utf8(b);
    if key_before(a, b) && key_before(b, a) {
        lemma_key_transitive(a, b, a);
        lemma_key_irreflexive(a);
    }
    if a != b {
        if x == y {
            lemma_same_bytes(a, b);
        }
        lemma_bytes_part(x, y, 0);
    }
}

/// Different bytes part somewhere.
proof fn lemma_bytes_part(x: Seq<u8>, y: Seq<u8>, i: int)
    requires
        x != y,
        0 <= i <= x.len(),
        i <= y.len(),
        forall|j: int| 0 <= j < i ==> x[j] == y[j],
    ensures
        bytes_before(x, y) || bytes_before(y, x),
    decreases x.len() - i,
{
    if i == x.len() && i == y.len() {
        assert(x =~= y);
    } else if i == x.len() {
        assert(parts_at(x, y, i));
    } else if i == y.len() {
        assert(parts_at(y, x, i));
    } else if x[i] < y[i] {
        assert(parts_at(x, y, i));
    } else if y[i] < x[i] {
        assert(parts_at(y, x, i));
    } else {
        lemma_bytes_part(x, y, i + 1);
    }
}

/// The entries in order are the map: each key has the value that stands beside it, and
/// there is no other key.
pub proof fn law_entries_are_the_map<V>(e: Seq<(String, V)>, i: int, k: Seq<char>)
    requires
        sorted(e),
        0 <= i < e.len(),
    ensures
        map_of(e).contains_key(e[i].0@),
        map_of(e)[e[i].0@] == e[i].1,
        map_of(e).contains_key(k) ==> exists|j: int| 0 <= j < e.len() && (#[trigger] e[j]).0@ == k,
{
    lemma_entry(e, i);
    if map_of(e).contains_key(k) {
        let j = choose|j: int| key_at(e, k, j);
        assert(e[j].0@ == k);
    }
}

} // verus!
