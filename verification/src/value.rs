//! Scalar values and ordered string-keyed maps, the payload data that
//! messages, parameters and results carry.

use vstd::prelude::*;

verus! {

/// A JSON-style scalar value carried in a message's maps. The model stops
/// at scalars: nested objects, arrays and non-integer numbers are outside
/// it, and the wire decoder refuses them.
#[derive(Debug, PartialEq)]
pub enum Value {
    Null,
    Bool(bool),
    Int(i64),
    Str(String),
}

/// The mathematical model of a [`Value`].
pub enum ValueV {
    Null,
    Bool(bool),
    Int(int),
    Str(Seq<char>),
}

impl View for Value {
    type V = ValueV;

    open spec fn view(&self) -> ValueV {
        match self {
            Value::Null => ValueV::Null,
            Value::Bool(b) => ValueV::Bool(*b),
            Value::Int(i) => ValueV::Int(*i as int),
            Value::Str(s) => ValueV::Str(s@),
        }
    }
}

impl Clone for Value {
    fn clone(&self) -> (r: Value)
        ensures
            r@ == self@,
    {
        match self {
            Value::Null => Value::Null,
            Value::Bool(b) => Value::Bool(*b),
            Value::Int(i) => Value::Int(*i),
            Value::Str(s) => Value::Str(s.clone()),
        }
    }
}

/// Compares two string slices character for character.
pub fn str_eq(a: &str, b: &str) -> (r: bool)
    ensures
        r == (a@ == b@),
{
    let an = a.unicode_len();
    let bn = b.unicode_len();
    if an != bn {
        assert(a@ != b@) by {
            assert(a@.len() != b@.len());
        }
        return false;
    }
    let mut i: usize = 0;
    while i < an
        invariant
            i <= an,
            an == a@.len(),
            an == b@.len(),
            forall|j: int| 0 <= j < i ==> a@[j] == b@[j],
        decreases an - i,
    {
        if a.get_char(i) != b.get_char(i) {
            return false;
        }
        i += 1;
    }
    proof {
        assert(a@ =~= b@);
    }
    true
}

/// One key/value pair of a [`KvMap`].
#[derive(Debug, PartialEq)]
pub struct Entry {
    pub key: String,
    pub val: Value,
}

/// A string-keyed map with distinct keys and a stable entry order.
#[derive(Debug, PartialEq)]
pub struct KvMap {
    pub entries: Vec<Entry>,
}

/// Index of the first entry of `s` whose key is `k`, or `-1` if no entry has it.
pub open spec fn find_key(s: Seq<(Seq<char>, ValueV)>, k: Seq<char>) -> int
    decreases s.len(),
{
    if s.len() == 0 {
        -1
    } else {
        let r = find_key(s.drop_last(), k);
        if r >= 0 {
            r
        } else if s.last().0 == k {
            s.len() - 1
        } else {
            -1
        }
    }
}

/// The map that a sequence of entries denotes; the first entry with a key wins.
pub open spec fn seq_as_map(s: Seq<(Seq<char>, ValueV)>) -> Map<Seq<char>, ValueV> {
    Map::new(|k: Seq<char>| find_key(s, k) >= 0, |k: Seq<char>| s[find_key(s, k)].1)
}

/// No two entries of `s` share a key.
pub open spec fn keys_distinct(s: Seq<(Seq<char>, ValueV)>) -> bool {
    forall|i: int, j: int| 0 <= i < j < s.len() ==> s[i].0 != s[j].0
}

pub proof fn lemma_find_key_props(s: Seq<(Seq<char>, ValueV)>, k: Seq<char>)
    ensures
        -1 <= find_key(s, k) < s.len(),
        find_key(s, k) >= 0 ==> s[find_key(s, k)].0 == k,
        find_key(s, k) >= 0 ==> forall|i: int| 0 <= i < find_key(s, k) ==> s[i].0 != k,
        find_key(s, k) == -1 ==> forall|i: int| 0 <= i < s.len() ==> s[i].0 != k,
    decreases s.len(),
{
    if s.len() > 0 {
        lemma_find_key_props(s.drop_last(), k);
        assert forall|i: int| 0 <= i < s.len() - 1 implies s[i] == s.drop_last()[i] by {
        }
    }
}

/// Replacing the value of an entry in place leaves every key lookup unchanged.
pub proof fn lemma_find_key_update(
    s: Seq<(Seq<char>, ValueV)>,
    j: int,
    e: (Seq<char>, ValueV),
    k: Seq<char>,
)
    requires
        0 <= j < s.len(),
        s[j].0 == e.0,
    ensures
        find_key(s.update(j, e), k) == find_key(s, k),
    decreases s.len(),
{
    if s.len() > 0 {
        if j == s.len() - 1 {
            assert(s.update(j, e).drop_last() =~= s.drop_last());
        } else {
            assert(s.update(j, e).drop_last() =~= s.drop_last().update(j, e));
            lemma_find_key_update(s.drop_last(), j, e, k);
        }
    }
}

/// Replacing in place the value of the one entry that holds `k` denotes
/// the same map as inserting `k`/`v`.
pub proof fn lemma_seq_as_map_update(s: Seq<(Seq<char>, ValueV)>, j: int, k: Seq<char>, v: ValueV)
    requires
        keys_distinct(s),
        0 <= j < s.len(),
        s[j].0 == k,
    ensures
        seq_as_map(s.update(j, (k, v))) =~= seq_as_map(s).insert(k, v),
        keys_distinct(s.update(j, (k, v))),
{
    let s2 = s.update(j, (k, v));
    assert forall|kk: Seq<char>| true implies {
        &&& find_key(s2, kk) == find_key(s, kk)
        &&& (find_key(s, kk) >= 0 ==> s[find_key(s, kk)].0 == kk)
        &&& (find_key(s, kk) == -1 ==> forall|i: int| 0 <= i < s.len() ==> s[i].0 != kk)
        &&& -1 <= find_key(s, kk) < s.len()
    } by {
        lemma_find_key_update(s, j, (k, v), kk);
        lemma_find_key_props(s, kk);
    }
    assert(find_key(s, k) == j);
    assert(seq_as_map(s2) =~= seq_as_map(s).insert(k, v));
}

/// Appending an entry with a fresh key denotes inserting it.
pub proof fn lemma_seq_as_map_push(s: Seq<(Seq<char>, ValueV)>, k: Seq<char>, v: ValueV)
    requires
        find_key(s, k) == -1,
    ensures
        seq_as_map(s.push((k, v))) =~= seq_as_map(s).insert(k, v),
        keys_distinct(s) ==> keys_distinct(s.push((k, v))),
{
    let s2 = s.push((k, v));
    assert(s2.drop_last() =~= s);
    assert(s2.last() == (k, v));
    lemma_find_key_props(s, k);
    assert forall|kk: Seq<char>| true implies {
        &&& (kk == k ==> find_key(s2, kk) == s.len())
        &&& (kk != k ==> find_key(s2, kk) == find_key(s, kk))
        &&& (find_key(s, kk) >= 0 ==> s[find_key(s, kk)].0 == kk)
        &&& -1 <= find_key(s, kk) < s.len()
    } by {
        lemma_find_key_props(s, kk);
    }
    assert(seq_as_map(s2) =~= seq_as_map(s).insert(k, v));
}

/// The model of a sequence of entries: each as its key's and value's model.
pub open spec fn ents_view(s: Seq<Entry>) -> Seq<(Seq<char>, ValueV)> {
    Seq::new(s.len(), |i: int| (s[i].key@, s[i].val@))
}

impl View for KvMap {
    type V = Seq<(Seq<char>, ValueV)>;

    open spec fn view(&self) -> Seq<(Seq<char>, ValueV)> {
        ents_view(self.entries@)
    }
}

impl KvMap {
    /// The map this [`KvMap`] denotes.
    pub open spec fn as_map(&self) -> Map<Seq<char>, ValueV> {
        seq_as_map(self@)
    }

    /// Well-formed: no key occurs twice.
    pub open spec fn wf(&self) -> bool {
        keys_distinct(self@)
    }

    /// An empty map.
    pub fn new() -> (r: KvMap)
        ensures
            r@ =~= Seq::<(Seq<char>, ValueV)>::empty(),
            r.wf(),
            r.as_map() =~= Map::<Seq<char>, ValueV>::empty(),
    {
        KvMap { entries: Vec::new() }
    }

    /// How many entries the map holds.
    pub fn len(&self) -> (r: usize)
        ensures
            r == self@.len(),
    {
        self.entries.len()
    }

    /// Index of the entry whose key is `k`, if one exists.
    fn index_of(&self, k: &str) -> (r: Option<usize>)
        ensures
            match r {
                Some(i) => i == find_key(self@, k@) && i < self@.len(),
                None => find_key(self@, k@) == -1,
            },
    {
        proof {
            lemma_find_key_props(self@, k@);
        }
        let n = self.entries.len();
        let mut i: usize = 0;
        while i < n
            invariant
                i <= n,
                n == self@.len(),
                forall|j: int| 0 <= j < i ==> self@[j].0 != k@,
                find_key(self@, k@) >= 0 ==> self@[find_key(self@, k@)].0 == k@,
                find_key(self@, k@) >= 0 ==> forall|j: int|
                    0 <= j < find_key(self@, k@) ==> self@[j].0 != k@,
                find_key(self@, k@) == -1 ==> forall|j: int|
                    0 <= j < self@.len() ==> self@[j].0 != k@,
                -1 <= find_key(self@, k@) < self@.len(),
            decreases n - i,
        {
            if str_eq(self.entries[i].key.as_str(), k) {
                proof {
                    assert(self@[i as int].0 == k@);
                }
                return Some(i);
            }
            i += 1;
        }
        None
    }

    /// The value bound to key `k`, if any.
    pub fn get(&self, k: &str) -> (r: Option<&Value>)
        ensures
            match r {
                Some(v) => self.as_map().contains_key(k@) && v@ == self.as_map()[k@],
                None => !self.as_map().contains_key(k@),
            },
    {
        match self.index_of(k) {
            Some(i) => Some(&self.entries[i].val),
            None => None,
        }
    }

    /// Whether key `k` is bound.
    pub fn contains_key(&self, k: &str) -> (r: bool)
        ensures
            r == self.as_map().contains_key(k@),
    {
        self.index_of(k).is_some()
    }

    /// Binds `k` to `v`: replaces the bound value in place when `k` is
    /// already present, appends a new entry otherwise.
    pub fn insert(&mut self, k: String, v: Value)
        requires
            old(self).wf(),
        ensures
            final(self).wf(),
            final(self).as_map() =~= old(self).as_map().insert(k@, v@),
            find_key(old(self)@, k@) >= 0 ==> final(self)@ =~= old(self)@.update(
                find_key(old(self)@, k@),
                (k@, v@),
            ),
            find_key(old(self)@, k@) == -1 ==> final(self)@ =~= old(self)@.push((k@, v@)),
    {
        proof {
            lemma_find_key_props(self@, k@);
        }
        let ghost s0 = self@;
        match self.index_of(&k) {
            Some(i) => {
                let ghost kv = k@;
                let ghost vv = v@;
                self.entries.set(i, Entry { key: k, val: v });
                proof {
                    let j = find_key(s0, kv);
                    assert(self@ =~= s0.update(j, (kv, vv)));
                    lemma_seq_as_map_update(s0, j, kv, vv);
                }
            },
            None => {
                let ghost kv = k@;
                let ghost vv = v@;
                self.entries.push(Entry { key: k, val: v });
                proof {
                    assert(self@ =~= s0.push((kv, vv)));
                    lemma_seq_as_map_push(s0, kv, vv);
                }
            },
        }
    }

    /// A deep copy with the same entries.
    pub fn duplicate(&self) -> (r: KvMap)
        ensures
            r@ =~= self@,
    {
        let mut out: Vec<Entry> = Vec::new();
        let n = self.entries.len();
        let mut i: usize = 0;
        while i < n
            invariant
                i <= n,
                n == self@.len(),
                out@.len() == i,
                forall|j: int| 0 <= j < i ==> (out@[j].key@, out@[j].val@) == self@[j],
            decreases n - i,
        {
            out.push(
                Entry { key: self.entries[i].key.clone(), val: self.entries[i].val.clone() },
            );
            i += 1;
        }
        let r = KvMap { entries: out };
        proof {
            assert(r@ =~= self@);
        }
        r
    }

    /// The union of two maps; on a shared key the entry of `other` wins.
    pub fn merged(&self, other: &KvMap) -> (r: KvMap)
        requires
            self.wf(),
            other.wf(),
        ensures
            r.wf(),
            r.as_map() =~= self.as_map().union_prefer_right(other.as_map()),
    {
        let mut r = self.duplicate();
        let n = other.entries.len();
        let mut i: usize = 0;
        proof {
            assert(other@.take(0) =~= Seq::<(Seq<char>, ValueV)>::empty());
            assert(r.as_map() =~= self.as_map().union_prefer_right(seq_as_map(other@.take(0))));
        }
        while i < n
            invariant
                i <= n,
                n == other@.len(),
                other.wf(),
                r.wf(),
                r.as_map() =~= self.as_map().union_prefer_right(seq_as_map(other@.take(i as int))),
            decreases n - i,
        {
            let ghost prev = r.as_map();
            r.insert(other.entries[i].key.clone(), other.entries[i].val.clone());
            proof {
                let t = other@.take(i as int);
                let e = other@[i as int];
                assert(other@.take(i + 1) =~= t.push(e));
                assert forall|a: int, b: int| 0 <= a < b < t.len() implies t[a].0 != t[b].0 by {
                    assert(t[a] == other@[a]);
                    assert(t[b] == other@[b]);
                }
                assert forall|a: int| 0 <= a < t.len() implies t[a].0 != e.0 by {
                    assert(t[a] == other@[a]);
                }
                lemma_find_key_props(t, e.0);
                if find_key(t, e.0) >= 0 {
                    assert(t[find_key(t, e.0)].0 == e.0);
                }
                lemma_seq_as_map_push(t, e.0, e.1);
                assert(r.as_map() =~= self.as_map().union_prefer_right(
                    seq_as_map(other@.take(i + 1)),
                ));
            }
            i += 1;
        }
        proof {
            assert(other@.take(n as int) =~= other@);
        }
        r
    }
}

impl Clone for KvMap {
    fn clone(&self) -> (r: KvMap)
        ensures
            r@ == self@,
    {
        self.duplicate()
    }
}

} // verus!
