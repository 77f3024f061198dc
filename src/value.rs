use vstd::prelude::*;

verus! {

/// A configuration value: the shapes a variable can take.
pub enum Value {
    String(String),
    Integer(i64),
    Boolean(bool),
    /// A float or a date, held in its canonical text.
    Literal(String),
    Array(Vec<Value>),
    Table(Table),
}

/// An ordered mapping from keys to values. Where a key occurs twice the
/// first entry wins; `insert` keeps the keys distinct.
pub struct Table {
    pub entries: Vec<(String, Value)>,
}

/// The value that `key` maps to in `entries`, searching from index `i` on.
pub open spec fn lookup_from(entries: Seq<(String, Value)>, key: Seq<char>, i: int) -> Option<
    Value,
>
    decreases entries.len() - i,
{
    if i < 0 || i >= entries.len() {
        None
    } else if entries[i].0@ == key {
        Some(entries[i].1)
    } else {
        lookup_from(entries, key, i + 1)
    }
}

impl Table {
    /// The value that `key` maps to.
    pub open spec fn spec_get(&self, key: Seq<char>) -> Option<Value> {
        lookup_from(self.entries@, key, 0)
    }

    pub fn new() -> (t: Table)
        ensures
            t.entries@.len() == 0,
            forall|k: Seq<char>| t.spec_get(k) is None,
    {
        Table { entries: Vec::new() }
    }

    /// Index of the entry for `key`, if any.
    fn position(&self, key: &String) -> (r: Option<usize>)
        ensures
            match r {
                Some(i) => i < self.entries@.len() && self.entries@[i as int].0@ == key@
                    && lookup_from(self.entries@, key@, 0) == Some(self.entries@[i as int].1)
                    && forall|j: int| 0 <= j < i ==> self.entries@[j].0@ != key@,
                None => self.spec_get(key@) is None && forall|j: int|
                    0 <= j < self.entries@.len() ==> self.entries@[j].0@ != key@,
            },
    {
        let mut i: usize = 0;
        while i < self.entries.len()
            invariant
                i <= self.entries@.len(),
                lookup_from(self.entries@, key@, 0) == lookup_from(self.entries@, key@, i as int),
                forall|j: int| 0 <= j < i ==> self.entries@[j].0@ != key@,
            decreases self.entries@.len() - i,
        {
            if self.entries[i].0 == *key {
                return Some(i);
            }
            i = i + 1;
        }
        None
    }

    /// The value that `key` maps to.
    pub fn get(&self, key: &String) -> (r: Option<&Value>)
        ensures
            match r {
                Some(v) => self.spec_get(key@) == Some(*v),
                None => self.spec_get(key@) is None,
            },
    {
        match self.position(key) {
            Some(i) => Some(&self.entries[i].1),
            None => None,
        }
    }

    /// Maps `key` to `value`, replacing an earlier value of `key`.
    pub fn insert(&mut self, key: String, value: Value)
        ensures
            final(self).spec_get(key@) == Some(value),
            forall|k: Seq<char>| k != key@ ==> final(self).spec_get(k) == old(self).spec_get(k),
    {
        match self.position(&key) {
            Some(i) => {
                let ghost old_entries = self.entries@;
                let ghost key_copy = key;
                self.entries.set(i, (key, value));
                proof {
                    lemma_lookup_set(old_entries, i as int, key_copy, value);
                }
            },
            None => {
                let ghost old_entries = self.entries@;
                self.entries.push((key, value));
                proof {
                    lemma_lookup_push(old_entries, (key, value));
                }
            },
        }
    }
}

proof fn lemma_lookup_set(entries: Seq<(String, Value)>, i: int, nk: String, v: Value)
    requires
        0 <= i < entries.len(),
        entries[i].0@ == nk@,
        forall|j: int| 0 <= j < i ==> entries[j].0@ != nk@,
    ensures
        forall|key: Seq<char>| #[trigger]
            lookup_from(entries.update(i, (nk, v)), key, 0) == if key == nk@ {
                Some(v)
            } else {
                lookup_from(entries, key, 0)
            },
{
    assert forall|key: Seq<char>| #[trigger]
        lookup_from(entries.update(i, (nk, v)), key, 0) == if key == nk@ {
            Some(v)
        } else {
            lookup_from(entries, key, 0)
        } by {
        lemma_lookup_set_from(entries, i, nk, v, key, 0);
    }
}

proof fn lemma_lookup_set_from(
    entries: Seq<(String, Value)>,
    i: int,
    nk: String,
    v: Value,
    key: Seq<char>,
    j: int,
)
    requires
        0 <= i < entries.len(),
        0 <= j <= i,
        entries[i].0@ == nk@,
        forall|m: int| 0 <= m < i ==> entries[m].0@ != nk@,
    ensures
        lookup_from(entries.update(i, (nk, v)), key, j) == if key == nk@ {
            Some(v)
        } else {
            lookup_from(entries, key, j)
        },
    decreases i - j,
{
    let e2 = entries.update(i, (nk, v));
    if j < i {
        lemma_lookup_set_from(entries, i, nk, v, key, j + 1);
    } else if key != nk@ {
        lemma_lookup_same_tail(entries, e2, key, i + 1);
    }
}

proof fn lemma_lookup_same_tail(a: Seq<(String, Value)>, b: Seq<(String, Value)>, key: Seq<char>, j: int)
    requires
        a.len() == b.len(),
        0 <= j,
        forall|m: int| j <= m < a.len() ==> a[m] == b[m],
    ensures
        lookup_from(a, key, j) == lookup_from(b, key, j),
    decreases a.len() - j,
{
    if j < a.len() {
        lemma_lookup_same_tail(a, b, key, j + 1);
    }
}

proof fn lemma_lookup_push(entries: Seq<(String, Value)>, e: (String, Value))
    requires
        forall|j: int| 0 <= j < entries.len() ==> entries[j].0@ != e.0@,
    ensures
        forall|key: Seq<char>| #[trigger]
            lookup_from(entries.push(e), key, 0) == if key == e.0@ {
                Some(e.1)
            } else {
                lookup_from(entries, key, 0)
            },
{
    assert forall|key: Seq<char>| #[trigger]
        lookup_from(entries.push(e), key, 0) == if key == e.0@ {
            Some(e.1)
        } else {
            lookup_from(entries, key, 0)
        } by {
        lemma_lookup_push_from(entries, e, key, 0);
    }
}

proof fn lemma_lookup_push_from(entries: Seq<(String, Value)>, e: (String, Value), key: Seq<char>, j: int)
    requires
        0 <= j <= entries.len(),
        forall|m: int| 0 <= m < entries.len() ==> entries[m].0@ != e.0@,
    ensures
        lookup_from(entries.push(e), key, j) == if key == e.0@ {
            Some(e.1)
        } else {
            lookup_from(entries, key, j)
        },
    decreases entries.len() - j,
{
    let p = entries.push(e);
    if j < entries.len() {
        assert(p[j] == entries[j]);
        lemma_lookup_push_from(entries, e, key, j + 1);
    } else {
        assert(p[j] == e);
        assert(lookup_from(p, key, j + 1) is None);
    }
}

} // verus!
