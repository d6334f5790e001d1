use vstd::prelude::*;

verus! {

/// A task identifier: a 128-bit universally unique identifier, carried as its
/// integer value.
#[derive(Clone, Copy, PartialEq, Eq, Hash, Debug, Structural)]
pub struct Uuid(pub u128);

impl View for Uuid {
    type V = u128;

    open spec fn view(&self) -> u128 {
        self.0
    }
}

/// Whether some entry of `s` has key `k`.
spec fn entries_have_key(s: Seq<(String, String)>, k: Seq<char>) -> bool {
    exists|i: int| 0 <= i < s.len() && (#[trigger] s[i]).0@ == k
}

/// The index of an entry of `s` with key `k` (unique when the keys of `s` are
/// distinct).
spec fn entry_index(s: Seq<(String, String)>, k: Seq<char>) -> int {
    choose|i: int| 0 <= i < s.len() && (#[trigger] s[i]).0@ == k
}

/// The string-to-string mapping that an entry list denotes.
spec fn entries_as_map(s: Seq<(String, String)>) -> Map<Seq<char>, Seq<char>> {
    Map::new(|k: Seq<char>| entries_have_key(s, k), |k: Seq<char>| s[entry_index(s, k)].1@)
}

/// No key occurs twice in `s`.
spec fn entries_distinct(s: Seq<(String, String)>) -> bool {
    forall|i: int, j: int|
        0 <= i < j < s.len() ==> (#[trigger] s[i]).0@ != (#[trigger] s[j]).0@
}

proof fn lemma_unique_key_index(s: Seq<(String, String)>, k: Seq<char>, i: int)
    requires
        entries_distinct(s),
        0 <= i < s.len(),
        s[i].0@ == k,
    ensures
        entries_have_key(s, k),
        entry_index(s, k) == i,
{
    assert(entries_have_key(s, k));
    let w = entry_index(s, k);
    assert(0 <= w < s.len() && s[w].0@ == k);
}

proof fn lemma_entries_update(s: Seq<(String, String)>, i: int, key: String, value: String)
    requires
        entries_distinct(s),
        0 <= i < s.len(),
        s[i].0@ == key@,
    ensures
        entries_distinct(s.update(i, (key, value))),
        entries_as_map(s.update(i, (key, value))) == entries_as_map(s).insert(key@, value@),
{
    let t = s.update(i, (key, value));
    assert(forall|j: int| 0 <= j < t.len() ==> (#[trigger] t[j]).0@ == s[j].0@);
    assert(entries_distinct(t));
    assert forall|k: Seq<char>| true implies {
        &&& entries_have_key(t, k) <==> entries_as_map(s).insert(key@, value@).dom().contains(k)
        &&& entries_have_key(t, k) ==> entries_as_map(t)[k] == entries_as_map(s).insert(
            key@,
            value@,
        )[k]
    } by {
        if k == key@ {
            lemma_unique_key_index(t, k, i);
            lemma_unique_key_index(s, k, i);
        } else {
            if entries_have_key(s, k) {
                let w = entry_index(s, k);
                assert(0 <= w < s.len() && s[w].0@ == k);
                lemma_unique_key_index(s, k, w);
                lemma_unique_key_index(t, k, w);
            }
            if entries_have_key(t, k) {
                let w = entry_index(t, k);
                assert(0 <= w < t.len() && t[w].0@ == k);
                lemma_unique_key_index(t, k, w);
                lemma_unique_key_index(s, k, w);
            }
        }
    }
    assert(entries_as_map(t) =~= entries_as_map(s).insert(key@, value@));
}

proof fn lemma_entries_push(s: Seq<(String, String)>, key: String, value: String)
    requires
        entries_distinct(s),
        !entries_have_key(s, key@),
    ensures
        entries_distinct(s.push((key, value))),
        entries_as_map(s.push((key, value))) == entries_as_map(s).insert(key@, value@),
{
    let t = s.push((key, value));
    let n = s.len() as int;
    assert(forall|j: int| 0 <= j < n ==> (#[trigger] t[j]).0@ == s[j].0@);
    assert(t[n].0@ == key@);
    assert(entries_distinct(t));
    assert forall|k: Seq<char>| true implies {
        &&& entries_have_key(t, k) <==> (entries_have_key(s, k) || k == key@)
        &&& entries_have_key(t, k) ==> entries_as_map(t)[k] == entries_as_map(s).insert(
            key@,
            value@,
        )[k]
    } by {
        if k == key@ {
            lemma_unique_key_index(t, k, n);
        } else {
            if entries_have_key(s, k) {
                let w = entry_index(s, k);
                assert(0 <= w < s.len() && s[w].0@ == k);
                lemma_unique_key_index(s, k, w);
                lemma_unique_key_index(t, k, w);
            }
            if entries_have_key(t, k) {
                let w = entry_index(t, k);
                assert(0 <= w < t.len() && t[w].0@ == k);
                assert(w != n);
                lemma_unique_key_index(t, k, w);
                lemma_unique_key_index(s, k, w);
            }
        }
    }
    assert(entries_as_map(t) =~= entries_as_map(s).insert(key@, value@));
}

/// A task: an open-ended property bag mapping string keys to string values.
/// No schema is enforced at this layer.
pub struct TaskMap {
    entries: Vec<(String, String)>,
}

impl View for TaskMap {
    type V = Map<Seq<char>, Seq<char>>;

    closed spec fn view(&self) -> Map<Seq<char>, Seq<char>> {
        entries_as_map(self.entries@)
    }
}

impl TaskMap {
    /// Well-formed: every key holds at most one value.  Constructors establish
    /// this and every method preserves it.
    pub closed spec fn wf(self) -> bool {
        entries_distinct(self.entries@)
    }

    /// An empty task, with no properties.
    pub fn new() -> (r: TaskMap)
        ensures
            r.wf(),
            r@ == Map::<Seq<char>, Seq<char>>::empty(),
    {
        let r = TaskMap { entries: Vec::new() };
        proof {
            assert(r@ =~= Map::<Seq<char>, Seq<char>>::empty());
        }
        r
    }

    /// The value stored under `key`, or `None` when the task has no such
    /// property.
    pub fn get(&self, key: &String) -> (r: Option<&String>)
        requires
            self.wf(),
        ensures
            match r {
                Some(v) => self@.contains_key(key@) && v@ == self@[key@],
                None => !self@.contains_key(key@),
            },
    {
        let n = self.entries.len();
        let mut i: usize = 0;
        while i < n
            invariant
                n == self.entries.len(),
                i <= n,
                self.wf(),
                forall|j: int| 0 <= j < i ==> (#[trigger] self.entries@[j]).0@ != key@,
            decreases n - i,
        {
            if self.entries[i].0 == *key {
                proof {
                    lemma_unique_key_index(self.entries@, key@, i as int);
                }
                return Some(&self.entries[i].1);
            }
            i = i + 1;
        }
        proof {
            assert(!entries_have_key(self.entries@, key@));
        }
        None
    }

    /// Store `value` under `key`, replacing any previous value.
    pub fn set(&mut self, key: String, value: String)
        requires
            old(self).wf(),
        ensures
            final(self).wf(),
            final(self)@ == old(self)@.insert(key@, value@),
    {
        let n = self.entries.len();
        let mut i: usize = 0;
        while i < n
            invariant
                *self == *old(self),
                n == self.entries.len(),
                i <= n,
                self.wf(),
                forall|j: int| 0 <= j < i ==> (#[trigger] self.entries@[j]).0@ != key@,
            decreases n - i,
        {
            if self.entries[i].0 == key {
                proof {
                    lemma_entries_update(self.entries@, i as int, key, value);
                }
                self.entries.set(i, (key, value));
                return ;
            }
            i = i + 1;
        }
        proof {
            assert(!entries_have_key(self.entries@, key@));
            lemma_entries_push(self.entries@, key, value);
        }
        self.entries.push((key, value));
    }

    /// An independent copy: mutating the copy never affects the original.
    pub fn duplicate(&self) -> (r: TaskMap)
        ensures
            r@ == self@,
            r.wf() == self.wf(),
    {
        let n = self.entries.len();
        let mut v: Vec<(String, String)> = Vec::new();
        let mut i: usize = 0;
        while i < n
            invariant
                n == self.entries.len(),
                i == v.len(),
                i <= n,
                forall|j: int| 0 <= j < i ==> v@[j] == self.entries@[j],
            decreases n - i,
        {
            let e = &self.entries[i];
            v.push((e.0.clone(), e.1.clone()));
            i = i + 1;
        }
        proof {
            assert(v@ =~= self.entries@);
        }
        TaskMap { entries: v }
    }
}

} // verus!
