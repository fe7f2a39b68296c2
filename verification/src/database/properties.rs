//! A table from property keys to property values.

use crate::text::same_text;
use vstd::prelude::*;

verus! {

/// The mathematical content of a property table.
pub type PropertyMap = Map<Seq<char>, Seq<char>>;

/// No two entries carry the same key.
pub open spec fn distinct_keys(s: Seq<(String, String)>) -> bool {
    forall|i: int, j: int| 0 <= i < j < s.len() ==> s[i].0@ != s[j].0@
}

/// Some entry of `s` carries the key `k`.
pub open spec fn has_key(s: Seq<(String, String)>, k: Seq<char>) -> bool {
    exists|i: int| 0 <= i < s.len() && #[trigger] s[i].0@ == k
}

/// The position of an entry of `s` that carries the key `k`.
pub open spec fn position_of(s: Seq<(String, String)>, k: Seq<char>) -> int {
    choose|i: int| 0 <= i < s.len() && #[trigger] s[i].0@ == k
}

/// The map that the entries of `s` spell out.
pub open spec fn entries_map(s: Seq<(String, String)>) -> PropertyMap {
    Map::new(|k: Seq<char>| has_key(s, k), |k: Seq<char>| s[position_of(s, k)].1@)
}

/// With distinct keys, the entry at position `i` is the one its key maps to.
pub proof fn lemma_entry_is_mapped(s: Seq<(String, String)>, i: int)
    requires
        distinct_keys(s),
        0 <= i < s.len(),
    ensures
        has_key(s, s[i].0@),
        position_of(s, s[i].0@) == i,
        entries_map(s).contains_key(s[i].0@),
        entries_map(s)[s[i].0@] == s[i].1@,
{
    let k = s[i].0@;
    assert(s[i].0@ == k);
    let p = position_of(s, k);
    assert(0 <= p < s.len() && s[p].0@ == k);
    if p < i {
        assert(s[p].0@ != s[i].0@);
    } else if i < p {
        assert(s[i].0@ != s[p].0@);
    }
}

/// Writing the pair `(k, v)` at the position of `k`, or behind the last entry
/// where `k` is new, keeps the keys distinct and maps `k` to `v`.
pub proof fn lemma_entries_after_insert(
    before: Seq<(String, String)>,
    after: Seq<(String, String)>,
    i: int,
    k: Seq<char>,
    v: Seq<char>,
)
    requires
        distinct_keys(before),
        0 <= i <= before.len(),
        i < before.len() ==> before[i].0@ == k,
        forall|j: int| 0 <= j < i ==> before[j].0@ != k,
        after.len() == if i < before.len() { before.len() } else { before.len() + 1 },
        after[i].0@ == k,
        after[i].1@ == v,
        forall|j: int| 0 <= j < before.len() && j != i ==> after[j] == before[j],
    ensures
        distinct_keys(after),
        entries_map(after) == entries_map(before).insert(k, v),
{
    assert forall|j: int| 0 <= j < after.len() implies (#[trigger] after[j].0@ == k <==> j
        == i) by {
        if i < j {
            assert(before[i].0@ != before[j].0@);
        }
    }
    assert(distinct_keys(after)) by {
        assert forall|a: int, b: int| 0 <= a < b < after.len() implies after[a].0@
            != after[b].0@ by {
            if a != i && b != i {
                assert(before[a].0@ != before[b].0@);
            }
        }
    }
    assert forall|q: Seq<char>| entries_map(after).contains_key(q) <==> entries_map(
        before,
    ).insert(k, v).contains_key(q) by {
        if has_key(after, q) {
            let j = position_of(after, q);
            if j != i {
                assert(before[j].0@ == q);
            }
        }
        if has_key(before, q) {
            let j = position_of(before, q);
            assert(after[j].0@ == q);
        }
        if q == k {
            assert(after[i].0@ == q);
        }
    }
    assert forall|q: Seq<char>| entries_map(after).contains_key(q) implies entries_map(after)[q]
        == entries_map(before).insert(k, v)[q] by {
        let j = position_of(after, q);
        lemma_entry_is_mapped(after, j);
        if j != i {
            lemma_entry_is_mapped(before, j);
        }
    }
    assert(entries_map(after) =~= entries_map(before).insert(k, v));
}

/// Property keys and their values; each key occurs once.
#[derive(Debug)]
pub struct Properties {
    entries: Vec<(String, String)>,
}

impl View for Properties {
    type V = PropertyMap;

    closed spec fn view(&self) -> PropertyMap {
        entries_map(self.entries@)
    }
}

impl Properties {
    #[verifier::type_invariant]
    spec fn keys_are_distinct(&self) -> bool {
        distinct_keys(self.entries@)
    }

    /// A table without entries.
    pub fn new() -> (r: Self)
        ensures
            r@ == PropertyMap::empty(),
    {
        let r = Properties { entries: Vec::new() };
        assert(r@ =~= PropertyMap::empty());
        r
    }

    /// The value stored under `key`, if there is one.
    pub fn get(&self, key: &str) -> (r: Option<&String>)
        ensures
            match r {
                Some(v) => self@.contains_key(key@) && self@[key@] == v@,
                None => !self@.contains_key(key@),
            },
    {
        proof {
            use_type_invariant(self);
        }
        let mut i: usize = 0;
        while i < self.entries.len()
            invariant
                distinct_keys(self.entries@),
                i <= self.entries@.len(),
                forall|j: int| 0 <= j < i ==> self.entries@[j].0@ != key@,
            decreases self.entries@.len() - i,
        {
            if same_text(self.entries[i].0.as_str(), key) {
                proof {
                    lemma_entry_is_mapped(self.entries@, i as int);
                }
                return Some(&self.entries[i].1);
            }
            i += 1;
        }
        None
    }

    /// The entries of the table, each key once.
    pub fn entries(&self) -> (r: &Vec<(String, String)>)
        ensures
            distinct_keys(r@),
            entries_map(r@) == self@,
    {
        proof {
            use_type_invariant(self);
        }
        &self.entries
    }

    /// Stores `value` under `key`, in place of any value stored there before.
    pub fn insert(&mut self, key: String, value: String)
        ensures
            final(self)@ == old(self)@.insert(key@, value@),
    {
        proof {
            use_type_invariant(&*self);
        }
        let mut entries: Vec<(String, String)> = Vec::new();
        std::mem::swap(&mut entries, &mut self.entries);
        let ghost before = entries@;
        let mut i: usize = 0;
        while i < entries.len()
            invariant
                entries@ == before,
                i <= before.len(),
                forall|j: int| 0 <= j < i ==> before[j].0@ != key@,
            ensures
                i <= before.len(),
                i < before.len() ==> before[i as int].0@ == key@,
                forall|j: int| 0 <= j < i ==> before[j].0@ != key@,
            decreases before.len() - i,
        {
            if same_text(entries[i].0.as_str(), key.as_str()) {
                break;
            }
            i += 1;
        }
        let ghost k = key@;
        let ghost v = value@;
        if i < entries.len() {
            entries.set(i, (key, value));
        } else {
            entries.push((key, value));
        }
        proof {
            lemma_entries_after_insert(before, entries@, i as int, k, v);
        }
        self.entries = entries;
    }
}

} // verus!
