//! The endpoint table: an in-memory mapping from endpoint keys to file
//! contents, built once at startup and only read afterwards.
//!
//! The table is viewed as a `Map<Seq<char>, Seq<char>>`; inserting overwrites
//! any earlier value for the same key, and a lookup returns a copy of the
//! stored content.

use vstd::prelude::*;

verus! {

/// One stored association between an endpoint key and a content blob.
struct Entry {
    key: String,
    content: String,
}

/// The ghost image of one entry.
pub struct EntryView {
    pub key: Seq<char>,
    pub content: Seq<char>,
}

impl View for Entry {
    type V = EntryView;

    closed spec fn view(&self) -> EntryView {
        EntryView { key: self.key@, content: self.content@ }
    }
}

/// The mapping that a sequence of entries denotes, later entries overwriting
/// earlier ones.
spec fn entries_map(s: Seq<EntryView>) -> Map<Seq<char>, Seq<char>>
    decreases s.len(),
{
    if s.len() == 0 {
        Map::empty()
    } else {
        entries_map(s.drop_last()).insert(s.last().key, s.last().content)
    }
}

/// No two entries share a key.
spec fn unique_keys(s: Seq<EntryView>) -> bool {
    forall|i: int, j: int| 0 <= i < j < s.len() ==> s[i].key != s[j].key
}

/// A key occurs in the denoted mapping exactly when some entry holds it.
proof fn lemma_contains(s: Seq<EntryView>, k: Seq<char>)
    ensures
        entries_map(s).contains_key(k) <==> exists|i: int| 0 <= i < s.len() && s[i].key == k,
    decreases s.len(),
{
    if s.len() > 0 {
        lemma_contains(s.drop_last(), k);
        if s.last().key == k {
            assert(s[s.len() - 1].key == k);
        } else if entries_map(s).contains_key(k) {
            let i = choose|i: int| 0 <= i < s.drop_last().len() && s.drop_last()[i].key == k;
            assert(s[i].key == k);
        } else if exists|i: int| 0 <= i < s.len() && s[i].key == k {
            let i = choose|i: int| 0 <= i < s.len() && s[i].key == k;
            assert(s.drop_last()[i].key == k);
        }
    }
}

/// Under unique keys, the mapping holds each entry's own content at its key.
proof fn lemma_value_at(s: Seq<EntryView>, i: int)
    requires
        unique_keys(s),
        0 <= i < s.len(),
    ensures
        entries_map(s).contains_key(s[i].key),
        entries_map(s)[s[i].key] == s[i].content,
    decreases s.len(),
{
    if i == s.len() - 1 {
    } else {
        assert(unique_keys(s.drop_last())) by {
            assert(forall|p: int, q: int|
                0 <= p < q < s.drop_last().len() ==> s.drop_last()[p].key == s[p].key
                    && s.drop_last()[q].key == s[q].key);
        }
        lemma_value_at(s.drop_last(), i);
        assert(s.drop_last()[i] == s[i]);
        assert(s.last().key != s[i].key);
    }
}

/// Overwriting the entry that holds key `k` updates the mapping at `k` alone.
proof fn lemma_update(s: Seq<EntryView>, i: int, c: Seq<char>)
    requires
        unique_keys(s),
        0 <= i < s.len(),
    ensures
        entries_map(s.update(i, EntryView { key: s[i].key, content: c }))
            =~= entries_map(s).insert(s[i].key, c),
        unique_keys(s.update(i, EntryView { key: s[i].key, content: c })),
    decreases s.len(),
{
    let k = s[i].key;
    let e = EntryView { key: k, content: c };
    let t = s.update(i, e);
    assert(forall|p: int, q: int| 0 <= p < q < t.len() ==> t[p].key == s[p].key && t[q].key
        == s[q].key);
    if i == s.len() - 1 {
        assert(t.drop_last() =~= s.drop_last());
        assert(t.last() == e);
    } else {
        assert(t.drop_last() =~= s.drop_last().update(i, e));
        assert(unique_keys(s.drop_last())) by {
            assert(forall|p: int, q: int|
                0 <= p < q < s.drop_last().len() ==> s.drop_last()[p].key == s[p].key
                    && s.drop_last()[q].key == s[q].key);
        }
        assert(s.drop_last()[i] == s[i]);
        lemma_update(s.drop_last(), i, c);
        assert(s.last().key != k);
        assert(t.last() == s.last());
    }
}

/// The in-memory endpoint table.
pub struct EndpointTable {
    entries: Vec<Entry>,
}

impl View for EndpointTable {
    type V = Map<Seq<char>, Seq<char>>;

    closed spec fn view(&self) -> Map<Seq<char>, Seq<char>> {
        entries_map(self.entries@.map_values(|e: Entry| e@))
    }
}

impl EndpointTable {
    /// The table's internal invariant: stored keys are pairwise distinct.
    pub closed spec fn wf(&self) -> bool {
        unique_keys(self.entries@.map_values(|e: Entry| e@))
    }

    /// An empty table.
    pub fn new() -> (r: EndpointTable)
        ensures
            r.wf(),
            r@ == Map::<Seq<char>, Seq<char>>::empty(),
    {
        let r = EndpointTable { entries: Vec::new() };
        proof {
            assert(r.entries@.map_values(|e: Entry| e@) =~= Seq::<EntryView>::empty());
        }
        r
    }

    /// Inserts `content` under `key`, overwriting any earlier value there.
    pub fn insert(&mut self, key: String, content: String)
        requires
            old(self).wf(),
        ensures
            final(self).wf(),
            final(self)@ == old(self)@.insert(key@, content@),
    {
        let ghost s = self.entries@.map_values(|e: Entry| e@);
        let n = self.entries.len();
        let mut i: usize = 0;
        while i < n
            invariant
                n == self.entries.len(),
                i <= n,
                self == old(self),
                s == self.entries@.map_values(|e: Entry| e@),
                unique_keys(s),
                forall|j: int| 0 <= j < i ==> s[j].key != key@,
            decreases n - i,
        {
            if self.entries[i].key == key {
                self.entries[i].content = content;
                proof {
                    let t = self.entries@.map_values(|e: Entry| e@);
                    assert(t =~= s.update(i as int, EntryView { key: key@, content: content@ }));
                    assert(s[i as int].key == key@);
                    lemma_update(s, i as int, content@);
                }
                return;
            }
            i += 1;
        }
        self.entries.push(Entry { key, content });
        proof {
            let t = self.entries@.map_values(|e: Entry| e@);
            assert(t =~= s.push(EntryView { key: key@, content: content@ }));
            assert(t.drop_last() =~= s);
            assert(forall|p: int, q: int| 0 <= p < q < t.len() && q < s.len() ==> t[p].key
                == s[p].key && t[q].key == s[q].key);
        }
    }

    /// Looks `key` up, returning a copy of the stored content when present.
    pub fn get(&self, key: &String) -> (r: Option<String>)
        requires
            self.wf(),
        ensures
            match r {
                Some(c) => self@.contains_key(key@) && c@ == self@[key@],
                None => !self@.contains_key(key@),
            },
    {
        let ghost s = self.entries@.map_values(|e: Entry| e@);
        let n = self.entries.len();
        let mut i: usize = 0;
        while i < n
            invariant
                n == self.entries.len(),
                i <= n,
                s == self.entries@.map_values(|e: Entry| e@),
                self.wf(),
                forall|j: int| 0 <= j < i ==> s[j].key != key@,
            decreases n - i,
        {
            if self.entries[i].key == *key {
                let c = self.entries[i].content.clone();
                proof {
                    lemma_value_at(s, i as int);
                }
                return Some(c);
            }
            i += 1;
        }
        proof {
            lemma_contains(s, key@);
        }
        None
    }

    /// The keys present in the table, one copy each, in storage order.
    pub fn keys(&self) -> (r: Vec<String>)
        requires
            self.wf(),
        ensures
            forall|i: int| 0 <= i < r@.len() ==> self@.contains_key(#[trigger] r@[i]@),
            forall|k: Seq<char>|
                self@.contains_key(k) ==> exists|i: int| 0 <= i < r@.len() && r@[i]@ == k,
            forall|i: int, j: int| 0 <= i < j < r@.len() ==> r@[i]@ != r@[j]@,
    {
        let ghost s = self.entries@.map_values(|e: Entry| e@);
        let n = self.entries.len();
        let mut r: Vec<String> = Vec::new();
        let mut i: usize = 0;
        while i < n
            invariant
                n == self.entries.len(),
                i <= n,
                s == self.entries@.map_values(|e: Entry| e@),
                self.wf(),
                r@.len() == i,
                forall|j: int| 0 <= j < i ==> (#[trigger] r@[j]@) == s[j].key,
            decreases n - i,
        {
            r.push(self.entries[i].key.clone());
            i += 1;
        }
        proof {
            assert forall|j: int| 0 <= j < r@.len() implies self@.contains_key(
                #[trigger] r@[j]@,
            ) by {
                lemma_value_at(s, j);
            }
            assert forall|k: Seq<char>| self@.contains_key(k) implies exists|j: int|
                0 <= j < r@.len() && r@[j]@ == k by {
                lemma_contains(s, k);
                let j = choose|j: int| 0 <= j < s.len() && s[j].key == k;
                assert(r@[j]@ == k);
            }
        }
        r
    }
}

} // verus!
