//! A map from names to values, kept as a list of entries sorted by name.
//!
//! Record and variant types, record values and patterns, and the scoped
//! environments all key their contents by name. `NameMap` keeps the entries
//! in strictly increasing name order (the order in which the contents are
//! listed and rendered), with at most one entry per name.

use vstd::prelude::*;
use crate::text::{seq_lt, str_eq, str_lt, lemma_seq_lt_irreflexive, lemma_seq_lt_total, lemma_seq_lt_transitive};

verus! {

/// Entries ordered by name; `wf` holds of every map built by this module.
#[derive(Debug, PartialEq)]
pub struct NameMap<V> {
    pub entries: Vec<(String, V)>,
}

/// The names of `s`, in order.
pub open spec fn entry_names<V>(s: Seq<(String, V)>) -> Seq<Seq<char>> {
    Seq::new(s.len(), |i: int| s[i].0@)
}

/// Names strictly increasing along the entries (hence pairwise distinct).
pub open spec fn names_sorted<V>(s: Seq<(String, V)>) -> bool {
    forall|i: int, j: int| 0 <= i < j < s.len() ==> seq_lt(#[trigger] s[i].0@, #[trigger] s[j].0@)
}

/// The position of the first entry named `k`, if any.
pub open spec fn find_name<V>(s: Seq<(String, V)>, k: Seq<char>) -> Option<int>
    decreases s.len(),
{
    if s.len() == 0 {
        None
    } else if s[0].0@ == k {
        Some(0)
    } else {
        match find_name(s.drop_first(), k) {
            Some(i) => Some(i + 1),
            None => None,
        }
    }
}

/// The number of leading entries whose names sort before `k`.
pub open spec fn insert_pos<V>(s: Seq<(String, V)>, k: Seq<char>) -> int
    decreases s.len(),
{
    if s.len() == 0 {
        0
    } else if seq_lt(s[0].0@, k) {
        1 + insert_pos(s.drop_first(), k)
    } else {
        0
    }
}

/// The entries after setting `k` to `v`: the entry at the insertion
/// position is replaced when it carries the name `k`, otherwise a new entry
/// goes in at that position.
pub open spec fn insert_entry<V>(s: Seq<(String, V)>, k: String, v: V) -> Seq<(String, V)> {
    let p = insert_pos(s, k@);
    if p < s.len() && s[p].0@ == k@ {
        s.update(p, (k, v))
    } else {
        s.take(p).push((k, v)) + s.skip(p)
    }
}

/// What the entries map each name to: the value of its first entry.
pub open spec fn entries_map<V>(s: Seq<(String, V)>) -> Map<Seq<char>, V> {
    Map::new(|k: Seq<char>| find_name(s, k) is Some, |k: Seq<char>| s[find_name(s, k)->0].1)
}

/// Setting `k` to `v` in the entries sets it in their map.
pub proof fn lemma_insert_entry_map<V>(s: Seq<(String, V)>, k: String, v: V)
    ensures
        entries_map(insert_entry(s, k, v)) == entries_map(s).insert(k@, v),
{
    let r = insert_entry(s, k, v);
    assert forall|k2: Seq<char>| #[trigger] entries_map(r).contains_key(k2) == entries_map(s).insert(k@, v).contains_key(k2)
        && (entries_map(r).contains_key(k2) ==> entries_map(r)[k2] == entries_map(s).insert(k@, v)[k2]) by {
        lemma_insert_entry_find(s, k, v, k2);
    }
    assert(entries_map(r) =~= entries_map(s).insert(k@, v));
}

/// Removing the entry at `p` from sorted entries keeps them sorted and
/// removes its name from their map.
pub proof fn lemma_remove_entry_map<V>(s: Seq<(String, V)>, p: int)
    requires
        names_sorted(s),
        0 <= p < s.len(),
    ensures
        names_sorted(s.remove(p)),
        entries_map(s.remove(p)) == entries_map(s).remove(s[p].0@),
{
    let r = s.remove(p);
    assert forall|i: int| 0 <= i < r.len() implies #[trigger] r[i] == (if i < p { s[i] } else { s[i + 1] }) by {}
    assert forall|i: int, j: int| 0 <= i < j < r.len() implies seq_lt(#[trigger] r[i].0@, #[trigger] r[j].0@) by {
        if i < p && j >= p {
            assert(seq_lt(s[i].0@, s[j + 1].0@));
        } else if i >= p {
            assert(seq_lt(s[i + 1].0@, s[j + 1].0@));
        } else {
            assert(seq_lt(s[i].0@, s[j].0@));
        }
    }
    let k = s[p].0@;
    assert forall|k2: Seq<char>| #[trigger] entries_map(r).contains_key(k2) == entries_map(s).remove(k).contains_key(k2)
        && (entries_map(r).contains_key(k2) ==> entries_map(r)[k2] == entries_map(s).remove(k)[k2]) by {
        lemma_find_name_bounds(s, k2);
        lemma_find_name_bounds(r, k2);
        if let Some(i) = find_name(r, k2) {
            let j = if i < p { i } else { i + 1 };
            assert(s[j].0@ == k2);
            lemma_sorted_find(s, j);
            if k2 == k {
                lemma_sorted_find(s, p);
            }
        } else {
            if let Some(j) = find_name(s, k2) {
                if j != p {
                    let i = if j < p { j } else { j - 1 };
                    assert(r[i].0@ == k2);
                }
            }
        }
        if let Some(i) = find_name(r, k2) {
            lemma_sorted_find(r, i);
        }
    }
    assert(entries_map(r) =~= entries_map(s).remove(k));
}

pub proof fn lemma_find_name_bounds<V>(s: Seq<(String, V)>, k: Seq<char>)
    ensures
        find_name(s, k) matches Some(i) ==> 0 <= i < s.len() && s[i].0@ == k,
        find_name(s, k) is None ==> forall|i: int| 0 <= i < s.len() ==> s[i].0@ != k,
    decreases s.len(),
{
    if s.len() > 0 {
        lemma_find_name_bounds(s.drop_first(), k);
        if find_name(s, k) is None {
            assert forall|i: int| 0 <= i < s.len() implies s[i].0@ != k by {
                if i > 0 {
                    assert(s[i] == s.drop_first()[i - 1]);
                }
            }
        }
    }
}

pub proof fn lemma_find_name_first<V>(s: Seq<(String, V)>, k: Seq<char>, j: int)
    requires
        0 <= j < s.len(),
        s[j].0@ == k,
        forall|i: int| 0 <= i < j ==> s[i].0@ != k,
    ensures
        find_name(s, k) == Some(j),
    decreases s.len(),
{
    if j > 0 {
        assert forall|i: int| 0 <= i < j - 1 implies s.drop_first()[i].0@ != k by {
            assert(s.drop_first()[i] == s[i + 1]);
        }
        lemma_find_name_first(s.drop_first(), k, j - 1);
    }
}

pub proof fn lemma_insert_pos<V>(s: Seq<(String, V)>, k: Seq<char>)
    requires
        names_sorted(s),
    ensures
        0 <= insert_pos(s, k) <= s.len(),
        forall|i: int| 0 <= i < insert_pos(s, k) ==> seq_lt(#[trigger] s[i].0@, k),
        forall|i: int| insert_pos(s, k) <= i < s.len() ==> !seq_lt(#[trigger] s[i].0@, k),
    decreases s.len(),
{
    if s.len() > 0 {
        let t = s.drop_first();
        assert(names_sorted(t)) by {
            assert forall|i: int, j: int| 0 <= i < j < t.len() implies seq_lt(#[trigger] t[i].0@, #[trigger] t[j].0@) by {
                assert(t[i] == s[i + 1]);
                assert(t[j] == s[j + 1]);
            }
        }
        lemma_insert_pos(t, k);
        if seq_lt(s[0].0@, k) {
            assert forall|i: int| 1 <= i < insert_pos(s, k) implies seq_lt(#[trigger] s[i].0@, k) by {
                assert(s[i] == t[i - 1]);
            }
            assert forall|i: int| insert_pos(s, k) <= i < s.len() implies !seq_lt(#[trigger] s[i].0@, k) by {
                assert(s[i] == t[i - 1]);
            }
        } else {
            assert forall|i: int| 0 <= i < s.len() implies !seq_lt(#[trigger] s[i].0@, k) by {
                if i > 0 {
                    assert(seq_lt(s[0].0@, s[i].0@));
                    if seq_lt(s[i].0@, k) {
                        lemma_seq_lt_transitive(s[0].0@, s[i].0@, k);
                    }
                }
            }
        }
    }
}

/// Setting a name keeps the entries sorted, and afterwards the name maps
/// to the new value while every other name keeps its entry.
pub proof fn lemma_insert_entry<V>(s: Seq<(String, V)>, k: String, v: V)
    requires
        names_sorted(s),
    ensures
        names_sorted(insert_entry(s, k, v)),
        find_name(insert_entry(s, k, v), k@) matches Some(i) && insert_entry(s, k, v)[i] == (k, v),
{
    lemma_insert_pos(s, k@);
    let p = insert_pos(s, k@);
    let r = insert_entry(s, k, v);
    if p < s.len() && s[p].0@ == k@ {
        assert forall|i: int, j: int| 0 <= i < j < r.len() implies seq_lt(#[trigger] r[i].0@, #[trigger] r[j].0@) by {
            assert(s[i].0@ == r[i].0@ || i == p);
            assert(s[j].0@ == r[j].0@ || j == p);
            assert(seq_lt(s[i].0@, s[j].0@));
        }
        assert forall|i: int| 0 <= i < p implies r[i].0@ != k@ by {
            lemma_seq_lt_irreflexive(k@);
        }
        lemma_find_name_first(r, k@, p);
    } else {
        assert(r.len() == s.len() + 1);
        assert forall|i: int| 0 <= i < r.len() implies #[trigger] r[i] == (if i < p { s[i] } else if i == p { (k, v) } else { s[i - 1] }) by {
        }
        assert forall|i: int, j: int| 0 <= i < j < r.len() implies seq_lt(#[trigger] r[i].0@, #[trigger] r[j].0@) by {
            if i < p && j == p {
            } else if i == p && j > p {
                lemma_seq_lt_total(k@, s[j - 1].0@);
                if j - 1 == p {
                } else {
                    assert(seq_lt(s[p].0@, s[j - 1].0@));
                    lemma_seq_lt_total(k@, s[p].0@);
                    if seq_lt(s[p].0@, k@) {
                    } else {
                        lemma_seq_lt_transitive(k@, s[p].0@, s[j - 1].0@);
                    }
                }
            } else if i < p && j > p {
                assert(seq_lt(s[i].0@, s[j - 1].0@));
            } else if i > p {
                assert(seq_lt(s[i - 1].0@, s[j - 1].0@));
            }
        }
        assert forall|i: int| 0 <= i < p implies r[i].0@ != k@ by {
            lemma_seq_lt_irreflexive(k@);
        }
        lemma_find_name_first(r, k@, p);
    }
}

/// After `push`, the first entry of each name is unchanged; a name seen for
/// the first time is found at the end.
pub proof fn lemma_find_name_push<V>(s: Seq<(String, V)>, e: (String, V), k: Seq<char>)
    ensures
        find_name(s.push(e), k) == (match find_name(s, k) {
            Some(i) => Some(i),
            None => if e.0@ == k { Some(s.len() as int) } else { None },
        }),
{
    lemma_find_name_bounds(s, k);
    let r = s.push(e);
    match find_name(s, k) {
        Some(i) => {
            assert forall|j: int| 0 <= j < i implies r[j].0@ != k by {
                lemma_find_name_bounds(s, k);
                if s[j].0@ == k {
                    // the first occurrence is at i, so none before
                    assert(find_name(s, k) == Some(i));
                    lemma_find_name_first_le(s, k, j);
                }
            }
            lemma_find_name_first(r, k, i);
        }
        None => {
            if e.0@ == k {
                lemma_find_name_first(r, k, s.len() as int);
            } else {
                lemma_find_name_bounds(r, k);
                if find_name(r, k) is Some {
                    let j = find_name(r, k)->0;
                    assert(r[j].0@ == k);
                    if j < s.len() {
                        assert(s[j].0@ == k);
                    }
                }
            }
        }
    }
}

/// In sorted entries, an entry is the first (and only) one with its name.
pub proof fn lemma_sorted_find<V>(s: Seq<(String, V)>, i: int)
    requires
        names_sorted(s),
        0 <= i < s.len(),
    ensures
        find_name(s, s[i].0@) == Some(i),
{
    assert forall|j: int| 0 <= j < i implies s[j].0@ != s[i].0@ by {
        crate::text::lemma_seq_lt_irreflexive(s[i].0@);
    }
    lemma_find_name_first(s, s[i].0@, i);
}

/// The first occurrence of a name comes no later than any occurrence.
pub proof fn lemma_find_name_first_le<V>(s: Seq<(String, V)>, k: Seq<char>, j: int)
    requires
        0 <= j < s.len(),
        s[j].0@ == k,
    ensures
        find_name(s, k) matches Some(i) && i <= j,
    decreases s.len(),
{
    if j > 0 && s[0].0@ != k {
        assert(s.drop_first()[j - 1] == s[j]);
        lemma_find_name_first_le(s.drop_first(), k, j - 1);
    }
}

/// Setting `k` leaves the first entry of every other name unchanged, and
/// afterwards the first entry named `k` is the new one.
pub proof fn lemma_insert_entry_find<V>(s: Seq<(String, V)>, k: String, v: V, k2: Seq<char>)
    ensures
        k2 == k@ ==> (find_name(insert_entry(s, k, v), k2) matches Some(i) && insert_entry(s, k, v)[i] == (k, v)),
        k2 != k@ ==> match find_name(s, k2) {
            Some(j) => find_name(insert_entry(s, k, v), k2) matches Some(i) && insert_entry(s, k, v)[i] == s[j],
            None => find_name(insert_entry(s, k, v), k2) is None,
        },
{
    let p = insert_pos(s, k@);
    lemma_insert_pos_bounds(s, k@);
    let r = insert_entry(s, k, v);
    lemma_find_name_bounds(s, k2);
    if p < s.len() && s[p].0@ == k@ {
        if k2 == k@ {
            assert forall|j: int| 0 <= j < p implies r[j].0@ != k2 by {
                lemma_insert_pos_before(s, k@, j);
                crate::text::lemma_seq_lt_irreflexive(k@);
            }
            lemma_find_name_first(r, k2, p);
        } else {
            match find_name(s, k2) {
                Some(j) => {
                    assert forall|i: int| 0 <= i < j implies r[i].0@ != k2 by {
                        if s[i].0@ == k2 {
                            lemma_find_name_first_le(s, k2, i);
                        }
                    }
                    lemma_find_name_first(r, k2, j);
                }
                None => {
                    lemma_find_name_bounds(r, k2);
                    if find_name(r, k2) is Some {
                        let i = find_name(r, k2)->0;
                        assert(s[i].0@ == k2);
                    }
                }
            }
        }
    } else {
        assert(r.len() == s.len() + 1);
        assert forall|i: int| 0 <= i < r.len() implies #[trigger] r[i] == (if i < p { s[i] } else if i == p { (k, v) } else { s[i - 1] }) by {}
        if k2 == k@ {
            assert forall|j: int| 0 <= j < p implies r[j].0@ != k2 by {
                lemma_insert_pos_before(s, k@, j);
                crate::text::lemma_seq_lt_irreflexive(k@);
            }
            lemma_find_name_first(r, k2, p);
        } else {
            match find_name(s, k2) {
                Some(j) => {
                    let jj = if j < p { j } else { j + 1 };
                    assert forall|i: int| 0 <= i < jj implies r[i].0@ != k2 by {
                        if i < p {
                            if s[i].0@ == k2 {
                                lemma_find_name_first_le(s, k2, i);
                            }
                        } else if i > p {
                            if s[i - 1].0@ == k2 {
                                lemma_find_name_first_le(s, k2, i - 1);
                            }
                        }
                    }
                    lemma_find_name_first(r, k2, jj);
                }
                None => {
                    lemma_find_name_bounds(r, k2);
                    if find_name(r, k2) is Some {
                        let i = find_name(r, k2)->0;
                        if i < p {
                            assert(s[i].0@ == k2);
                        } else if i > p {
                            assert(s[i - 1].0@ == k2);
                        }
                    }
                }
            }
        }
    }
}

pub proof fn lemma_insert_pos_bounds<V>(s: Seq<(String, V)>, k: Seq<char>)
    ensures
        0 <= insert_pos(s, k) <= s.len(),
    decreases s.len(),
{
    if s.len() > 0 {
        lemma_insert_pos_bounds(s.drop_first(), k);
    }
}

pub proof fn lemma_insert_pos_before<V>(s: Seq<(String, V)>, k: Seq<char>, j: int)
    requires
        0 <= j < insert_pos(s, k),
    ensures
        crate::text::seq_lt(s[j].0@, k),
    decreases s.len(),
{
    lemma_insert_pos_bounds(s, k);
    if j > 0 {
        assert(s.drop_first()[j - 1] == s[j]);
        lemma_insert_pos_before(s.drop_first(), k, j - 1);
    }
}

/// The position at which an entry named `k` goes among model entries.
pub open spec fn field_insert_pos<T>(fs: Seq<(Seq<char>, T)>, k: Seq<char>) -> int
    decreases fs.len(),
{
    if fs.len() == 0 {
        0
    } else if seq_lt(fs[0].0, k) {
        1 + field_insert_pos(fs.drop_first(), k)
    } else {
        0
    }
}

/// Model entries after setting `k` to `v`, as `insert_entry` does.
pub open spec fn insert_field<T>(fs: Seq<(Seq<char>, T)>, k: Seq<char>, v: T) -> Seq<(Seq<char>, T)> {
    let p = field_insert_pos(fs, k);
    if p < fs.len() && fs[p].0 == k {
        fs.update(p, (k, v))
    } else {
        fs.take(p).push((k, v)) + fs.skip(p)
    }
}

/// The entries made by setting each pair in turn, starting from none.
pub open spec fn fields_from<T>(pairs: Seq<(Seq<char>, T)>) -> Seq<(Seq<char>, T)>
    decreases pairs.len(),
{
    if pairs.len() == 0 {
        Seq::empty()
    } else {
        insert_field(fields_from(pairs.drop_last()), pairs.last().0, pairs.last().1)
    }
}

/// The models of entries: each name's text and each value's view.
pub open spec fn model_entries<V: View>(e: Seq<(String, V)>) -> Seq<(Seq<char>, V::V)> {
    Seq::new(e.len(), |i: int| (e[i].0@, e[i].1@))
}

proof fn lemma_insert_pos_model<V: View>(e: Seq<(String, V)>, k: Seq<char>)
    ensures
        insert_pos(e, k) == field_insert_pos(model_entries(e), k),
    decreases e.len(),
{
    if e.len() > 0 {
        assert(model_entries(e.drop_first()) =~= model_entries(e).drop_first());
        lemma_insert_pos_model(e.drop_first(), k);
    }
}

/// Setting an entry commutes with taking models.
pub proof fn lemma_insert_entry_model<V: View>(e: Seq<(String, V)>, k: String, v: V)
    ensures
        model_entries(insert_entry(e, k, v)) == insert_field(model_entries(e), k@, v@),
{
    lemma_insert_pos_model(e, k@);
    lemma_insert_pos_bounds(e, k@);
    let p = insert_pos(e, k@);
    let m = model_entries(e);
    if p < e.len() && e[p].0@ == k@ {
        assert(model_entries(insert_entry(e, k, v)) =~= insert_field(m, k@, v@));
    } else {
        assert(model_entries(insert_entry(e, k, v)) =~= insert_field(m, k@, v@));
    }
}

impl<V> View for NameMap<V> {
    type V = Map<Seq<char>, V>;

    open spec fn view(&self) -> Map<Seq<char>, V> {
        entries_map(self.entries@)
    }
}

impl<V: Clone> Clone for NameMap<V> {
    fn clone(&self) -> Self {
        NameMap { entries: self.entries.clone() }
    }
}

impl<V> NameMap<V> {
    /// The entries as a sequence.
    pub open spec fn spec_entries(&self) -> Seq<(String, V)> {
        self.entries@
    }

    /// The entries are in strictly increasing name order.
    pub open spec fn wf(&self) -> bool {
        names_sorted(self.entries@)
    }

    /// An empty map.
    pub fn new() -> (r: Self)
        ensures
            r.entries@ == Seq::<(String, V)>::empty(),
            r.wf(),
    {
        NameMap { entries: Vec::new() }
    }

    /// The number of entries.
    pub fn len(&self) -> (r: usize)
        ensures
            r == self.entries@.len(),
    {
        self.entries.len()
    }

    /// The position of the first entry named `k`.
    pub fn position(&self, k: &str) -> (r: Option<usize>)
        ensures
            r matches Some(i) ==> find_name(self.entries@, k@) == Some(i as int),
            r is None ==> find_name(self.entries@, k@) is None,
    {
        let mut i: usize = 0;
        while i < self.entries.len()
            invariant
                i <= self.entries@.len(),
                forall|j: int| 0 <= j < i ==> self.entries@[j].0@ != k@,
            decreases self.entries.len() - i,
        {
            if str_eq(self.entries[i].0.as_str(), k) {
                proof {
                    lemma_find_name_first(self.entries@, k@, i as int);
                }
                return Some(i);
            }
            i += 1;
        }
        proof {
            lemma_find_name_bounds(self.entries@, k@);
            if find_name(self.entries@, k@) is Some {
                let j = find_name(self.entries@, k@)->0;
                assert(self.entries@[j].0@ == k@);
            }
        }
        None
    }

    /// The value of the entry named `k`.
    pub fn get(&self, k: &str) -> (r: Option<&V>)
        ensures
            r matches Some(v) ==> find_name(self.entries@, k@) matches Some(i) && *v == self.entries@[i].1,
            r is None ==> find_name(self.entries@, k@) is None,
            r is Some <==> self@.contains_key(k@),
            r matches Some(v) ==> *v == self@[k@],
    {
        proof {
            lemma_find_name_bounds(self.entries@, k@);
        }
        match self.position(k) {
            Some(i) => Some(&self.entries[i].1),
            None => None,
        }
    }

    /// Whether an entry is named `k`.
    pub fn contains_key(&self, k: &str) -> (r: bool)
        ensures
            r == find_name(self.entries@, k@) is Some,
            r == self@.contains_key(k@),
    {
        self.position(k).is_some()
    }

    /// Sets the value of `k` to `v`, keeping the name order.
    pub fn insert(&mut self, k: String, v: V)
        ensures
            final(self).entries@ == insert_entry(old(self).entries@, k, v),
            final(self)@ == old(self)@.insert(k@, v),
            old(self).wf() ==> final(self).wf(),
    {
        let ghost s = self.entries@;
        proof {
            lemma_insert_entry_map(s, k, v);
        }
        let mut p: usize = 0;
        assert(s.skip(0) =~= s);
        while p < self.entries.len() && str_lt(self.entries[p].0.as_str(), k.as_str())
            invariant
                p <= self.entries@.len(),
                self.entries@ == s,
                insert_pos(s, k@) == p + insert_pos(s.skip(p as int), k@),
            decreases self.entries.len() - p,
        {
            proof {
                let t = s.skip(p as int);
                assert(t.drop_first() =~= s.skip(p + 1));
            }
            p += 1;
        }
        proof {
            if p < s.len() {
                assert(s.skip(p as int)[0] == s[p as int]);
            }
            assert(insert_pos(s, k@) == p);
            if old(self).wf() {
                lemma_insert_entry(s, k, v);
            }
        }
        if p < self.entries.len() && str_eq(self.entries[p].0.as_str(), k.as_str()) {
            self.entries.set(p, (k, v));
        } else {
            self.entries.insert(p, (k, v));
            proof {
                assert(self.entries@ =~= insert_entry(s, k, v));
            }
        }
    }

    /// Removes the entry named `k`, if there is one.
    pub fn remove(&mut self, k: &str)
        requires
            old(self).wf(),
        ensures
            final(self).wf(),
            final(self)@ == old(self)@.remove(k@),
    {
        match self.position(k) {
            Some(p) => {
                proof {
                    lemma_find_name_bounds(self.entries@, k@);
                    lemma_remove_entry_map(self.entries@, p as int);
                }
                self.entries.remove(p);
            }
            None => {
                proof {
                    assert(self@ =~= self@.remove(k@));
                }
            }
        }
    }
}

/// `b` has the names of `a`, each with a clone of its value.
pub open spec fn clones_of<V: Clone>(a: Map<Seq<char>, V>, b: Map<Seq<char>, V>) -> bool {
    &&& b.dom() == a.dom()
    &&& forall|k: Seq<char>| #[trigger] b.contains_key(k) ==> cloned(a[k], b[k])
}

impl<V: Clone> NameMap<V> {
    /// Sets each name of `other` to a clone of its value there.
    pub fn insert_clones(&mut self, other: &NameMap<V>)
        requires
            old(self).wf(),
            other.wf(),
        ensures
            final(self).wf(),
            final(self)@.dom() == old(self)@.dom().union(other@.dom()),
            forall|k: Seq<char>| #[trigger] other@.contains_key(k) ==> cloned(other@[k], final(self)@[k]),
            forall|k: Seq<char>| old(self)@.contains_key(k) && !other@.contains_key(k)
                ==> #[trigger] final(self)@[k] == old(self)@[k],
    {
        let ghost before = self@;
        let ghost es = other.entries@;
        let mut i: usize = 0;
        proof {
            assert(es.take(0) =~= Seq::<(String, V)>::empty());
            assert(entries_map(es.take(0)) =~= Map::<Seq<char>, V>::empty());
            assert(self@.dom() =~= before.dom().union(entries_map(es.take(0)).dom()));
        }
        while i < other.entries.len()
            invariant
                i <= es.len(),
                es == other.entries@,
                names_sorted(es),
                self.wf(),
                self@.dom() == before.dom().union(entries_map(es.take(i as int)).dom()),
                forall|k: Seq<char>| #[trigger] entries_map(es.take(i as int)).contains_key(k)
                    ==> cloned(entries_map(es.take(i as int))[k], self@[k]),
                forall|k: Seq<char>| before.contains_key(k) && !entries_map(es.take(i as int)).contains_key(k)
                    ==> #[trigger] self@[k] == before[k],
            decreases es.len() - i,
        {
            let ghost m0 = self@;
            let key = other.entries[i].0.clone();
            let val = other.entries[i].1.clone();
            self.insert(key, val);
            proof {
                let e = es[i as int];
                let t = es.take(i as int);
                assert(es.take(i + 1) =~= t.push(e));
                assert forall|j: int| 0 <= j < t.len() implies t[j].0@ != e.0@ by {
                    lemma_seq_lt_irreflexive(e.0@);
                    assert(seq_lt(es[j].0@, es[i as int].0@));
                }
                lemma_find_name_bounds(t, e.0@);
                assert(find_name(t, e.0@) is None);
                assert forall|k: Seq<char>| #[trigger] entries_map(t.push(e)).contains_key(k)
                    == entries_map(t).insert(e.0@, e.1).contains_key(k)
                    && (entries_map(t.push(e)).contains_key(k) ==> entries_map(t.push(e))[k]
                        == entries_map(t).insert(e.0@, e.1)[k]) by {
                    lemma_find_name_push(t, e, k);
                    lemma_find_name_bounds(t, k);
                    if k == e.0@ {
                        assert(find_name(t.push(e), k) == Some(t.len() as int));
                        assert(t.push(e)[t.len() as int] == e);
                    }
                }
                assert(entries_map(t.push(e)) =~= entries_map(t).insert(e.0@, e.1));
                assert(self@.dom() =~= before.dom().union(entries_map(es.take(i + 1)).dom()));
            }
            i += 1;
        }
        proof {
            assert(es.take(i as int) =~= es);
            assert(self@.dom() =~= before.dom().union(other@.dom()));
        }
    }

    /// A copy of this map: the same names, each with a clone of its value.
    pub fn clone_entries(&self) -> (r: Self)
        requires
            self.wf(),
        ensures
            r.wf(),
            clones_of(self@, r@),
    {
        let mut r: NameMap<V> = NameMap::new();
        r.insert_clones(self);
        assert(r@.dom() =~= self@.dom());
        r
    }
}

} // verus!
