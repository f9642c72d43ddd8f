//! Values kept under names, in the order of the names.

use crate::text::{chars_of, same};
use vstd::prelude::*;

verus! {

/// Values by name. Names are distinct and ascending.
#[derive(Debug)]
pub struct NameMap<T> {
    entries: Vec<(String, T)>,
}

impl<T> View for NameMap<T> {
    type V = Seq<(Seq<char>, T)>;

    closed spec fn view(&self) -> Seq<(Seq<char>, T)> {
        named_values(self.entries@)
    }
}

impl<T> NameMap<T> {
    #[verifier::type_invariant]
    spec fn well_formed(self) -> bool {
        ascending(named_values(self.entries@))
    }
}

/// Entries with the characters of their names.
pub open spec fn named_values<T>(entries: Seq<(String, T)>) -> Seq<(Seq<char>, T)> {
    Seq::new(entries.len(), |i: int| (entries[i].0@, entries[i].1))
}

// ---------------------------------------------------------------- model

/// `a` comes before `b` in the order of characters, from position `i` on.
pub open spec fn precedes_from(a: Seq<char>, b: Seq<char>, i: int) -> bool
    decreases b.len() - i,
{
    if i < 0 || i >= b.len() {
        false
    } else if i >= a.len() {
        true
    } else if a[i] == b[i] {
        precedes_from(a, b, i + 1)
    } else {
        a[i] < b[i]
    }
}

/// `a` comes before `b` in dictionary order.
pub open spec fn precedes(a: Seq<char>, b: Seq<char>) -> bool {
    precedes_from(a, b, 0)
}

/// Names are distinct and ascending.
pub open spec fn ascending<T>(m: Seq<(Seq<char>, T)>) -> bool {
    forall|i: int, j: int|
        0 <= i < j < m.len() ==> precedes((#[trigger] m[i]).0, (#[trigger] m[j]).0)
}

/// Position of the first entry named `name` at or after `i`.
pub open spec fn entry_position<T>(m: Seq<(Seq<char>, T)>, name: Seq<char>, i: int) -> Option<int>
    decreases m.len() - i,
{
    if i < 0 || i >= m.len() {
        None
    } else if m[i].0 == name {
        Some(i)
    } else {
        entry_position(m, name, i + 1)
    }
}

/// The value under a name.
pub open spec fn entry<T>(m: Seq<(Seq<char>, T)>, name: Seq<char>) -> Option<T> {
    match entry_position(m, name, 0) {
        Some(i) => Some(m[i].1),
        None => None,
    }
}

/// Where a name belongs: the first entry at or after `i` that does not come before it.
pub open spec fn slot<T>(m: Seq<(Seq<char>, T)>, name: Seq<char>, i: int) -> int
    decreases m.len() - i,
{
    if i < 0 || i >= m.len() || !precedes(m[i].0, name) {
        i
    } else {
        slot(m, name, i + 1)
    }
}

/// The entries with a value put under a name.
pub open spec fn placed<T>(
    m: Seq<(Seq<char>, T)>,
    name: Seq<char>,
    value: T,
) -> Seq<(Seq<char>, T)> {
    let p = slot(m, name, 0);
    if p < m.len() && m[p].0 == name {
        m.update(p, (name, value))
    } else {
        m.insert(p, (name, value))
    }
}

/// The entries without the one under a name.
pub open spec fn without<T>(m: Seq<(Seq<char>, T)>, name: Seq<char>) -> Seq<(Seq<char>, T)> {
    match entry_position(m, name, 0) {
        Some(i) => m.remove(i),
        None => m,
    }
}

pub open spec fn names_of<T>(m: Seq<(Seq<char>, T)>) -> Seq<Seq<char>> {
    Seq::new(m.len(), |i: int| m[i].0)
}

/// The entries with the characters of their values.
pub open spec fn text_entries(m: Seq<(Seq<char>, String)>) -> Seq<(Seq<char>, Seq<char>)> {
    Seq::new(m.len(), |i: int| (m[i].0, m[i].1@))
}

// ---------------------------------------------------------------- operations

/// Whether `a` comes before `b` in dictionary order.
fn comes_before(a: &str, b: &str) -> (r: bool)
    ensures
        r == precedes(a@, b@),
{
    let first = chars_of(a);
    let second = chars_of(b);
    let mut i: usize = 0;
    while i < second.len()
        invariant
            first@ == a@,
            second@ == b@,
            i <= second@.len(),
            precedes(a@, b@) == precedes_from(a@, b@, i as int),
        decreases second@.len() - i,
    {
        if i >= first.len() {
            return true;
        }
        if first[i] != second[i] {
            return first[i] < second[i];
        }
        i += 1;
    }
    false
}

impl<T> NameMap<T> {
    pub fn new() -> (r: NameMap<T>)
        ensures
            r@ == Seq::<(Seq<char>, T)>::empty(),
    {
        let r = NameMap { entries: Vec::new() };
        assert(r@ =~= Seq::<(Seq<char>, T)>::empty());
        r
    }

    pub fn len(&self) -> (r: usize)
        ensures
            r == self@.len(),
    {
        self.entries.len()
    }

    /// The entries, in the order of their names.
    pub fn entries(&self) -> (r: &Vec<(String, T)>)
        ensures
            named_values(r@) == self@,
            ascending(self@),
    {
        proof {
            use_type_invariant(self);
        }
        &self.entries
    }

    /// Position of the entry under a name.
    pub fn position(&self, name: &str) -> (r: Option<usize>)
        ensures
            match r {
                Some(i) => i < self@.len() && entry_position(self@, name@, 0) == Some(i as int),
                None => entry_position(self@, name@, 0) is None,
            },
    {
        let mut i: usize = 0;
        while i < self.entries.len()
            invariant
                i <= self@.len(),
                entry_position(self@, name@, 0) == entry_position(self@, name@, i as int),
            decreases self@.len() - i,
        {
            assert(self@[i as int].0 == self.entries@[i as int].0@);
            if same(self.entries[i].0.as_str(), name) {
                return Some(i);
            }
            i += 1;
        }
        None
    }

    /// The value under a name.
    pub fn get(&self, name: &str) -> (r: Option<&T>)
        ensures
            match r {
                Some(value) => entry(self@, name@) == Some(*value),
                None => entry(self@, name@) is None,
            },
    {
        match self.position(name) {
            Some(i) => {
                assert(self@[i as int].1 == self.entries@[i as int].1);
                Some(&self.entries[i].1)
            },
            None => None,
        }
    }

    pub fn contains_key(&self, name: &str) -> (r: bool)
        ensures
            r == (entry(self@, name@) is Some),
    {
        self.position(name).is_some()
    }

    /// Puts a value under a name.
    pub fn insert(&mut self, name: String, value: T)
        ensures
            final(self)@ == placed(old(self)@, name@, value),
    {
        proof {
            use_type_invariant(&*self);
            law_placed_stays_ascending(self@, name@, value);
        }
        let ghost before = self@;
        let ghost key = name@;
        let mut entries: Vec<(String, T)> = Vec::new();
        std::mem::swap(&mut self.entries, &mut entries);
        let len: usize = entries.len();
        let mut p: usize = 0;
        while p < len && comes_before(entries[p].0.as_str(), name.as_str())
            invariant
                p <= len,
                len == entries@.len(),
                before == named_values(entries@),
                key == name@,
                slot(before, key, 0) == slot(before, key, p as int),
            decreases len - p,
        {
            assert(before[p as int].0 == entries@[p as int].0@);
            p += 1;
        }
        if p < len {
            assert(before[p as int].0 == entries@[p as int].0@);
        }
        if p < len && same(entries[p].0.as_str(), name.as_str()) {
            entries.set(p, (name, value));
            assert(named_values(entries@) =~= before.update(p as int, (key, value)));
        } else {
            entries.insert(p, (name, value));
            assert(named_values(entries@) =~= before.insert(p as int, (key, value)));
        }
        self.entries = entries;
    }

    /// Takes out the value under a name.
    pub fn remove(&mut self, name: &str) -> (r: Option<T>)
        ensures
            final(self)@ == without(old(self)@, name@),
            r == entry(old(self)@, name@),
    {
        proof {
            use_type_invariant(&*self);
            law_no_entry_after_without(self@, name@);
        }
        let ghost before = self@;
        match self.position(name) {
            Some(i) => {
                assert(before[i as int].1 == self.entries@[i as int].1);
                let mut entries: Vec<(String, T)> = Vec::new();
                std::mem::swap(&mut self.entries, &mut entries);
                let (_, value) = entries.remove(i);
                assert(named_values(entries@) =~= before.remove(i as int));
                self.entries = entries;
                Some(value)
            },
            None => None,
        }
    }

    /// The names, in order.
    pub fn names(&self) -> (r: Vec<String>)
        ensures
            r.deep_view() == names_of(self@),
    {
        let mut out: Vec<String> = Vec::new();
        for i in 0..self.entries.len()
            invariant
                out@.len() == i,
                forall|k: int| 0 <= k < i ==> (#[trigger] out@[k])@ == self.entries@[k].0@,
        {
            out.push(self.entries[i].0.clone());
        }
        assert(out.deep_view() =~= names_of(self@));
        out
    }
}

// ---------------------------------------------------------------- laws

proof fn lemma_trichotomy(a: Seq<char>, b: Seq<char>, i: int)
    requires
        0 <= i <= a.len(),
        i <= b.len(),
        a.take(i) == b.take(i),
    ensures
        precedes_from(a, b, i) || precedes_from(b, a, i) || a == b,
        !(precedes_from(a, b, i) && precedes_from(b, a, i)),
        a == b ==> !precedes_from(a, b, i),
    decreases a.len() + b.len() - i,
{
    if i < a.len() && i < b.len() && a[i] == b[i] {
        assert(a.take(i + 1) =~= a.take(i).push(a[i]));
        assert(b.take(i + 1) =~= b.take(i).push(b[i]));
        lemma_trichotomy(a, b, i + 1);
    } else if i == a.len() && i == b.len() {
        assert(a.take(i) =~= a);
        assert(b.take(i) =~= b);
    }
}

proof fn lemma_transitive(a: Seq<char>, b: Seq<char>, c: Seq<char>, i: int)
    requires
        0 <= i,
        precedes_from(a, b, i),
        precedes_from(b, c, i),
    ensures
        precedes_from(a, c, i),
    decreases a.len() + b.len() + c.len() - i,
{
    if i < a.len() && i < b.len() && i < c.len() && a[i] == b[i] && b[i] == c[i] {
        lemma_transitive(a, b, c, i + 1);
    }
}

/// Dictionary order: two names are equal or one comes before the other, never both.
pub proof fn law_names_are_ordered(a: Seq<char>, b: Seq<char>)
    ensures
        precedes(a, b) || precedes(b, a) || a == b,
        !(precedes(a, b) && precedes(b, a)),
        !precedes(a, a),
{
    assert(a.take(0) =~= b.take(0));
    lemma_trichotomy(a, b, 0);
    assert(a.take(0) =~= a.take(0));
    lemma_trichotomy(a, a, 0);
}

proof fn lemma_slot<T>(m: Seq<(Seq<char>, T)>, name: Seq<char>, i: int)
    requires
        0 <= i <= m.len(),
    ensures
        i <= slot(m, name, i) <= m.len(),
        forall|k: int| i <= k < slot(m, name, i) ==> precedes((#[trigger] m[k]).0, name),
        slot(m, name, i) < m.len() ==> !precedes(m[slot(m, name, i)].0, name),
    decreases m.len() - i,
{
    if i < m.len() && precedes(m[i].0, name) {
        lemma_slot(m, name, i + 1);
    }
}

/// Putting a value under a name keeps the names distinct and ascending.
pub proof fn law_placed_stays_ascending<T>(m: Seq<(Seq<char>, T)>, name: Seq<char>, value: T)
    requires
        ascending(m),
    ensures
        ascending(placed(m, name, value)),
{
    lemma_slot(m, name, 0);
    let p = slot(m, name, 0);
    let after = placed(m, name, value);
    if p < m.len() {
        law_names_are_ordered(m[p].0, name);
    }
    assert forall|i: int, j: int| 0 <= i < j < after.len() implies precedes(
        (#[trigger] after[i]).0,
        (#[trigger] after[j]).0,
    ) by {
        if p < m.len() && m[p].0 == name {
            assert(after[i].0 == m[i].0);
            assert(after[j].0 == m[j].0);
        } else {
            if j < p {
                assert(after[i] == m[i] && after[j] == m[j]);
            } else if j == p {
                assert(after[i] == m[i]);
            } else if i < p {
                assert(after[i] == m[i] && after[j] == m[j - 1]);
            } else if i == p {
                assert(after[j] == m[j - 1]);
                if j - 1 > p {
                    assert(precedes(m[p].0, m[j - 1].0));
                    lemma_transitive(name, m[p].0, m[j - 1].0, 0);
                }
            } else {
                assert(after[i] == m[i - 1] && after[j] == m[j - 1]);
            }
        }
    }
}

proof fn lemma_entry_is<T>(m: Seq<(Seq<char>, T)>, name: Seq<char>, i: int, p: int)
    requires
        0 <= i <= p < m.len(),
        m[p].0 == name,
        forall|k: int| i <= k < p ==> (#[trigger] m[k]).0 != name,
    ensures
        entry_position(m, name, i) == Some(p),
    decreases p - i,
{
    if i < p {
        lemma_entry_is(m, name, i + 1, p);
    }
}

proof fn lemma_text_slot(m: Seq<(Seq<char>, String)>, name: Seq<char>, i: int)
    requires
        0 <= i,
    ensures
        slot(text_entries(m), name, i) == slot(m, name, i),
    decreases m.len() - i,
{
    if i < m.len() && precedes(m[i].0, name) {
        lemma_text_slot(m, name, i + 1);
    }
}

/// Putting a text under a name acts on the characters alone.
pub proof fn lemma_text_placed(m: Seq<(Seq<char>, String)>, name: Seq<char>, value: String)
    ensures
        text_entries(placed(m, name, value)) == placed(text_entries(m), name, value@),
{
    lemma_slot(m, name, 0);
    lemma_text_slot(m, name, 0);
    assert(text_entries(placed(m, name, value)) =~= placed(text_entries(m), name, value@));
}

/// What was put under a name is found there.
pub proof fn law_entry_after_placed<T>(m: Seq<(Seq<char>, T)>, name: Seq<char>, value: T)
    ensures
        entry(placed(m, name, value), name) == Some(value),
{
    lemma_slot(m, name, 0);
    let p = slot(m, name, 0);
    let after = placed(m, name, value);
    assert forall|k: int| 0 <= k < p implies (#[trigger] after[k]).0 != name by {
        assert(after[k] == m[k]);
        law_names_are_ordered(m[k].0, name);
    }
    lemma_entry_is(after, name, 0, p);
}

proof fn lemma_no_entry<T>(m: Seq<(Seq<char>, T)>, name: Seq<char>, i: int)
    requires
        0 <= i,
    ensures
        match entry_position(m, name, i) {
            Some(p) => i <= p < m.len() && m[p].0 == name,
            None => forall|k: int| i <= k < m.len() ==> (#[trigger] m[k]).0 != name,
        },
    decreases m.len() - i,
{
    if i < m.len() && m[i].0 != name {
        lemma_no_entry(m, name, i + 1);
    }
}

/// Nothing is found under a name that was taken out.
pub proof fn law_no_entry_after_without<T>(m: Seq<(Seq<char>, T)>, name: Seq<char>)
    requires
        ascending(m),
    ensures
        entry(without(m, name), name) is None,
        ascending(without(m, name)),
{
    lemma_no_entry(m, name, 0);
    let after = without(m, name);
    lemma_no_entry(after, name, 0);
    match entry_position(m, name, 0) {
        Some(p) => {
            assert forall|k: int| 0 <= k < after.len() implies (#[trigger] after[k]).0 != name by {
                if k < p {
                    assert(after[k] == m[k]);
                    assert(precedes(m[k].0, m[p].0));
                } else {
                    assert(after[k] == m[k + 1]);
                    assert(precedes(m[p].0, m[k + 1].0));
                }
                law_names_are_ordered(name, name);
            }
            assert forall|i: int, j: int| 0 <= i < j < after.len() implies precedes(
                (#[trigger] after[i]).0,
                (#[trigger] after[j]).0,
            ) by {
                let a = if i < p {
                    i
                } else {
                    i + 1
                };
                let b = if j < p {
                    j
                } else {
                    j + 1
                };
                assert(after[i] == m[a] && after[j] == m[b]);
            }
        },
        None => {},
    }
}

/// Names are ordered as words are: by their first difference, and a name comes
/// before those that it begins.
pub proof fn law_order_is_that_of_words(a: Seq<char>, b: Seq<char>, at: int)
    requires
        0 <= at <= a.len(),
        at <= b.len(),
        forall|k: int| 0 <= k < at ==> a[k] == #[trigger] b[k],
    ensures
        at < a.len() && at < b.len() && a[at] != b[at] ==> (precedes(a, b) <==> a[at] < b[at]),
        at == a.len() && at < b.len() ==> precedes(a, b) && !precedes(b, a),
        at == a.len() && at == b.len() ==> !precedes(a, b),
{
    lemma_agree(a, b, 0, at);
    lemma_agree(b, a, 0, at);
}

proof fn lemma_agree(a: Seq<char>, b: Seq<char>, i: int, at: int)
    requires
        0 <= i <= at,
        at <= a.len(),
        at <= b.len(),
        forall|k: int| i <= k < at ==> a[k] == #[trigger] b[k],
    ensures
        precedes_from(a, b, i) == precedes_from(a, b, at),
    decreases at - i,
{
    if i < at {
        assert(a[i] == b[i]);
        lemma_agree(a, b, i + 1, at);
    }
}

/// What was put under a name changes no other entry.
pub proof fn law_placed_keeps_others<T>(
    m: Seq<(Seq<char>, T)>,
    name: Seq<char>,
    value: T,
    other: Seq<char>,
)
    requires
        ascending(m),
        other != name,
    ensures
        entry(placed(m, name, value), other) == entry(m, other),
{
    lemma_slot(m, name, 0);
    let p = slot(m, name, 0);
    let after = placed(m, name, value);
    law_placed_stays_ascending(m, name, value);
    lemma_no_entry(m, other, 0);
    lemma_no_entry(after, other, 0);
    let replaced = p < m.len() && m[p].0 == name;
    match entry_position(m, other, 0) {
        Some(k) => {
            let at = if replaced || k < p {
                k
            } else {
                k + 1
            };
            assert(after[at] == m[k]);
            lemma_entry_of(after, other, at);
        },
        None => {
            match entry_position(after, other, 0) {
                Some(k) => {
                    if replaced || k < p {
                        assert(after[k] == m[k]);
                    } else if k > p {
                        assert(after[k] == m[k - 1]);
                    }
                },
                None => {},
            }
        },
    }
}

/// Taking a name out changes no other entry.
pub proof fn law_without_keeps_others<T>(
    m: Seq<(Seq<char>, T)>,
    name: Seq<char>,
    other: Seq<char>,
)
    requires
        ascending(m),
        other != name,
    ensures
        entry(without(m, name), other) == entry(m, other),
{
    lemma_no_entry(m, name, 0);
    lemma_no_entry(m, other, 0);
    let after = without(m, name);
    law_no_entry_after_without(m, name);
    lemma_no_entry(after, other, 0);
    match entry_position(m, name, 0) {
        Some(p) => {
            match entry_position(m, other, 0) {
                Some(k) => {
                    let at = if k < p {
                        k
                    } else {
                        k - 1
                    };
                    assert(after[at] == m[k]);
                    lemma_entry_of(after, other, at);
                },
                None => {
                    match entry_position(after, other, 0) {
                        Some(k) => {
                            if k < p {
                                assert(after[k] == m[k]);
                            } else {
                                assert(after[k] == m[k + 1]);
                            }
                        },
                        None => {},
                    }
                },
            }
        },
        None => {},
    }
}

proof fn lemma_entry_of<T>(m: Seq<(Seq<char>, T)>, name: Seq<char>, at: int)
    requires
        ascending(m),
        0 <= at < m.len(),
        m[at].0 == name,
    ensures
        entry(m, name) == Some(m[at].1),
{
    assert forall|k: int| 0 <= k < at implies (#[trigger] m[k]).0 != name by {
        assert(precedes(m[k].0, m[at].0));
        law_names_are_ordered(name, name);
    }
    lemma_entry_is(m, name, 0, at);
}

} // verus!
