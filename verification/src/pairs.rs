//! Pairs of texts, looked up by the first of the two.

use crate::text::same;
use vstd::prelude::*;

verus! {

/// Position of the first pair named `name` at or after `i`.
pub open spec fn pair_position(
    pairs: Seq<(Seq<char>, Seq<char>)>,
    name: Seq<char>,
    i: int,
) -> Option<int>
    decreases pairs.len() - i,
{
    if i < 0 || i >= pairs.len() {
        None
    } else if pairs[i].0 == name {
        Some(i)
    } else {
        pair_position(pairs, name, i + 1)
    }
}

/// The pairs with one more; a pair of the same name is replaced.
pub open spec fn with_pair(
    pairs: Seq<(Seq<char>, Seq<char>)>,
    name: Seq<char>,
    value: Seq<char>,
) -> Seq<(Seq<char>, Seq<char>)> {
    match pair_position(pairs, name, 0) {
        Some(i) => pairs.update(i, (name, value)),
        None => pairs.push((name, value)),
    }
}

/// The value of the first pair with a key.
pub open spec fn value_of(
    pairs: Seq<(Seq<char>, Seq<char>)>,
    key: Seq<char>,
) -> Option<Seq<char>> {
    match pair_position(pairs, key, 0) {
        Some(i) => Some(pairs[i].1),
        None => None,
    }
}

/// Adds a pair; a pair of the same name is replaced.
pub fn put_pair(pairs: &mut Vec<(String, String)>, name: String, value: String)
    ensures
        final(pairs).deep_view() == with_pair(old(pairs).deep_view(), name@, value@),
{
    let ghost before = pairs.deep_view();
    let ghost added = (name@, value@);
    let mut i: usize = 0;
    while i < pairs.len()
        invariant
            i <= pairs@.len(),
            *pairs == *old(pairs),
            before == pairs.deep_view(),
            added == (name@, value@),
            pair_position(before, name@, 0) == pair_position(before, name@, i as int),
        decreases pairs@.len() - i,
    {
        assert(before[i as int] == (pairs@[i as int].0@, pairs@[i as int].1@));
        if same(pairs[i].0.as_str(), name.as_str()) {
            pairs.set(i, (name, value));
            assert(pairs.deep_view() =~= before.update(i as int, added));
            return;
        }
        i += 1;
    }
    pairs.push((name, value));
    assert(pairs.deep_view() =~= before.push(added));
}

/// The value of the first pair with a key.
pub fn value_in(pairs: &Vec<(String, String)>, key: &str) -> (r: Option<String>)
    ensures
        r.deep_view() == value_of(pairs.deep_view(), key@),
{
    let ghost all = pairs.deep_view();
    for i in 0..pairs.len()
        invariant
            all == pairs.deep_view(),
            pair_position(all, key@, 0) == pair_position(all, key@, i as int),
    {
        assert(all[i as int] == (pairs@[i as int].0@, pairs@[i as int].1@));
        if same(pairs[i].0.as_str(), key) {
            return Some(pairs[i].1.clone());
        }
    }
    None
}

/// A copy of a list of pairs.
pub fn copied_pairs(pairs: &Vec<(String, String)>) -> (r: Vec<(String, String)>)
    ensures
        r.deep_view() == pairs.deep_view(),
{
    let mut out: Vec<(String, String)> = Vec::new();
    for i in 0..pairs.len()
        invariant
            out@.len() == i,
            forall|k: int|
                0 <= k < i ==> (#[trigger] out@[k]).0@ == pairs@[k].0@ && out@[k].1@
                    == pairs@[k].1@,
    {
        out.push((pairs[i].0.clone(), pairs[i].1.clone()));
    }
    assert(out.deep_view() =~= pairs.deep_view());
    out
}

// ---------------------------------------------------------------- laws

/// Each given name is kept once, with what was given last for it.
pub open spec fn settles(
    given: Seq<(Seq<char>, Seq<char>)>,
    kept: Seq<(Seq<char>, Seq<char>)>,
) -> bool {
    &&& forall|i: int, j: int|
        0 <= i < j < kept.len() ==> (#[trigger] kept[i]).0 != (#[trigger] kept[j]).0
    &&& forall|k: int| 0 <= k < kept.len() ==> given_last(given, #[trigger] kept[k])
    &&& forall|q: int| 0 <= q < given.len() ==> names(kept, (#[trigger] given[q]).0)
}

/// One of the pairs has the name.
pub open spec fn names(pairs: Seq<(Seq<char>, Seq<char>)>, name: Seq<char>) -> bool {
    exists|k: int| 0 <= k < pairs.len() && (#[trigger] pairs[k]).0 == name
}

/// The pair is the last one given for its name.
pub open spec fn given_last(
    given: Seq<(Seq<char>, Seq<char>)>,
    pair: (Seq<char>, Seq<char>),
) -> bool {
    exists|q: int|
        0 <= q < given.len() && #[trigger] given[q] == pair && forall|later: int|
            q < later < given.len() ==> (#[trigger] given[later]).0 != pair.0
}

proof fn lemma_pair_place(pairs: Seq<(Seq<char>, Seq<char>)>, name: Seq<char>, i: int)
    requires
        0 <= i,
    ensures
        match pair_position(pairs, name, i) {
            Some(p) => i <= p < pairs.len() && pairs[p].0 == name,
            None => forall|k: int| i <= k < pairs.len() ==> (#[trigger] pairs[k]).0 != name,
        },
    decreases pairs.len() - i,
{
    if i < pairs.len() && pairs[i].0 != name {
        lemma_pair_place(pairs, name, i + 1);
    }
}

pub proof fn lemma_settles_more(
    given: Seq<(Seq<char>, Seq<char>)>,
    kept: Seq<(Seq<char>, Seq<char>)>,
    name: Seq<char>,
    value: Seq<char>,
)
    requires
        settles(given, kept),
    ensures
        settles(given.push((name, value)), with_pair(kept, name, value)),
{
    lemma_pair_place(kept, name, 0);
    let more = given.push((name, value));
    let after = with_pair(kept, name, value);
    let place = match pair_position(kept, name, 0) {
        Some(p) => p,
        None => kept.len() as int,
    };
    assert(after[place] == (name, value));
    assert forall|k: int| 0 <= k < kept.len() implies (#[trigger] after[k]).0 == kept[k].0 && (k
        != place ==> after[k] == kept[k]) by {}
    assert forall|i: int, j: int| 0 <= i < j < after.len() implies (#[trigger] after[i]).0 != (
    #[trigger] after[j]).0 by {
        if j < kept.len() {
            assert(kept[i].0 != kept[j].0);
        } else {
            assert(kept[i].0 != name);
        }
    }
    assert forall|k: int| 0 <= k < after.len() implies given_last(more, #[trigger] after[k]) by {
        if k == place {
            assert(more[given.len() as int] == after[k]);
        } else {
            assert(after[k] == kept[k]);
            let q = choose|q: int|
                0 <= q < given.len() && #[trigger] given[q] == kept[k] && forall|later: int|
                    q < later < given.len() ==> (#[trigger] given[later]).0 != kept[k].0;
            assert(more[q] == after[k]);
            assert(after[k].0 != after[place].0) by {
                if k < place {
                    assert(after[k].0 != after[place].0);
                } else {
                    assert(after[place].0 != after[k].0);
                }
            }
            assert forall|later: int| q < later < more.len() implies (#[trigger] more[later]).0
                != after[k].0 by {
                if later < given.len() {
                    assert(more[later] == given[later]);
                }
            }
        }
    }
    assert forall|q: int| 0 <= q < more.len() implies names(after, (#[trigger] more[q]).0) by {
        if q < given.len() {
            assert(more[q] == given[q]);
            let k = choose|k: int| 0 <= k < kept.len() && (#[trigger] kept[k]).0 == given[q].0;
            assert(after[k].0 == given[q].0);
        }
    }
}

} // verus!
