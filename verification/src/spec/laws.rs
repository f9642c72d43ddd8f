//! What a schema amounts to, said of the schema itself: which fields an object
//! has, what a reference stands for, and which value each keyword leaves.

use super::normalize::{
    all_normalized, field_position, merged, merged_additional, merged_fields, normalized_at,
    with_field, with_fields, NormalizedShape, MAX_DEPTH,
};
use crate::json::{lookup, Json};
use crate::model::schema_node::{FieldShape, Schema};
use vstd::prelude::*;

verus! {

// ---------------------------------------------------------------- allOf

/// The fields of object parts, one part after another.
pub open spec fn listed_fields(parts: Seq<NormalizedShape>) -> Seq<FieldShape> {
    parts.map_values(|part: NormalizedShape| part.node->Object_fields).flatten()
}

/// `fields` holds each name that is mentioned in `all` once, with what the last
/// mention says, in the order of first mentions.
pub open spec fn last_mentions(fields: Seq<FieldShape>, all: Seq<FieldShape>) -> bool {
    &&& forall|i: int, j: int|
        0 <= i < j < fields.len() ==> (#[trigger] fields[i]).name != (#[trigger] fields[j]).name
    &&& forall|q: int| 0 <= q < all.len() ==> mentioned(fields, (#[trigger] all[q]).name)
    &&& forall|k: int| 0 <= k < fields.len() ==> mentioned_last(all, #[trigger] fields[k])
    &&& forall|k: int, l: int, q: int|
        0 <= k < l < fields.len() && 0 <= q < all.len() && (#[trigger] all[q]).name == (
        #[trigger] fields[l]).name ==> mentioned(all.take(q), (#[trigger] fields[k]).name)
}

/// Some field has the name.
pub open spec fn mentioned(fields: Seq<FieldShape>, name: Seq<char>) -> bool {
    exists|k: int| 0 <= k < fields.len() && (#[trigger] fields[k]).name == name
}

/// The field is the last one of its name.
pub open spec fn mentioned_last(all: Seq<FieldShape>, field: FieldShape) -> bool {
    exists|q: int|
        0 <= q < all.len() && #[trigger] all[q] == field && forall|later: int|
            q < later < all.len() ==> (#[trigger] all[later]).name != field.name
}

proof fn lemma_position(fields: Seq<FieldShape>, name: Seq<char>, i: int)
    requires
        0 <= i,
    ensures
        match field_position(fields, name, i) {
            Some(p) => i <= p < fields.len() && fields[p].name == name,
            None => forall|k: int| i <= k < fields.len() ==> (#[trigger] fields[k]).name != name,
        },
    decreases fields.len() - i,
{
    if i < fields.len() && fields[i].name != name {
        lemma_position(fields, name, i + 1);
    }
}

proof fn lemma_one_more(fields: Seq<FieldShape>, all: Seq<FieldShape>, field: FieldShape)
    requires
        last_mentions(fields, all),
    ensures
        last_mentions(with_field(fields, field), all.push(field)),
{
    lemma_position(fields, field.name, 0);
    let after = with_field(fields, field);
    let more = all.push(field);
    let place = match field_position(fields, field.name, 0) {
        Some(p) => p,
        None => fields.len() as int,
    };
    assert(after[place] == field);
    assert forall|k: int| 0 <= k < fields.len() implies (#[trigger] after[k]).name
        == fields[k].name && (k != place ==> after[k] == fields[k]) by {}
    assert forall|i: int, j: int| 0 <= i < j < after.len() implies (#[trigger] after[i]).name != (
    #[trigger] after[j]).name by {
        if j < fields.len() {
            assert(fields[i].name != fields[j].name);
        } else {
            assert(fields[i].name != field.name);
        }
    }
    assert forall|q: int| 0 <= q < more.len() implies mentioned(
        after,
        (#[trigger] more[q]).name,
    ) by {
        if q < all.len() {
            assert(more[q] == all[q]);
            let k = choose|k: int| 0 <= k < fields.len() && (#[trigger] fields[k]).name
                == all[q].name;
            assert(after[k].name == all[q].name);
        }
    }
    assert forall|k: int| 0 <= k < after.len() implies mentioned_last(
        more,
        #[trigger] after[k],
    ) by {
        if k == place {
            assert(more[all.len() as int] == field);
        } else {
            assert(after[k] == fields[k]);
            let q = choose|q: int|
                0 <= q < all.len() && #[trigger] all[q] == fields[k] && forall|later: int|
                    q < later < all.len() ==> (#[trigger] all[later]).name != fields[k].name;
            assert(more[q] == after[k]);
            assert(after[k].name != after[place].name) by {
                if k < place {
                    assert(after[k].name != after[place].name);
                } else {
                    assert(after[place].name != after[k].name);
                }
            }
            assert forall|later: int| q < later < more.len() implies (
            #[trigger] more[later]).name != after[k].name by {
                if later < all.len() {
                    assert(more[later] == all[later]);
                }
            }
        }
    }
    assert forall|k: int, l: int, q: int|
        0 <= k < l < after.len() && 0 <= q < more.len() && (#[trigger] more[q]).name == (
        #[trigger] after[l]).name implies mentioned(more.take(q), (#[trigger] after[k]).name) by {
        assert(more.take(q) =~= all.take(q));
        if q < all.len() {
            assert(more[q] == all[q]);
            if l < fields.len() {
                assert(fields[l].name == after[l].name && fields[k].name == after[k].name);
                assert(all[q].name == fields[l].name);
            } else {
                // A name that is new was not mentioned before.
                assert(mentioned(fields, all[q].name));
            }
        } else {
            assert(all.take(q) =~= all);
            assert(k < fields.len());
            assert(mentioned_last(all, fields[k]));
            let at = choose|at: int| 0 <= at < all.len() && #[trigger] all[at] == fields[k];
            assert(all[at].name == after[k].name);
        }
    }
}

proof fn lemma_more(fields: Seq<FieldShape>, all: Seq<FieldShape>, more: Seq<FieldShape>, i: int)
    requires
        last_mentions(fields, all),
        0 <= i <= more.len(),
    ensures
        last_mentions(with_fields(fields, more, i), all + more.skip(i)),
    decreases more.len() - i,
{
    if i < more.len() {
        lemma_one_more(fields, all, more[i]);
        lemma_more(with_field(fields, more[i]), all.push(more[i]), more, i + 1);
        assert(all.push(more[i]) + more.skip(i + 1) =~= all + more.skip(i));
    } else {
        assert(all + more.skip(i) =~= all);
    }
}

proof fn lemma_merged(
    fields: Seq<FieldShape>,
    all: Seq<FieldShape>,
    parts: Seq<NormalizedShape>,
    i: int,
)
    requires
        last_mentions(fields, all),
        0 <= i <= parts.len(),
    ensures
        last_mentions(merged_fields(fields, parts, i), all + listed_fields(parts.skip(i))),
    decreases parts.len() - i,
{
    let rest = parts.skip(i);
    let lists = rest.map_values(|part: NormalizedShape| part.node->Object_fields);
    if i < parts.len() {
        let own = parts[i].node->Object_fields;
        lemma_more(fields, all, own, 0);
        assert(own.skip(0) =~= own);
        lemma_merged(with_fields(fields, own, 0), all + own, parts, i + 1);
        let others = parts.skip(i + 1);
        assert(lists.drop_first() =~= others.map_values(
            |part: NormalizedShape| part.node->Object_fields,
        ));
        assert(lists.first() == own);
        assert(all + own + listed_fields(others) =~= all + (own + listed_fields(others)));
    } else {
        assert(all + lists.flatten() =~= all);
    }
}

proof fn lemma_additional(found: Option<Box<Schema>>, parts: Seq<NormalizedShape>, i: int)
    requires
        0 <= i,
    ensures
        merged_additional(found, parts, i) == found || exists|p: int|
            i <= p < parts.len() && (#[trigger] parts[p]).node->Object_additional
                == merged_additional(found, parts, i),
        forall|p: int|
            i <= p < parts.len() && (#[trigger] parts[p]).node->Object_additional is Some && (
            forall|later: int|
                p < later < parts.len() ==> (#[trigger] parts[later]).node->Object_additional
                    is None) ==> merged_additional(found, parts, i)
                == parts[p].node->Object_additional,
        (forall|p: int|
            i <= p < parts.len() ==> (#[trigger] parts[p]).node->Object_additional is None)
            ==> merged_additional(found, parts, i) == found,
    decreases parts.len() - i,
{
    if i < parts.len() {
        let next = super::normalize::either(parts[i].node->Object_additional, found);
        lemma_additional(next, parts, i + 1);
    }
}

/// An `allOf` of objects is one object. Its fields are those of all parts, left
/// to right: each name once, where it was first mentioned, with what the last
/// part that has it says. It is open as the last open part is, and nullable
/// where a part is.
pub proof fn law_all_of_merges_left_to_right(parts: Seq<NormalizedShape>)
    requires
        parts.len() > 1,
        forall|i: int| 0 <= i < parts.len() ==> (#[trigger] parts[i]).node is Object,
    ensures
        merged(parts).node is Object,
        last_mentions(merged(parts).node->Object_fields, listed_fields(parts)),
        merged(parts).nullable <==> exists|i: int|
            0 <= i < parts.len() && (#[trigger] parts[i]).nullable,
        forall|p: int|
            0 <= p < parts.len() && (#[trigger] parts[p]).node->Object_additional is Some && (
            forall|later: int|
                p < later < parts.len() ==> (#[trigger] parts[later]).node->Object_additional
                    is None) ==> merged(parts).node->Object_additional
                == parts[p].node->Object_additional,
        (forall|p: int|
            0 <= p < parts.len() ==> (#[trigger] parts[p]).node->Object_additional is None)
            ==> merged(parts).node->Object_additional is None,
{
    let none = Seq::<FieldShape>::empty();
    lemma_merged(none, none, parts, 0);
    assert(parts.skip(0) =~= parts);
    assert(none + listed_fields(parts) =~= listed_fields(parts));
    lemma_additional(None, parts, 0);
}

/// A name is the name of a merged field exactly where some part has a field of
/// that name.
pub proof fn law_all_of_has_the_names_of_all_parts(
    parts: Seq<NormalizedShape>,
    name: Seq<char>,
)
    requires
        parts.len() > 1,
        forall|i: int| 0 <= i < parts.len() ==> (#[trigger] parts[i]).node is Object,
    ensures
        mentioned(merged(parts).node->Object_fields, name) <==> exists|i: int|
            0 <= i < parts.len() && mentioned((#[trigger] parts[i]).node->Object_fields, name),
{
    law_all_of_merges_left_to_right(parts);
    lemma_listed(parts, name);
    let fields = merged(parts).node->Object_fields;
    let all = listed_fields(parts);
    if mentioned(fields, name) {
        let k = choose|k: int| 0 <= k < fields.len() && (#[trigger] fields[k]).name == name;
        assert(mentioned_last(all, fields[k]));
    }
    if mentioned(all, name) {
        let q = choose|q: int| 0 <= q < all.len() && (#[trigger] all[q]).name == name;
        assert(mentioned(fields, all[q].name));
    }
}

proof fn lemma_listed(parts: Seq<NormalizedShape>, name: Seq<char>)
    ensures
        mentioned(listed_fields(parts), name) <==> exists|i: int|
            0 <= i < parts.len() && mentioned((#[trigger] parts[i]).node->Object_fields, name),
    decreases parts.len(),
{
    let lists = parts.map_values(|part: NormalizedShape| part.node->Object_fields);
    if parts.len() > 0 {
        let others = parts.drop_first();
        lemma_listed(others, name);
        assert(lists.drop_first() =~= others.map_values(
            |part: NormalizedShape| part.node->Object_fields,
        ));
        let own = parts[0].node->Object_fields;
        let rest = listed_fields(others);
        let all = listed_fields(parts);
        assert(all == own + rest);
        if mentioned(all, name) {
            let q = choose|q: int| 0 <= q < all.len() && (#[trigger] all[q]).name == name;
            if q < own.len() {
                assert(own[q].name == name);
                assert(mentioned(parts[0].node->Object_fields, name));
            } else {
                assert(rest[q - own.len()].name == name);
                let i = choose|i: int|
                    0 <= i < others.len() && mentioned(
                        (#[trigger] others[i]).node->Object_fields,
                        name,
                    );
                assert(parts[i + 1] == others[i]);
            }
        }
        if exists|i: int|
            0 <= i < parts.len() && mentioned((#[trigger] parts[i]).node->Object_fields, name) {
            let i = choose|i: int|
                0 <= i < parts.len() && mentioned((#[trigger] parts[i]).node->Object_fields, name);
            if i == 0 {
                let k = choose|k: int| 0 <= k < own.len() && (#[trigger] own[k]).name == name;
                assert(all[k].name == name);
            } else {
                assert(others[i - 1] == parts[i]);
                let k = choose|k: int| 0 <= k < rest.len() && (#[trigger] rest[k]).name == name;
                assert(all[own.len() + k].name == name);
            }
        }
    }
}

/// An `allOf` keyword merges what its parts amount to, each on its own; a single
/// part stands for itself, and where a part is no object the first part that
/// says anything does.
pub proof fn law_all_of_keyword(
    doc: Json,
    obj: Seq<(Seq<char>, Json)>,
    parts: Seq<Json>,
    visited: Seq<Seq<char>>,
    depth: nat,
)
    requires
        depth <= MAX_DEPTH,
        lookup(obj, "$ref"@) is None,
        lookup(obj, "allOf"@) == Some(Json::Array(parts)),
    ensures
        ({
            let inner = Seq::new(
                parts.len(),
                |i: int| normalized_at(doc, parts[i], visited, depth + 1),
            );
            let whole = normalized_at(doc, Json::Object(obj), visited, depth);
            &&& parts.len() > 1 && (forall|i: int|
                0 <= i < parts.len() ==> (#[trigger] inner[i]).node is Object) ==> {
                &&& whole.node is Object
                &&& last_mentions(whole.node->Object_fields, listed_fields(inner))
            }
            &&& parts.len() == 1 ==> whole.node == inner[0].node
            &&& forall|i: int|
                0 <= i < inner.len() && !((#[trigger] inner[i]).node is Object) && !(inner[i].node
                    is Any) && (forall|k: int|
                    0 <= k < i ==> (#[trigger] inner[k]).node is Any) ==> whole.node
                    == inner[i].node
        }),
{
    let inner = Seq::new(
        parts.len(),
        |i: int| normalized_at(doc, parts[i], visited, depth + 1),
    );
    assert(all_normalized(doc, parts, visited, depth + 1) =~= inner);
    let whole = normalized_at(doc, Json::Object(obj), visited, depth);
    assert(whole.node == merged(inner).node);
    if parts.len() > 1 && forall|i: int|
        0 <= i < parts.len() ==> (#[trigger] inner[i]).node is Object {
        law_all_of_merges_left_to_right(inner);
    }
    assert forall|i: int|
        0 <= i < inner.len() && !((#[trigger] inner[i]).node is Object) && !(inner[i].node
            is Any) && (forall|k: int|
            0 <= k < i ==> (#[trigger] inner[k]).node is Any) implies whole.node
        == inner[i].node by {
        lemma_first_concrete(inner, 0, i);
    }
}

proof fn lemma_first_concrete(parts: Seq<NormalizedShape>, from: int, i: int)
    requires
        0 <= from <= i < parts.len(),
        !(parts[i].node is Any),
        forall|k: int| from <= k < i ==> (#[trigger] parts[k]).node is Any,
    ensures
        super::normalize::first_concrete(parts, from) == parts[i],
    decreases i - from,
{
    if from < i {
        assert(parts[from].node is Any);
        lemma_first_concrete(parts, from + 1, i);
    }
}

} // verus!
