//! Local `$ref` resolution against the spec document.

use crate::json::pointer::pointed;
use crate::json::{Json, JsonValue};
use crate::text::{chars_of, text_between};
use vstd::prelude::*;

verus! {

/// How many references in a row are followed.
pub const MAX_HOPS: usize = 16;

/// The target of a `#/...` reference.
pub open spec fn ref_target(doc: Json, reference: Seq<char>) -> Option<Json> {
    if reference.len() > 0 && reference[0] == '#' {
        pointed(doc, reference.skip(1))
    } else {
        None
    }
}

/// The reference that a node consists of.
pub open spec fn ref_of(node: Json) -> Option<Seq<char>> {
    match node.member("$ref"@) {
        Some(Json::Text(reference)) => Some(reference),
        _ => None,
    }
}

/// What a node stands for after following at most `hops` references, with the
/// last reference followed.
pub open spec fn dereferenced(
    doc: Json,
    node: Json,
    hops: nat,
    last: Option<Seq<char>>,
) -> (Json, Option<Seq<char>>)
    decreases hops,
{
    if hops == 0 {
        (Json::Null, last)
    } else {
        match ref_of(node) {
            None => (node, last),
            Some(reference) => match ref_target(doc, reference) {
                Some(target) => dereferenced(doc, target, (hops - 1) as nat, Some(reference)),
                None => (Json::Null, last),
            },
        }
    }
}

/// Resolves a `#/components/...`-style local reference against the root
/// document. `None` for external refs, malformed pointers, or missing targets.
pub fn resolve_ref<'a>(doc: &'a JsonValue, reference: &str) -> (r: Option<&'a JsonValue>)
    ensures
        r.deep_view() == ref_target(doc@, reference@),
{
    let chars = chars_of(reference);
    if chars.len() == 0 || chars[0] != '#' {
        return None;
    }
    let pointer = text_between(&chars, 1, chars.len());
    assert(pointer@ =~= reference@.skip(1));
    doc.pointer(pointer.as_str())
}

/// If `node` is a `{"$ref": "..."}` object, follows it, transitively up to a
/// hop limit that guards against ref-to-ref cycles. Returns the target and the
/// last ref, or the node itself when it isn't a ref.
pub fn deref<'a>(doc: &'a JsonValue, node: &'a JsonValue) -> (r: (&'a JsonValue, Option<String>))
    ensures
        (r.0@, r.1.deep_view()) == dereferenced(doc@, node@, MAX_HOPS as nat, None),
{
    let mut current: &'a JsonValue = node;
    let mut last_ref: Option<String> = None;
    let mut left: usize = MAX_HOPS;
    while left > 0
        invariant
            dereferenced(doc@, current@, left as nat, last_ref.deep_view()) == dereferenced(
                doc@,
                node@,
                MAX_HOPS as nat,
                None,
            ),
        decreases left,
    {
        let reference: &String = match current.get("$ref") {
            Some(JsonValue::Text(s)) => s,
            _ => {
                return (current, last_ref);
            },
        };
        match resolve_ref(doc, reference.as_str()) {
            Some(target) => {
                last_ref = Some(reference.clone());
                current = target;
            },
            None => {
                return (&JsonValue::Null, last_ref);
            },
        }
        left -= 1;
    }
    (&JsonValue::Null, last_ref)
}

/// A node that is no reference stands for itself.
pub proof fn law_plain_nodes_pass_through(doc: Json, node: Json)
    requires
        ref_of(node) is None,
    ensures
        dereferenced(doc, node, MAX_HOPS as nat, None) == (node, None::<Seq<char>>),
{
}

/// What comes out of following references is never a reference itself.
pub proof fn law_dereferenced_is_no_reference(
    doc: Json,
    node: Json,
    hops: nat,
    last: Option<Seq<char>>,
)
    ensures
        ref_of(dereferenced(doc, node, hops, last).0) is None,
    decreases hops,
{
    if hops > 0 {
        match ref_of(node) {
            Some(reference) => match ref_target(doc, reference) {
                Some(target) => law_dereferenced_is_no_reference(
                    doc,
                    target,
                    (hops - 1) as nat,
                    Some(reference),
                ),
                None => {},
            },
            None => {},
        }
    }
}

/// A reference to a reference stands for what the last one stands for; the last
/// one followed is reported.
pub proof fn law_references_are_followed(doc: Json, node: Json, first: Seq<char>, second: Seq<char>)
    requires
        ref_of(node) == Some(seq!['#'] + first),
        pointed(doc, first) is Some,
    ensures
        ref_of(pointed(doc, first)->0) is None ==> dereferenced(doc, node, MAX_HOPS as nat, None)
            == (pointed(doc, first)->0, Some(seq!['#'] + first)),
        ref_of(pointed(doc, first)->0) == Some(seq!['#'] + second) && pointed(doc, second) is Some
            && ref_of(pointed(doc, second)->0) is None ==> dereferenced(
            doc,
            node,
            MAX_HOPS as nat,
            None,
        ) == (pointed(doc, second)->0, Some(seq!['#'] + second)),
{
    reveal_with_fuel(dereferenced, 4);
    assert((seq!['#'] + first).skip(1) =~= first);
    assert((seq!['#'] + second).skip(1) =~= second);
}

/// A reference that leads back to itself stands for nothing.
pub proof fn law_circular_reference_is_null(
    doc: Json,
    node: Json,
    pointer: Seq<char>,
    hops: nat,
    last: Option<Seq<char>>,
)
    requires
        ref_of(node) == Some(seq!['#'] + pointer),
        pointed(doc, pointer) == Some(node),
    ensures
        dereferenced(doc, node, hops, last).0 == Json::Null,
    decreases hops,
{
    if hops > 0 {
        assert((seq!['#'] + pointer).skip(1) =~= pointer);
        law_circular_reference_is_null(
            doc,
            node,
            pointer,
            (hops - 1) as nat,
            Some(seq!['#'] + pointer),
        );
    }
}

/// The pointers lead from one reference to the next, and the last one to a node
/// that is no reference.
pub open spec fn chained(doc: Json, pointers: Seq<Seq<char>>) -> bool {
    &&& pointers.len() > 0
    &&& forall|k: int|
        0 <= k < pointers.len() ==> (pointed(doc, #[trigger] pointers[k]) matches Some(target) && (
        if k + 1 < pointers.len() {
            ref_of(target) == Some(seq!['#'] + pointers[k + 1])
        } else {
            ref_of(target) is None
        }))
}

/// Up to fifteen references in a row are followed to the end.
pub proof fn law_long_chains_are_followed(doc: Json, node: Json, pointers: Seq<Seq<char>>)
    requires
        chained(doc, pointers),
        pointers.len() <= 15,
        ref_of(node) == Some(seq!['#'] + pointers[0]),
    ensures
        dereferenced(doc, node, MAX_HOPS as nat, None).0 == pointed(doc, pointers.last())->0,
{
    lemma_chain(doc, node, pointers, 0, MAX_HOPS as nat, None);
}

proof fn lemma_chain(
    doc: Json,
    node: Json,
    pointers: Seq<Seq<char>>,
    i: int,
    hops: nat,
    last: Option<Seq<char>>,
)
    requires
        chained(doc, pointers),
        0 <= i < pointers.len(),
        pointers.len() - i < hops,
        ref_of(node) == Some(seq!['#'] + pointers[i]),
    ensures
        dereferenced(doc, node, hops, last).0 == pointed(doc, pointers.last())->0,
    decreases pointers.len() - i,
{
    reveal_with_fuel(dereferenced, 2);
    let reference = seq!['#'] + pointers[i];
    assert(reference.skip(1) =~= pointers[i]);
    let target = pointed(doc, pointers[i])->0;
    assert(pointed(doc, pointers[i]) is Some);
    if i + 1 < pointers.len() {
        lemma_chain(doc, target, pointers, i + 1, (hops - 1) as nat, Some(reference));
    }
}

} // verus!
