//! What the model promises: which endpoints are suggested, and which are
//! listed.

use super::{endpoints_with_ids, id_position, similar_ids, sought, EndpointShape};
use crate::error::SpecFault;
use crate::lists::lemma_filter_from;
use crate::text::{contains_text, lower, trimmed};
use vstd::prelude::*;

verus! {

// ---------------------------------------------------------------- suggestions

/// The id or the path of the endpoint has the text in it, whatever the case.
pub open spec fn has_in_it(text: Seq<char>) -> spec_fn(EndpointShape) -> bool {
    |endpoint: EndpointShape|
        contains_text(lower(endpoint.id), lower(text)) || contains_text(
            lower(endpoint.path),
            lower(text),
        )
}

proof fn lemma_similar(endpoints: Seq<EndpointShape>, text: Seq<char>, i: int)
    requires
        0 <= i <= endpoints.len(),
    ensures
        similar_ids(endpoints, lower(text), i) == endpoints.skip(i).filter(
            has_in_it(text),
        ).map_values(|endpoint: EndpointShape| endpoint.id),
    decreases endpoints.len() - i,
{
    let id = |endpoint: EndpointShape| endpoint.id;
    lemma_filter_from(endpoints, i, has_in_it(text));
    let ids = endpoints.skip(i).filter(has_in_it(text)).map_values(id);
    if i < endpoints.len() {
        lemma_similar(endpoints, text, i + 1);
        let rest = endpoints.skip(i + 1).filter(has_in_it(text)).map_values(id);
        if has_in_it(text)(endpoints[i]) {
            assert(ids =~= seq![endpoints[i].id] + rest);
        } else {
            assert(ids =~= rest);
        }
    } else {
        assert(ids =~= Seq::empty());
    }
}

/// For an unknown name the first five endpoints are suggested that have it in
/// their id or path, in the order of the document.
pub proof fn law_suggestions_resemble_the_name(endpoints: Seq<EndpointShape>, key: Seq<char>)
    ensures
        sought(endpoints, key) matches Err(SpecFault::UnknownEndpoint { name, suggestions }) ==> {
            let all = endpoints.filter(has_in_it(trimmed(key))).map_values(
                |endpoint: EndpointShape| endpoint.id,
            );
            &&& name == trimmed(key)
            &&& all.len() <= 5 ==> suggestions == all
            &&& all.len() > 5 ==> suggestions == all.take(5)
        },
{
    lemma_similar(endpoints, trimmed(key), 0);
    assert(endpoints.skip(0) =~= endpoints);
}

/// Some endpoint has the id.
pub open spec fn known(endpoints: Seq<EndpointShape>) -> spec_fn(Seq<char>) -> bool {
    |id: Seq<char>| exists|e: int| 0 <= e < endpoints.len() && (#[trigger] endpoints[e]).id == id
}

/// Listing by ids gives one endpoint for each known id, in the order of the ids,
/// and each listed endpoint has the id that it is listed for.
pub proof fn law_listing_by_ids(endpoints: Seq<EndpointShape>, ids: Seq<Seq<char>>)
    ensures
        endpoints_with_ids(endpoints, ids, 0).map_values(|endpoint: EndpointShape| endpoint.id)
            == ids.filter(known(endpoints)),
        forall|k: int|
            0 <= k < endpoints_with_ids(endpoints, ids, 0).len() ==> endpoints.contains(
                #[trigger] endpoints_with_ids(endpoints, ids, 0)[k],
            ),
{
    lemma_listed(endpoints, ids, 0);
    assert(ids.skip(0) =~= ids);
}

proof fn lemma_id_place(endpoints: Seq<EndpointShape>, id: Seq<char>, i: int)
    requires
        0 <= i,
    ensures
        match id_position(endpoints, id, i) {
            Some(p) => i <= p < endpoints.len() && endpoints[p].id == id,
            None => forall|k: int| i <= k < endpoints.len() ==> (#[trigger] endpoints[k]).id != id,
        },
    decreases endpoints.len() - i,
{
    if i < endpoints.len() && endpoints[i].id != id {
        lemma_id_place(endpoints, id, i + 1);
    }
}

proof fn lemma_listed(endpoints: Seq<EndpointShape>, ids: Seq<Seq<char>>, i: int)
    requires
        0 <= i <= ids.len(),
    ensures
        endpoints_with_ids(endpoints, ids, i).map_values(|endpoint: EndpointShape| endpoint.id)
            == ids.skip(i).filter(known(endpoints)),
        forall|k: int|
            0 <= k < endpoints_with_ids(endpoints, ids, i).len() ==> endpoints.contains(
                #[trigger] endpoints_with_ids(endpoints, ids, i)[k],
            ),
    decreases ids.len() - i,
{
    let id = |endpoint: EndpointShape| endpoint.id;
    lemma_filter_from(ids, i, known(endpoints));
    let here = endpoints_with_ids(endpoints, ids, i);
    if i < ids.len() {
        lemma_listed(endpoints, ids, i + 1);
        lemma_id_place(endpoints, ids[i], 0);
        let rest = endpoints_with_ids(endpoints, ids, i + 1);
        match id_position(endpoints, ids[i], 0) {
            Some(p) => {
                assert(endpoints[p].id == ids[i]);
                assert(known(endpoints)(ids[i]));
                assert(here.map_values(id) =~= seq![ids[i]] + rest.map_values(id));
                assert forall|k: int| 0 <= k < here.len() implies endpoints.contains(
                    #[trigger] here[k],
                ) by {
                    if k == 0 {
                        assert(here[0] == endpoints[p]);
                    } else {
                        assert(here[k] == rest[k - 1]);
                    }
                }
            },
            None => {
                assert(!known(endpoints)(ids[i]));
                let none = Seq::<Seq<char>>::empty();
                let others = ids.skip(i + 1).filter(known(endpoints));
                assert(none + others =~= others);
            },
        }
    } else {
        assert(here.map_values(id) =~= Seq::empty());
    }
}

} // verus!
