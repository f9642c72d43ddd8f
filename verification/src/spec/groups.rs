//! The tag groups of a document, said of its tags and endpoints alone: which groups
//! there are, in what order, and which endpoints each of them lists.

use super::raw::RawTagShape;
use super::{declared_groups, filed, filed_all, filed_under, tag_groups, untagged_ids};
use crate::lists::lemma_filter_places;
use crate::model::{group_position, EndpointShape, GroupShape};
use crate::spec::endpoints::{has_no_tag, lemma_inhabited_kept, lemma_untagged_kept, lists_some};
use vstd::prelude::*;
use vstd::string::*;

verus! {

/// A tag together with the endpoint that has it.
pub open spec fn with_id(id: Seq<char>) -> spec_fn(Seq<char>) -> (Seq<char>, Seq<char>) {
    |tag: Seq<char>| (tag, id)
}

/// The tags of an endpoint, each with the endpoint's id.
pub open spec fn own_tags() -> spec_fn(EndpointShape) -> Seq<(Seq<char>, Seq<char>)> {
    |endpoint: EndpointShape| endpoint.tags.map_values(with_id(endpoint.id))
}

/// Every tag of every endpoint, in order, each with the endpoint's id.
pub open spec fn all_tags(endpoints: Seq<EndpointShape>) -> Seq<(Seq<char>, Seq<char>)> {
    endpoints.map_values(own_tags()).flatten()
}

/// It is that tag.
pub open spec fn is_tag(name: Seq<char>) -> spec_fn((Seq<char>, Seq<char>)) -> bool {
    |tag: (Seq<char>, Seq<char>)| tag.0 == name
}

/// The endpoint that has the tag.
pub open spec fn tag_id() -> spec_fn((Seq<char>, Seq<char>)) -> Seq<char> {
    |tag: (Seq<char>, Seq<char>)| tag.1
}

/// The ids of the endpoints with a tag, in order.
pub open spec fn ids_with(
    tags: Seq<(Seq<char>, Seq<char>)>,
    name: Seq<char>,
) -> Seq<Seq<char>> {
    tags.filter(is_tag(name)).map_values(tag_id())
}

/// The names of the declared tags, then those that the endpoints use.
pub open spec fn mentioned(
    declared: Seq<RawTagShape>,
    used: Seq<(Seq<char>, Seq<char>)>,
) -> Seq<Seq<char>> {
    declared.map_values(|tag: RawTagShape| tag.name) + used.map_values(
        |tag: (Seq<char>, Seq<char>)| tag.0,
    )
}

/// `a` is mentioned before `b` ever is.
pub open spec fn mentioned_before(names: Seq<Seq<char>>, a: Seq<char>, b: Seq<char>) -> bool {
    exists|p: int|
        0 <= p < names.len() && #[trigger] names[p] == a && forall|q: int|
            0 <= q <= p ==> #[trigger] names[q] != b
}

/// No group before the `k`-th has its name.
#[verifier::opaque]
spec fn first_of_name(groups: Seq<GroupShape>, k: int) -> bool {
    forall|l: int| 0 <= l < k ==> (#[trigger] groups[l]).name != groups[k].name
}

/// The `k`-th group is that of its tag; its name was mentioned first at `p`.
#[verifier::opaque]
spec fn in_order(
    group: GroupShape,
    first: bool,
    declared: Seq<RawTagShape>,
    used: Seq<(Seq<char>, Seq<char>)>,
    p: int,
    k: int,
) -> bool {
    let names = mentioned(declared, used);
    &&& 0 <= p < names.len()
    &&& names[p] == group.name
    &&& first ==> forall|q: int| 0 <= q < p ==> #[trigger] names[q] != group.name
    &&& k < declared.len() ==> p == k && group.description == declared[k].description
    &&& k >= declared.len() ==> first && p >= declared.len() && group.description is None
    &&& group.endpoint_ids == (if first {
        ids_with(used, group.name)
    } else {
        Seq::empty()
    })
}

/// The groups are those of the declared tags and of the tags used so far; `at` says
/// where the name of each group was mentioned first.
#[verifier::opaque]
spec fn filed_so_far(
    groups: Seq<GroupShape>,
    declared: Seq<RawTagShape>,
    used: Seq<(Seq<char>, Seq<char>)>,
    at: Seq<int>,
) -> bool {
    &&& declared.len() <= groups.len()
    &&& at.len() == groups.len()
    &&& forall|k: int|
        #![trigger groups[k]]
        0 <= k < groups.len() ==> in_order(
            groups[k],
            first_of_name(groups, k),
            declared,
            used,
            at[k],
            k,
        )
    &&& forall|k: int, l: int| 0 <= k < l < at.len() ==> #[trigger] at[k] < #[trigger] at[l]
    &&& forall|name: Seq<char>|
        mentioned(declared, used).contains(name) ==> #[trigger] group_position(groups, name, 0) is Some
}

proof fn lemma_first_found(groups: Seq<GroupShape>, name: Seq<char>, i: int)
    requires
        0 <= i,
    ensures
        match group_position(groups, name, i) {
            Some(p) => i <= p < groups.len() && groups[p].name == name && forall|l: int|
                i <= l < p ==> (#[trigger] groups[l]).name != name,
            None => forall|l: int| i <= l < groups.len() ==> (#[trigger] groups[l]).name != name,
        },
    decreases groups.len() - i,
{
    if i < groups.len() && groups[i].name != name {
        lemma_first_found(groups, name, i + 1);
    }
}

proof fn lemma_ids_grow(
    used: Seq<(Seq<char>, Seq<char>)>,
    tag: Seq<char>,
    id: Seq<char>,
    name: Seq<char>,
)
    ensures
        ids_with(used.push((tag, id)), name) == (if tag == name {
            ids_with(used, name).push(id)
        } else {
            ids_with(used, name)
        }),
{
    reveal(Seq::filter);
    let more = used.push((tag, id));
    assert(more.drop_last() =~= used);
    assert(more.last() == (tag, id));
    assert(is_tag(name)((tag, id)) == (tag == name));
    if tag == name {
        assert(more.filter(is_tag(name)) =~= used.filter(is_tag(name)).push((tag, id)));
        assert(ids_with(more, name) =~= ids_with(used, name).push(id));
    }
}

proof fn lemma_first_after(groups: Seq<GroupShape>, after: Seq<GroupShape>, k: int)
    requires
        0 <= k < groups.len() <= after.len(),
        forall|l: int| 0 <= l < groups.len() ==> (#[trigger] after[l]).name == groups[l].name,
    ensures
        first_of_name(after, k) == first_of_name(groups, k),
{
    reveal(first_of_name);
    if first_of_name(after, k) {
        assert forall|l: int| 0 <= l < k implies (#[trigger] groups[l]).name != groups[k].name by {
            assert(after[l].name != after[k].name);
        }
    }
}

/// A group that was there before.
proof fn lemma_order_kept(
    group: GroupShape,
    first: bool,
    declared: Seq<RawTagShape>,
    used: Seq<(Seq<char>, Seq<char>)>,
    p: int,
    k: int,
    tag: Seq<char>,
    id: Seq<char>,
)
    requires
        in_order(group, first, declared, used, p, k),
    ensures
        in_order(
            if first && group.name == tag {
                GroupShape { endpoint_ids: group.endpoint_ids.push(id), ..group }
            } else {
                group
            },
            first,
            declared,
            used.push((tag, id)),
            p,
            k,
        ),
{
    reveal(in_order);
    let names = mentioned(declared, used);
    assert(mentioned(declared, used.push((tag, id))) =~= names.push(tag));
    lemma_ids_grow(used, tag, id, group.name);
}

/// A group that is new.
proof fn lemma_order_new(
    declared: Seq<RawTagShape>,
    used: Seq<(Seq<char>, Seq<char>)>,
    k: int,
    tag: Seq<char>,
    id: Seq<char>,
)
    requires
        !mentioned(declared, used).contains(tag),
        declared.len() <= k,
    ensures
        in_order(
            GroupShape { name: tag, description: None, endpoint_ids: seq![id] },
            true,
            declared,
            used.push((tag, id)),
            mentioned(declared, used).len() as int,
            k,
        ),
{
    reveal(in_order);
    let names = mentioned(declared, used);
    assert(mentioned(declared, used.push((tag, id))) =~= names.push(tag));
    assert forall|q: int| 0 <= q < names.len() implies #[trigger] names[q] != tag by {
        assert(names.contains(names[q]));
    }
    lemma_no_ids_yet(declared, used, tag);
    lemma_ids_grow(used, tag, id, tag);
    assert(ids_with(used, tag).push(id) =~= seq![id]);
}

proof fn lemma_position_known(
    after: Seq<GroupShape>,
    name: Seq<char>,
    k: int,
)
    requires
        0 <= k < after.len(),
        after[k].name == name,
    ensures
        group_position(after, name, 0) is Some,
{
    lemma_first_found(after, name, 0);
}

proof fn lemma_filed_one(
    groups: Seq<GroupShape>,
    declared: Seq<RawTagShape>,
    used: Seq<(Seq<char>, Seq<char>)>,
    at: Seq<int>,
    tag: Seq<char>,
    id: Seq<char>,
) -> (after_at: Seq<int>)
    requires
        filed_so_far(groups, declared, used, at),
    ensures
        filed_so_far(filed(groups, tag, id), declared, used.push((tag, id)), after_at),
{
    reveal(filed_so_far);
    let names = mentioned(declared, used);
    let more = used.push((tag, id));
    let after_names = mentioned(declared, more);
    assert(after_names =~= names.push(tag));
    lemma_first_found(groups, tag, 0);
    let after = filed(groups, tag, id);
    let found = group_position(groups, tag, 0);
    let after_at = if found is Some {
        at
    } else {
        at.push(names.len() as int)
    };
    assert forall|k: int| 0 <= k < groups.len() implies (#[trigger] after[k]).name
        == groups[k].name by {}
    assert forall|k: int| #![trigger after[k]] 0 <= k < after.len() implies in_order(
        after[k],
        first_of_name(after, k),
        declared,
        more,
        after_at[k],
        k,
    ) by {
        if k < groups.len() {
            let old = groups[k];
            let first = first_of_name(groups, k);
            lemma_first_after(groups, after, k);
            lemma_order_kept(old, first, declared, used, at[k], k, tag, id);
            reveal(first_of_name);
            if first && old.name == tag {
                let p = found->0;
                if p < k {
                    assert(groups[p].name != groups[k].name);
                }
                assert(p == k);
            } else if found is Some && found->0 == k {
                assert(first_of_name(groups, k));
            }
            assert(after[k] == (if first && old.name == tag {
                GroupShape { endpoint_ids: old.endpoint_ids.push(id), ..old }
            } else {
                old
            }));
        } else {
            assert(!names.contains(tag));
            lemma_order_new(declared, used, k, tag, id);
            assert(first_of_name(after, k)) by {
                reveal(first_of_name);
                assert forall|l: int| 0 <= l < k implies (#[trigger] after[l]).name
                    != after[k].name by {
                    assert(groups[l].name != tag);
                }
            }
        }
    }
    assert forall|k: int, l: int| 0 <= k < l < after_at.len() implies #[trigger] after_at[k]
        < #[trigger] after_at[l] by {
        if l == groups.len() {
            let old = groups[k];
            assert(0 <= at[k] < names.len()) by {
                reveal(in_order);
            }
        }
    }
    assert forall|name: Seq<char>| after_names.contains(name) implies #[trigger] group_position(
        after,
        name,
        0,
    ) is Some by {
        let q = choose|q: int| 0 <= q < after_names.len() && after_names[q] == name;
        if q < names.len() {
            assert(names[q] == name);
            assert(names.contains(name));
            lemma_first_found(groups, name, 0);
            let k = group_position(groups, name, 0)->0;
            lemma_position_known(after, name, k);
        } else if found is Some {
            lemma_position_known(after, name, found->0);
        } else {
            lemma_position_known(after, name, groups.len() as int);
        }
    }
    after_at
}

proof fn lemma_no_ids_yet(
    declared: Seq<RawTagShape>,
    used: Seq<(Seq<char>, Seq<char>)>,
    tag: Seq<char>,
)
    requires
        !mentioned(declared, used).contains(tag),
    ensures
        ids_with(used, tag) == Seq::<Seq<char>>::empty(),
{
    let kept = used.filter(is_tag(tag));
    let at = lemma_filter_places(used, is_tag(tag));
    if kept.len() > 0 {
        let p = at[0];
        assert(used[p].0 == tag);
        assert(mentioned(declared, used)[declared.len() + p] == used[p].0);
    }
    assert(ids_with(used, tag) =~= Seq::empty());
}

proof fn lemma_filed_under_so_far(
    groups: Seq<GroupShape>,
    declared: Seq<RawTagShape>,
    used: Seq<(Seq<char>, Seq<char>)>,
    at: Seq<int>,
    tags: Seq<Seq<char>>,
    id: Seq<char>,
    j: int,
) -> (after_at: Seq<int>)
    requires
        filed_so_far(groups, declared, used, at),
        0 <= j <= tags.len(),
    ensures
        filed_so_far(
            filed_under(groups, tags, id, j),
            declared,
            used + tags.skip(j).map_values(with_id(id)),
            after_at,
        ),
    decreases tags.len() - j,
{
    if j < tags.len() {
        let next_at = lemma_filed_one(groups, declared, used, at, tags[j], id);
        let next = used.push((tags[j], id));
        let after_at = lemma_filed_under_so_far(
            filed(groups, tags[j], id),
            declared,
            next,
            next_at,
            tags,
            id,
            j + 1,
        );
        assert(next + tags.skip(j + 1).map_values(with_id(id)) =~= used + tags.skip(j).map_values(
            with_id(id),
        ));
        after_at
    } else {
        assert(used + tags.skip(j).map_values(with_id(id)) =~= used);
        at
    }
}

proof fn lemma_filed_all_so_far(
    groups: Seq<GroupShape>,
    declared: Seq<RawTagShape>,
    used: Seq<(Seq<char>, Seq<char>)>,
    at: Seq<int>,
    endpoints: Seq<EndpointShape>,
    i: int,
) -> (after_at: Seq<int>)
    requires
        filed_so_far(groups, declared, used, at),
        0 <= i <= endpoints.len(),
    ensures
        filed_so_far(
            filed_all(groups, endpoints, i),
            declared,
            used + all_tags(endpoints.skip(i)),
            after_at,
        ),
    decreases endpoints.len() - i,
{
    let lists = endpoints.skip(i).map_values(own_tags());
    if i < endpoints.len() {
        let e = endpoints[i];
        let next_at = lemma_filed_under_so_far(groups, declared, used, at, e.tags, e.id, 0);
        assert(e.tags.skip(0) =~= e.tags);
        let own = e.tags.map_values(with_id(e.id));
        let after_at = lemma_filed_all_so_far(
            filed_under(groups, e.tags, e.id, 0),
            declared,
            used + own,
            next_at,
            endpoints,
            i + 1,
        );
        assert(lists.drop_first() =~= endpoints.skip(i + 1).map_values(own_tags()));
        assert(lists.first() == own);
        assert(all_tags(endpoints.skip(i)) == own + all_tags(endpoints.skip(i + 1)));
        assert(used + own + all_tags(endpoints.skip(i + 1)) =~= used + all_tags(
            endpoints.skip(i),
        ));
        after_at
    } else {
        assert(lists.len() == 0);
        assert(used + all_tags(endpoints.skip(i)) =~= used);
        at
    }
}

proof fn lemma_declared_so_far(declared: Seq<RawTagShape>) -> (at: Seq<int>)
    ensures
        filed_so_far(declared_groups(declared), declared, Seq::empty(), at),
{
    reveal(filed_so_far);
    let none = Seq::<(Seq<char>, Seq<char>)>::empty();
    let groups = declared_groups(declared);
    let names = mentioned(declared, none);
    let at = Seq::new(declared.len(), |k: int| k);
    assert(names.len() == declared.len());
    assert forall|k: int| #![trigger groups[k]] 0 <= k < groups.len() implies in_order(
        groups[k],
        first_of_name(groups, k),
        declared,
        none,
        at[k],
        k,
    ) by {
        reveal(in_order);
        reveal(Seq::filter);
        assert(none.filter(is_tag(groups[k].name)) =~= Seq::empty());
        assert(ids_with(none, groups[k].name) =~= Seq::empty());
        if first_of_name(groups, k) {
            assert forall|q: int| 0 <= q < k implies #[trigger] names[q] != groups[k].name by {
                reveal(first_of_name);
                assert(groups[q].name != groups[k].name);
            }
        }
    }
    assert forall|name: Seq<char>| names.contains(name) implies #[trigger] group_position(
        groups,
        name,
        0,
    ) is Some by {
        let q = choose|q: int| 0 <= q < names.len() && names[q] == name;
        lemma_position_known(groups, name, q);
    }
    at
}

/// There is one group for each tag that an endpoint has. It lists the endpoints with
/// that tag, in order. The groups stand in the order in which their tags are first
/// mentioned, where what is declared counts before what is used. A group has the
/// description of the first declaration of its tag. Behind them stands the group of
/// the endpoints without any tag, where there are such.
pub proof fn law_groups_are_those_of_the_tags(
    declared: Seq<RawTagShape>,
    endpoints: Seq<EndpointShape>,
)
    ensures
        ({
            let groups = tag_groups(declared, endpoints);
            let used = all_tags(endpoints);
            let names = mentioned(declared, used);
            let own = if endpoints.filter(has_no_tag()).len() > 0 {
                groups.len() - 1
            } else {
                groups.len() as int
            };
            &&& forall|k: int|
                0 <= k < own ==> (#[trigger] groups[k]).endpoint_ids == ids_with(
                    used,
                    groups[k].name,
                )
            &&& forall|k: int, l: int|
                0 <= k < l < own ==> mentioned_before(
                    names,
                    (#[trigger] groups[k]).name,
                    (#[trigger] groups[l]).name,
                )
            &&& forall|k: int, d: int|
                0 <= k < own && 0 <= d < declared.len() && (#[trigger] declared[d]).name == (
                #[trigger] groups[k]).name && (forall|c: int|
                    0 <= c < d ==> (#[trigger] declared[c]).name != declared[d].name)
                    ==> groups[k].description == declared[d].description
            &&& forall|k: int|
                0 <= k < own && (forall|d: int|
                    0 <= d < declared.len() ==> (#[trigger] declared[d]).name != groups[k].name)
                    ==> (#[trigger] groups[k]).description is None
        }),
{
    let start = declared_groups(declared);
    let used = all_tags(endpoints);
    let names = mentioned(declared, used);
    let none = Seq::<(Seq<char>, Seq<char>)>::empty();
    let start_at = lemma_declared_so_far(declared);
    let at = lemma_filed_all_so_far(start, declared, none, start_at, endpoints, 0);
    assert(endpoints.skip(0) =~= endpoints);
    assert(none + used =~= used);
    let full = filed_all(start, endpoints, 0);
    assert(filed_so_far(full, declared, used, at));
    reveal(filed_so_far);
    lemma_inhabited_kept(full, 0);
    assert(full.skip(0) =~= full);
    lemma_untagged_kept(endpoints, 0);
    assert(untagged_ids(endpoints, 0).len() == endpoints.filter(has_no_tag()).len());
    let kept = full.filter(lists_some());
    let places = lemma_filter_places(full, lists_some());
    let groups = tag_groups(declared, endpoints);
    assert forall|k: int| 0 <= k < kept.len() implies {
        &&& groups[k] == full[places[k]]
        &&& first_of_name(full, places[k])
        &&& (#[trigger] groups[k]).endpoint_ids == ids_with(used, groups[k].name)
    } by {
        let p = places[k];
        assert(groups[k] == kept[k]);
        assert(full[p].endpoint_ids.len() > 0);
        reveal(in_order);
    }
    assert forall|k: int, l: int| 0 <= k < l < kept.len() implies mentioned_before(
        names,
        (#[trigger] groups[k]).name,
        (#[trigger] groups[l]).name,
    ) by {
        reveal(in_order);
        let a = places[k];
        let b = places[l];
        let earlier = full[a];
        let later = full[b];
        assert(first_of_name(full, b));
        assert(a < b);
        assert(at[a] < at[b]);
        assert(names[at[a]] == full[a].name);
        assert forall|q: int| 0 <= q <= at[a] implies #[trigger] names[q] != full[b].name by {}
    }
    assert forall|k: int, d: int|
        0 <= k < kept.len() && 0 <= d < declared.len() && (#[trigger] declared[d]).name == (
        #[trigger] groups[k]).name && (forall|c: int|
            0 <= c < d ==> (#[trigger] declared[c]).name != declared[d].name) implies groups[k].description
        == declared[d].description by {
        reveal(in_order);
        let a = places[k];
        assert(names[d] == declared[d].name);
        assert(full[d].name == names[at[d]]);
        assert(full[a].name == full[d].name);
        if a < d {
            assert(a < declared.len());
            assert(names[at[a]] == full[a].name);
            assert(names[a] == declared[a].name);
            assert(declared[a].name != declared[d].name);
        } else if d < a {
            assert(first_of_name(full, a));
            reveal(first_of_name);
            assert(full[d].name != full[a].name);
        }
    }
    assert forall|k: int|
        0 <= k < kept.len() && (forall|d: int|
            0 <= d < declared.len() ==> (#[trigger] declared[d]).name
                != groups[k].name) implies (#[trigger] groups[k]).description is None by {
        reveal(in_order);
        let a = places[k];
        let group = full[a];
        if a < declared.len() {
            assert(full[a].name == names[at[a]]);
            assert(names[a] == declared[a].name);
            assert(declared[a].name != groups[k].name);
        }
    }
}

} // verus!
