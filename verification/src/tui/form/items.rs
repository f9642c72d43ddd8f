//! Array items on the form: what a deleted item takes with it, and that an
//! append can be taken back.

use super::arrays::{
    appended_rows, at_depth, children, deleted, encloses, enclosing, last_up_to, lemma_at_depth,
    renumbered, shrunk_rows,
};
use super::cursor::{below, lemma_span, lemma_span_is, lemma_spans_nest, span};
use super::laws::{lemma_items_skip, lemma_node_block, lemma_node_span};
use super::nested::{follows, nested};
use super::rows::{included, item_label, item_seed, node_rows};
use super::serialize::{items_value, members_value, node_value, Blocked};
use super::{FormShape, RowShape, Section};
use crate::json::{put, Json};
use vstd::prelude::*;

verus! {

/// Two rows that differ at most in their labels.
pub open spec fn alike(a: RowShape, b: RowShape) -> bool {
    b == (RowShape { label: b.label, ..a })
}

/// The `n` rows of `b` from `q` on are those of `a` from `p` on, but for the
/// labels of rows with the given indentation.
pub open spec fn copied(
    a: Seq<RowShape>,
    p: int,
    b: Seq<RowShape>,
    q: int,
    n: int,
    depth: nat,
) -> bool {
    &&& 0 <= p && p + n <= a.len()
    &&& 0 <= q && q + n <= b.len()
    &&& forall|k: int|
        #![trigger b[q + k]]
        #![trigger a[p + k]]
        0 <= k < n ==> alike(a[p + k], b[q + k]) && (a[p + k].depth != depth ==> b[q + k] == a[p
            + k])
}

/// Subtrees of equal rows are equally long.
proof fn lemma_same_span(a: Seq<RowShape>, p: int, b: Seq<RowShape>, q: int, n: int, depth: nat)
    requires
        n > 0,
        copied(a, p, b, q, n, depth),
        span(a, p) <= p + n,
        span(b, q) <= q + n,
    ensures
        span(a, p) - p == span(b, q) - q,
{
    lemma_span(a, p);
    lemma_span(b, q);
    assert(alike(a[p + 0], b[q + 0]));
    if a[p].heads() {
        let x = span(a, p) - p;
        let y = span(b, q) - q;
        if x < y {
            assert(below(b, q, q + x));
            assert(alike(a[p + x], b[q + x]));
            assert(below(a, p, p + x));
        }
        if y < x {
            assert(below(a, p, p + y));
            assert(alike(a[p + y], b[q + y]));
            assert(below(b, q, q + y));
        }
    }
}

/// A subtree sends the same wherever it stands and whatever its root is called.
proof fn lemma_moved_node(a: Seq<RowShape>, p: int, b: Seq<RowShape>, q: int)
    requires
        0 <= p < a.len(),
        0 <= q < b.len(),
        span(a, p) - p == span(b, q) - q,
        alike(a[p], b[q]),
        forall|k: int|
            #![trigger b[q + k]]
            #![trigger a[p + k]]
            0 < k < span(a, p) - p ==> b[q + k] == a[p + k],
    ensures
        node_value(a, p) matches Ok(v) ==> node_value(b, q) == Ok::<Option<Json>, Blocked>(v),
    decreases a.len() - p, 0int,
{
    lemma_span(a, p);
    lemma_span(b, q);
    let n = span(a, p) - p;
    let depth = a[p].depth + 1;
    lemma_moved_members(a, p, b, q, n, depth, 1, Seq::empty());
    lemma_moved_items_below(a, p, b, q, n, depth, 1, Seq::empty());
}

proof fn lemma_inner_node(a: Seq<RowShape>, p: int, b: Seq<RowShape>, q: int, n: int, k: int)
    requires
        0 <= p < a.len(),
        0 <= q < b.len(),
        n == span(a, p) - p,
        n == span(b, q) - q,
        alike(a[p], b[q]),
        0 < k < n,
        forall|k: int|
            #![trigger b[q + k]]
            #![trigger a[p + k]]
            0 < k < n ==> b[q + k] == a[p + k],
    ensures
        node_value(a, p + k) matches Ok(v) ==> node_value(b, q + k) == Ok::<Option<Json>, Blocked>(
            v,
        ),
        span(a, p + k) <= p + n,
    decreases a.len() - p - k, 1int,
{
    lemma_span(a, p);
    lemma_span(b, q);
    lemma_spans_nest(a, p, p + k);
    lemma_spans_nest(b, q, q + k);
    let room = n - k;
    assert forall|m: int|
        #![trigger b[q + k + m]]
        #![trigger a[p + k + m]]
        0 <= m < room implies b[q + k + m] == a[p + k + m] by {
        assert(b[q + (k + m)] == a[p + (k + m)]);
    }
    assert(copied(a, p + k, b, q + k, room, 0));
    lemma_same_span(a, p + k, b, q + k, room, 0);
    assert(b[q + k + 0] == a[p + k + 0]);
    lemma_moved_node(a, p + k, b, q + k);
}

proof fn lemma_moved_members(
    a: Seq<RowShape>,
    p: int,
    b: Seq<RowShape>,
    q: int,
    n: int,
    depth: nat,
    k: int,
    members: Seq<(Seq<char>, Json)>,
)
    requires
        0 <= p < a.len(),
        0 <= q < b.len(),
        n == span(a, p) - p,
        n == span(b, q) - q,
        alike(a[p], b[q]),
        1 <= k <= n,
        forall|k: int|
            #![trigger b[q + k]]
            #![trigger a[p + k]]
            0 < k < n ==> b[q + k] == a[p + k],
    ensures
        members_value(a, depth, p + k, p + n, members) matches Ok(v) ==> members_value(
            b,
            depth,
            q + k,
            q + n,
            members,
        ) == Ok::<Seq<(Seq<char>, Json)>, Blocked>(v),
    decreases a.len() - p - k, 2int,
{
    lemma_span(a, p);
    lemma_span(b, q);
    if k < n {
        assert(b[q + k] == a[p + k]);
        if a[p + k].depth == depth {
            lemma_inner_node(a, p, b, q, n, k);
            match node_value(a, p + k) {
                Ok(Some(value)) => {
                    lemma_moved_members(
                        a,
                        p,
                        b,
                        q,
                        n,
                        depth,
                        k + 1,
                        put(members, a[p + k].label, value),
                    );
                },
                Ok(None) => {
                    lemma_moved_members(a, p, b, q, n, depth, k + 1, members);
                },
                Err(_) => {},
            }
        } else {
            lemma_moved_members(a, p, b, q, n, depth, k + 1, members);
        }
    }
}

proof fn lemma_moved_items_below(
    a: Seq<RowShape>,
    p: int,
    b: Seq<RowShape>,
    q: int,
    n: int,
    depth: nat,
    k: int,
    items: Seq<Json>,
)
    requires
        0 <= p < a.len(),
        0 <= q < b.len(),
        n == span(a, p) - p,
        n == span(b, q) - q,
        alike(a[p], b[q]),
        1 <= k <= n,
        forall|k: int|
            #![trigger b[q + k]]
            #![trigger a[p + k]]
            0 < k < n ==> b[q + k] == a[p + k],
    ensures
        items_value(a, depth, p + k, p + n, items) matches Ok(v) ==> items_value(
            b,
            depth,
            q + k,
            q + n,
            items,
        ) == Ok::<Seq<Json>, Blocked>(v),
    decreases a.len() - p - k, 2int,
{
    lemma_span(a, p);
    lemma_span(b, q);
    if k < n {
        assert(b[q + k] == a[p + k]);
        if a[p + k].depth == depth {
            lemma_inner_node(a, p, b, q, n, k);
            match node_value(a, p + k) {
                Ok(Some(value)) => {
                    lemma_moved_items_below(a, p, b, q, n, depth, k + 1, items.push(value));
                },
                Ok(None) => {
                    lemma_moved_items_below(a, p, b, q, n, depth, k + 1, items);
                },
                Err(_) => {},
            }
        } else {
            lemma_moved_items_below(a, p, b, q, n, depth, k + 1, items);
        }
    }
}

/// Items that lie side by side send the same wherever they stand and whatever
/// they are called.
proof fn lemma_moved_items(
    a: Seq<RowShape>,
    p: int,
    b: Seq<RowShape>,
    q: int,
    n: int,
    depth: nat,
    k: int,
    items: Seq<Json>,
)
    requires
        0 <= k <= n,
        copied(a, p, b, q, n, depth),
        forall|k: int|
            #![trigger a[p + k]]
            #![trigger b[q + k]]
            0 <= k < n && a[p + k].depth == depth ==> span(a, p + k) <= p + n && span(b, q + k) <= q
                + n,
    ensures
        items_value(a, depth, p + k, p + n, items) matches Ok(v) ==> items_value(
            b,
            depth,
            q + k,
            q + n,
            items,
        ) == Ok::<Seq<Json>, Blocked>(v),
    decreases n - k,
{
    if k < n {
        assert(alike(a[p + k], b[q + k]));
        if a[p + k].depth == depth {
            assert(span(a, p + k) <= p + n && span(b, q + k) <= q + n);
            let room = n - k;
            assert forall|m: int|
                #![trigger b[q + k + m]]
                #![trigger a[p + k + m]]
                0 <= m < room implies alike(a[p + k + m], b[q + k + m]) && (a[p + k + m].depth
                != depth ==> b[q + k + m] == a[p + k + m]) by {
                assert(alike(a[p + (k + m)], b[q + (k + m)]));
            }
            lemma_same_span(a, p + k, b, q + k, room, depth);
            lemma_span(a, p + k);
            assert forall|m: int|
                #![trigger b[q + k + m]]
                #![trigger a[p + k + m]]
                0 < m < span(a, p + k) - (p + k) implies b[q + k + m] == a[p + k + m] by {
                assert(below(a, p + k, p + k + m));
                assert(alike(a[p + (k + m)], b[q + (k + m)]));
            }
            lemma_moved_node(a, p + k, b, q + k);
            match node_value(a, p + k) {
                Ok(Some(value)) => {
                    lemma_moved_items(a, p, b, q, n, depth, k + 1, items.push(value));
                },
                Ok(None) => {
                    lemma_moved_items(a, p, b, q, n, depth, k + 1, items);
                },
                Err(_) => {},
            }
        } else {
            lemma_moved_items(a, p, b, q, n, depth, k + 1, items);
        }
    }
}

/// The items of a stretch of rows come behind those gathered before.
proof fn lemma_items_gathered(rows: Seq<RowShape>, depth: nat, j: int, end: int, items: Seq<Json>)
    requires
        0 <= j,
    ensures
        match items_value(rows, depth, j, end, Seq::empty()) {
            Ok(found) => items_value(rows, depth, j, end, items) == Ok::<Seq<Json>, Blocked>(
                items + found,
            ),
            Err(_) => items_value(rows, depth, j, end, items) is Err,
        },
    decreases rows.len() - j,
{
    if j < end && j < rows.len() {
        if rows[j].depth == depth {
            match node_value(rows, j) {
                Ok(Some(value)) => {
                    lemma_items_gathered(rows, depth, j + 1, end, items.push(value));
                    lemma_items_gathered(rows, depth, j + 1, end, Seq::empty().push(value));
                    match items_value(rows, depth, j + 1, end, Seq::empty()) {
                        Ok(found) => {
                            assert(items.push(value) + found =~= items + (Seq::empty().push(value)
                                + found));
                        },
                        Err(_) => {},
                    }
                },
                Ok(None) => {
                    lemma_items_gathered(rows, depth, j + 1, end, items);
                },
                Err(_) => {},
            }
        } else {
            lemma_items_gathered(rows, depth, j + 1, end, items);
        }
    } else {
        assert(items + Seq::<Json>::empty() =~= items);
    }
}

/// A stretch of rows gathers what its two parts gather.
proof fn lemma_items_split(
    rows: Seq<RowShape>,
    depth: nat,
    j: int,
    mid: int,
    end: int,
    items: Seq<Json>,
)
    requires
        0 <= j <= mid <= end <= rows.len(),
    ensures
        items_value(rows, depth, j, end, items) == (match items_value(
            rows,
            depth,
            j,
            mid,
            items,
        ) {
            Ok(found) => items_value(rows, depth, mid, end, found),
            Err(e) => Err(e),
        }),
    decreases mid - j,
{
    if j < mid {
        if rows[j].depth == depth {
            match node_value(rows, j) {
                Ok(Some(value)) => {
                    lemma_items_split(rows, depth, j + 1, mid, end, items.push(value));
                },
                Ok(None) => {
                    lemma_items_split(rows, depth, j + 1, mid, end, items);
                },
                Err(_) => {},
            }
        } else {
            lemma_items_split(rows, depth, j + 1, mid, end, items);
        }
    }
}

/// What is renumbered are labels of rows in the list, and nothing else.
pub proof fn lemma_renumbered_rows(rows: Seq<RowShape>, list: Seq<int>, n: int)
    requires
        0 <= n,
        forall|k: int| 0 <= k < list.len() ==> 0 <= #[trigger] list[k] < rows.len(),
    ensures
        renumbered(rows, list, n).len() == rows.len(),
        forall|k: int|
            #![trigger renumbered(rows, list, n)[k]]
            0 <= k < rows.len() ==> alike(rows[k], renumbered(rows, list, n)[k]) && (!list.contains(
                k,
            ) ==> renumbered(rows, list, n)[k] == rows[k]),
    decreases list.len() - n,
{
    if n < list.len() {
        let next = rows.update(
            list[n],
            RowShape { label: item_label(n as nat), ..rows[list[n]] },
        );
        lemma_renumbered_rows(next, list, n + 1);
        let after = renumbered(rows, list, n);
        assert(list.contains(list[n]));
        assert forall|k: int| 0 <= k < rows.len() implies #[trigger] alike(rows[k], after[k]) && (
        !list.contains(k) ==> after[k] == rows[k]) by {
            assert(alike(next[k], after[k]));
        }
    }
}

pub proof fn lemma_at_depth_is(rows: Seq<RowShape>, depth: nat, j: int, end: int)
    requires
        0 <= j,
        end <= rows.len(),
    ensures
        forall|n: int|
            0 <= n < at_depth(rows, depth, j, end).len() ==> rows[#[trigger] at_depth(
                rows,
                depth,
                j,
                end,
            )[n]].depth == depth,
    decreases end - j,
{
    if j < end {
        lemma_at_depth_is(rows, depth, j + 1, end);
        let rest = at_depth(rows, depth, j + 1, end);
        let here = at_depth(rows, depth, j, end);
        assert forall|n: int| 0 <= n < here.len() implies rows[#[trigger] here[n]].depth
            == depth by {
            if rows[j].depth == depth {
                if n > 0 {
                    assert(here[n] == rest[n - 1]);
                }
            } else {
                assert(here[n] == rest[n]);
            }
        }
    }
}

/// Two lists of rows that are alike have subtrees of the same length.
proof fn lemma_alike_span(a: Seq<RowShape>, b: Seq<RowShape>, i: int)
    requires
        a.len() == b.len(),
        0 <= i < a.len(),
        forall|k: int| 0 <= k < a.len() ==> alike(#[trigger] a[k], b[k]),
    ensures
        span(a, i) == span(b, i),
{
    lemma_span(a, i);
    lemma_span(b, i);
    assert(alike(a[i], b[i]));
    if a[i].heads() {
        let x = span(a, i);
        let y = span(b, i);
        if x < y {
            assert(below(b, i, x));
            assert(alike(a[x], b[x]));
        }
        if y < x {
            assert(below(a, i, y));
            assert(alike(a[y], b[y]));
        }
    }
}

/// Without an item its rows are gone; the others stand in their order, and only
/// labels of items differ.
proof fn lemma_shrunk_rows(rows: Seq<RowShape>, header: int, root: int)
    requires
        0 <= header < rows.len(),
        rows[header].heads(),
        header < root < span(rows, header),
    ensures
        ({
            let after = shrunk_rows(rows, header, root);
            let gap = span(rows, root) - root;
            &&& after.len() == rows.len() - gap
            &&& span(after, header) == span(rows, header) - gap
            &&& after[header] == rows[header]
            &&& forall|k: int|
                #![trigger after[k]]
                0 <= k < root ==> alike(rows[k], after[k]) && (!item_root(rows, header, k)
                    ==> after[k] == rows[k])
            &&& forall|k: int|
                #![trigger after[k]]
                root <= k < after.len() ==> alike(rows[k + gap], after[k]) && (!item_root(
                    rows,
                    header,
                    k + gap,
                ) ==> after[k] == rows[k + gap])
        }),
{
    let depth = rows[header].depth + 1;
    let end = span(rows, header);
    let next = span(rows, root);
    let gap = next - root;
    lemma_span(rows, header);
    lemma_span(rows, root);
    lemma_spans_nest(rows, header, root);
    let kept = rows.take(root) + rows.skip(next);
    assert forall|k: int| 0 <= k < root implies #[trigger] kept[k] == rows[k] by {}
    assert forall|k: int| root <= k < kept.len() implies #[trigger] kept[k] == rows[k + gap] by {}
    assert(kept[header] == rows[header]);
    assert forall|k: int| header < k < end - gap implies #[trigger] below(kept, header, k) by {
        if k < root {
            assert(below(rows, header, k));
        } else {
            assert(below(rows, header, k + gap));
        }
    }
    if end - gap < kept.len() {
        assert(kept[end - gap] == rows[end]);
        assert(!below(rows, header, end));
    }
    lemma_span_is(kept, header, end - gap);
    // Renumbering touches nothing but labels of item roots.
    let list = children(kept, header);
    lemma_at_depth(kept, depth, header + 1, end - gap);
    lemma_at_depth_is(kept, depth, header + 1, end - gap);
    lemma_renumbered_rows(kept, list, 0);
    let after = shrunk_rows(rows, header, root);
    assert forall|k: int| 0 <= k < kept.len() implies alike(#[trigger] kept[k], after[k]) by {
        assert(alike(kept[k], after[k]));
    }
    lemma_alike_span(kept, after, header);
    assert(!list.contains(header));
    assert forall|k: int| 0 <= k < kept.len() && !(header < k < end - gap && kept[k].depth
        == depth) implies #[trigger] after[k] == kept[k] by {
        if list.contains(k) {
            let n = choose|n: int| 0 <= n < list.len() && list[n] == k;
            assert(kept[list[n]].depth == depth);
        }
    }
}

/// The row is the root of an item of the array at `header`.
pub open spec fn item_root(rows: Seq<RowShape>, header: int, k: int) -> bool {
    header < k < span(rows, header) && rows[k].depth == rows[header].depth + 1
}

// ---------------------------------------------------------------- laws

/// The items that the rows from `j` up to `end` send.
pub open spec fn items_between(rows: Seq<RowShape>, depth: nat, j: int, end: int) -> Seq<Json> {
    match items_value(rows, depth, j, end, Seq::empty()) {
        Ok(items) => items,
        Err(_) => Seq::empty(),
    }
}

/// The item that the subtree at `root` sends.
pub open spec fn item_at(rows: Seq<RowShape>, root: int) -> Seq<Json> {
    match node_value(rows, root) {
        Ok(Some(value)) => seq![value],
        _ => Seq::empty(),
    }
}

/// Deleting an item takes its value out of the array and leaves the values of
/// the other items as they were, in their order.
pub proof fn law_deleted_item_is_gone(
    rows: Seq<RowShape>,
    header: int,
    root: int,
    items: Seq<Json>,
)
    requires
        nested(rows),
        0 <= header < rows.len(),
        rows[header].section == Section::Body,
        rows[header].kind is ArrayHeader,
        rows[header].state is Filled,
        header < root < span(rows, header),
        rows[root].depth == rows[header].depth + 1,
        node_value(rows, header) == Ok::<Option<Json>, Blocked>(Some(Json::Array(items))),
    ensures
        ({
            let depth = rows[header].depth + 1;
            let before = items_between(rows, depth, header + 1, root);
            let behind = items_between(rows, depth, span(rows, root), span(rows, header));
            &&& items == before + item_at(rows, root) + behind
            &&& node_value(shrunk_rows(rows, header, root), header) == Ok::<Option<Json>, Blocked>(
                Some(Json::Array(before + behind)),
            )
        }),
{
    let depth = rows[header].depth + 1;
    let end = span(rows, header);
    let next = span(rows, root);
    let gap = next - root;
    lemma_span(rows, header);
    lemma_span(rows, root);
    lemma_spans_nest(rows, header, root);
    // The parts of the array.
    lemma_items_split(rows, depth, header + 1, root, end, Seq::empty());
    let before = items_between(rows, depth, header + 1, root);
    let behind = items_between(rows, depth, next, end);
    lemma_items_split(rows, depth, root, next, end, before);
    lemma_one_item(rows, depth, root, before);
    let with_own = before + item_at(rows, root);
    lemma_items_gathered(rows, depth, next, end, with_own);
    // The rows without the item.
    let after = shrunk_rows(rows, header, root);
    lemma_shrunk_rows(rows, header, root);
    // In front of the item.
    let front = root - (header + 1);
    assert forall|k: int|
        #![trigger rows[header + 1 + k]]
        #![trigger after[header + 1 + k]]
        0 <= k < front && rows[header + 1 + k].depth == depth implies span(rows, header + 1 + k)
        <= header + 1 + front && span(after, header + 1 + k) <= header + 1 + front by {
        lemma_sibling(rows, header, header + 1 + k, root);
        assert(alike(rows[header + 1 + k], after[header + 1 + k]));
        if root < end - gap {
            lemma_first_behind(rows, header, root);
            assert(alike(rows[root + gap], after[root]));
            lemma_sibling(after, header, header + 1 + k, root);
        } else {
            lemma_spans_nest(after, header, header + 1 + k);
        }
    }
    assert(copied(rows, header + 1, after, header + 1, front, depth));
    lemma_moved_items(rows, header + 1, after, header + 1, front, depth, 0, Seq::empty());
    // Behind it.
    let tail = end - next;
    assert forall|k: int|
        #![trigger after[root + k]]
        #![trigger rows[next + k]]
        0 <= k < tail implies alike(rows[next + k], after[root + k]) && (rows[next + k].depth
        != depth ==> after[root + k] == rows[next + k]) by {
        assert(alike(rows[root + k + gap], after[root + k]));
    }
    assert forall|k: int|
        #![trigger rows[next + k]]
        #![trigger after[root + k]]
        0 <= k < tail && rows[next + k].depth == depth implies span(rows, next + k) <= next + tail
        && span(after, root + k) <= root + tail by {
        lemma_spans_nest(rows, header, next + k);
        lemma_spans_nest(after, header, root + k);
    }
    lemma_moved_items(rows, next, after, root, tail, depth, 0, before);
    lemma_items_gathered(rows, depth, next, end, before);
    lemma_items_split(after, depth, header + 1, root, end - gap, Seq::empty());
}

/// One subtree adds at most one item.
proof fn lemma_one_item(rows: Seq<RowShape>, depth: nat, root: int, items: Seq<Json>)
    requires
        0 <= root < rows.len(),
        rows[root].depth == depth,
    ensures
        match node_value(rows, root) {
            Ok(_) => items_value(rows, depth, root, span(rows, root), items) == Ok::<
                Seq<Json>,
                Blocked,
            >(items + item_at(rows, root)),
            Err(_) => items_value(rows, depth, root, span(rows, root), items) is Err,
        },
{
    lemma_span(rows, root);
    let next = span(rows, root);
    match node_value(rows, root) {
        Ok(found) => {
            let gathered = match found {
                Some(value) => items.push(value),
                None => items,
            };
            assert(gathered =~= items + item_at(rows, root));
            assert forall|n: int| root + 1 <= n < next implies (#[trigger] rows[n]).depth
                != depth by {
                assert(below(rows, root, n));
            }
            lemma_items_skip(rows, depth, root + 1, next, next, gathered);
        },
        Err(_) => {},
    }
}

/// An item ends where a later item begins.
proof fn lemma_sibling(rows: Seq<RowShape>, header: int, k: int, later: int)
    requires
        0 <= header < k < later < rows.len(),
        rows[k].depth == rows[later].depth,
    ensures
        span(rows, k) <= later,
{
    lemma_span(rows, k);
    if span(rows, k) > later {
        assert(below(rows, k, later));
    }
}

/// What follows an item inside its array is an item.
proof fn lemma_first_behind(rows: Seq<RowShape>, header: int, root: int)
    requires
        nested(rows),
        0 <= header < root < span(rows, header),
        header < rows.len(),
        rows[header].section == Section::Body,
        rows[root].depth == rows[header].depth + 1,
        span(rows, root) < span(rows, header),
    ensures
        rows[span(rows, root)].depth == rows[root].depth,
{
    lemma_span(rows, header);
    lemma_span(rows, root);
    let next = span(rows, root);
    assert(below(rows, header, next));
    assert(below(rows, header, root));
    assert(follows(rows[next - 1], rows[next]));
}

proof fn lemma_at_depth_ascends(rows: Seq<RowShape>, depth: nat, j: int, end: int)
    requires
        0 <= j,
        end <= rows.len(),
    ensures
        forall|m: int, n: int|
            0 <= m < n < at_depth(rows, depth, j, end).len() ==> #[trigger] at_depth(
                rows,
                depth,
                j,
                end,
            )[m] < #[trigger] at_depth(rows, depth, j, end)[n],
    decreases end - j,
{
    if j < end {
        lemma_at_depth_ascends(rows, depth, j + 1, end);
        lemma_at_depth(rows, depth, j + 1, end);
        let rest = at_depth(rows, depth, j + 1, end);
        let here = at_depth(rows, depth, j, end);
        assert forall|m: int, n: int| 0 <= m < n < here.len() implies #[trigger] here[m]
            < #[trigger] here[n] by {
            if rows[j].depth == depth {
                assert(here[n] == rest[n - 1]);
                if m > 0 {
                    assert(here[m] == rest[m - 1]);
                }
            } else {
                assert(here[n] == rest[n]);
                assert(here[m] == rest[m]);
            }
        }
    }
}

proof fn lemma_alike_at_depth(
    a: Seq<RowShape>,
    b: Seq<RowShape>,
    depth: nat,
    j: int,
    end: int,
)
    requires
        a.len() == b.len(),
        0 <= j,
        end <= a.len(),
        forall|k: int| 0 <= k < a.len() ==> alike(#[trigger] a[k], b[k]),
    ensures
        at_depth(a, depth, j, end) == at_depth(b, depth, j, end),
    decreases end - j,
{
    if j < end {
        assert(alike(a[j], b[j]));
        lemma_alike_at_depth(a, b, depth, j + 1, end);
    }
}

proof fn lemma_renumbered_labels(rows: Seq<RowShape>, list: Seq<int>, n: int)
    requires
        0 <= n,
        forall|k: int| 0 <= k < list.len() ==> 0 <= #[trigger] list[k] < rows.len(),
        forall|k: int, m: int|
            0 <= k < m < list.len() ==> #[trigger] list[k] < #[trigger] list[m],
        forall|k: int|
            0 <= k < n && k < list.len() ==> rows[#[trigger] list[k]].label == item_label(k as nat),
    ensures
        forall|k: int|
            0 <= k < list.len() ==> renumbered(rows, list, n)[#[trigger] list[k]].label
                == item_label(k as nat),
    decreases list.len() - n,
{
    if n < list.len() {
        let next = rows.update(
            list[n],
            RowShape { label: item_label(n as nat), ..rows[list[n]] },
        );
        assert forall|k: int| 0 <= k < n + 1 implies next[#[trigger] list[k]].label == item_label(
            k as nat,
        ) by {
            if k < n {
                assert(list[k] < list[n]);
            }
        }
        lemma_renumbered_labels(next, list, n + 1);
    }
}

proof fn lemma_renumbered_same(rows: Seq<RowShape>, list: Seq<int>, n: int)
    requires
        0 <= n,
        forall|k: int| 0 <= k < list.len() ==> 0 <= #[trigger] list[k] < rows.len(),
        forall|k: int|
            0 <= k < list.len() ==> rows[#[trigger] list[k]].label == item_label(k as nat),
    ensures
        renumbered(rows, list, n) == rows,
    decreases list.len() - n,
{
    if n < list.len() {
        let same = RowShape { label: item_label(n as nat), ..rows[list[n]] };
        assert(same == rows[list[n]]);
        assert(rows.update(list[n], same) =~= rows);
        lemma_renumbered_same(rows, list, n + 1);
    }
}

/// The items of the array at `header` are labelled by their places.
pub open spec fn numbered(rows: Seq<RowShape>, header: int) -> bool {
    forall|n: int|
        0 <= n < children(rows, header).len() ==> rows[#[trigger] children(rows, header)[n]].label
            == item_label(n as nat)
}

/// The items that are left after deleting one are numbered by their places.
pub proof fn law_remaining_items_are_numbered(rows: Seq<RowShape>, header: int, root: int)
    requires
        0 <= header < root < span(rows, header),
        header < rows.len(),
    ensures
        numbered(shrunk_rows(rows, header, root), header),
{
    lemma_span(rows, header);
    lemma_span(rows, root);
    let kept = rows.take(root) + rows.skip(span(rows, root));
    let after = shrunk_rows(rows, header, root);
    let list = children(kept, header);
    let depth = kept[header].depth + 1;
    lemma_span(kept, header);
    lemma_at_depth(kept, depth, header + 1, span(kept, header));
    lemma_at_depth_ascends(kept, depth, header + 1, span(kept, header));
    lemma_renumbered_rows(kept, list, 0);
    lemma_renumbered_labels(kept, list, 0);
    assert forall|k: int| 0 <= k < kept.len() implies alike(#[trigger] kept[k], after[k]) by {
        assert(alike(kept[k], after[k]));
    }
    lemma_alike_span(kept, after, header);
    lemma_alike_at_depth(kept, after, depth, header + 1, span(kept, header));
    assert(alike(kept[header], after[header]));
    assert(children(after, header) == list);
}

/// The nearest array around the root of an item is the one it is an item of.
proof fn lemma_item_enclosed(rows: Seq<RowShape>, header: int, root: int, h: int)
    requires
        0 <= header < rows.len(),
        rows[header].kind is ArrayHeader,
        item_root(rows, header, root),
        header <= h <= root,
    ensures
        enclosing(rows, root, h) == Some((header, root)),
    decreases h,
{
    lemma_span(rows, header);
    if h > header {
        assert(below(rows, header, h));
        lemma_item_enclosed(rows, header, root, h - 1);
    } else {
        let depth = rows[header].depth + 1;
        let end = span(rows, header);
        let list = children(rows, header);
        lemma_at_depth_holds(rows, depth, header + 1, end, root);
        lemma_at_depth_ascends(rows, depth, header + 1, end);
        let n = choose|n: int| 0 <= n < list.len() && list[n] == root;
        lemma_last_is(list, n, 0);
    }
}

proof fn lemma_at_depth_holds(rows: Seq<RowShape>, depth: nat, j: int, end: int, k: int)
    requires
        0 <= j <= k < end,
        rows[k].depth == depth,
    ensures
        exists|n: int|
            0 <= n < at_depth(rows, depth, j, end).len() && at_depth(rows, depth, j, end)[n] == k,
    decreases k - j,
{
    let here = at_depth(rows, depth, j, end);
    if j == k {
        assert(here[0] == k);
    } else {
        lemma_at_depth_holds(rows, depth, j + 1, end, k);
        let rest = at_depth(rows, depth, j + 1, end);
        let n = choose|n: int| 0 <= n < rest.len() && rest[n] == k;
        if rows[j].depth == depth {
            assert(here[n + 1] == k);
        } else {
            assert(here[n] == k);
        }
    }
}

/// Among ascending numbers the last one up to a member is that member.
proof fn lemma_last_is(list: Seq<int>, n: int, from: int)
    requires
        0 <= from <= n < list.len(),
        forall|k: int, m: int|
            0 <= k < m < list.len() ==> #[trigger] list[k] < #[trigger] list[m],
    ensures
        last_up_to(list, list[n], from) == Some(list[n]),
    decreases n - from,
{
    if from < n {
        assert(list[from] < list[n]);
        lemma_last_is(list, n, from + 1);
    } else {
        if n + 1 < list.len() {
            assert(list[n] < list[n + 1]);
        }
        assert(last_up_to(list, list[n], n + 1) is None);
    }
}

/// How many rows of a stretch have an indentation, part by part.
proof fn lemma_at_depth_split(rows: Seq<RowShape>, depth: nat, j: int, mid: int, end: int)
    requires
        j <= mid <= end,
    ensures
        at_depth(rows, depth, j, end).len() == at_depth(rows, depth, j, mid).len() + at_depth(
            rows,
            depth,
            mid,
            end,
        ).len(),
    decreases mid - j,
{
    if j < mid {
        lemma_at_depth_split(rows, depth, j + 1, mid, end);
    }
}

/// Two stretches of rows of the same indentation hold equally many of each.
proof fn lemma_at_depth_moved(
    a: Seq<RowShape>,
    p: int,
    b: Seq<RowShape>,
    q: int,
    n: int,
    depth: nat,
)
    requires
        forall|k: int| #![trigger b[q + k]] 0 <= k < n ==> b[q + k].depth == a[p + k].depth,
    ensures
        at_depth(a, depth, p, p + n).len() == at_depth(b, depth, q, q + n).len(),
    decreases n,
{
    if n > 0 {
        assert(b[q + 0].depth == a[p + 0].depth);
        assert forall|k: int| #![trigger b[q + 1 + k]] 0 <= k < n - 1 implies b[q + 1 + k].depth
            == a[p + 1 + k].depth by {
            assert(b[q + (k + 1)].depth == a[p + (k + 1)].depth);
        }
        lemma_at_depth_moved(a, p + 1, b, q + 1, n - 1, depth);
    }
}

/// Deleting at the root of an item of a body array takes out exactly the rows of
/// that item. The other rows stay as they are and in their order, but for the
/// items of the array, which are labelled by their places again.
pub proof fn law_deleting_takes_one_item(form: FormShape, header: int, root: int)
    requires
        0 <= header < form.rows.len(),
        form.rows[header].section == Section::Body,
        form.rows[header].kind is ArrayHeader,
        item_root(form.rows, header, root),
    ensures
        ({
            let rows = form.rows;
            let after = deleted(form, root).rows;
            let gap = span(rows, root) - root;
            &&& after == shrunk_rows(rows, header, root)
            &&& after.len() == rows.len() - gap
            &&& forall|k: int|
                #![trigger after[k]]
                0 <= k < root ==> alike(rows[k], after[k]) && (!item_root(rows, header, k)
                    ==> after[k] == rows[k])
            &&& forall|k: int|
                #![trigger after[k]]
                root <= k < after.len() ==> alike(rows[k + gap], after[k]) && (!item_root(
                    rows,
                    header,
                    k + gap,
                ) ==> after[k] == rows[k + gap])
            &&& children(after, header).len() == children(rows, header).len() - 1
            &&& numbered(after, header)
        }),
{
    let rows = form.rows;
    let depth = rows[header].depth + 1;
    let end = span(rows, header);
    let next = span(rows, root);
    let gap = next - root;
    lemma_span(rows, header);
    lemma_span(rows, root);
    lemma_spans_nest(rows, header, root);
    lemma_item_enclosed(rows, header, root, root);
    lemma_shrunk_rows(rows, header, root);
    law_remaining_items_are_numbered(rows, header, root);
    let after = shrunk_rows(rows, header, root);
    // How many items there are.
    lemma_at_depth_split(rows, depth, header + 1, root, end);
    lemma_at_depth_split(rows, depth, root, next, end);
    lemma_at_depth_split(after, depth, header + 1, root, end - gap);
    assert forall|k: int| #![trigger after[header + 1 + k]] 0 <= k < root - (header + 1) implies
        after[header + 1 + k].depth == rows[header + 1 + k].depth by {}
    lemma_at_depth_moved(rows, header + 1, after, header + 1, root - (header + 1), depth);
    assert forall|k: int| #![trigger after[root + k]] 0 <= k < end - next implies after[root
        + k].depth == rows[next + k].depth by {
        assert(alike(rows[root + k + gap], after[root + k]));
    }
    lemma_at_depth_moved(rows, next, after, root, end - next, depth);
    lemma_one_root(rows, root, next);
}

/// An item has one root.
proof fn lemma_one_root(rows: Seq<RowShape>, root: int, end: int)
    requires
        0 <= root < rows.len(),
        root < end <= span(rows, root),
    ensures
        at_depth(rows, rows[root].depth, root, end).len() == 1,
{
    lemma_span(rows, root);
    assert forall|k: int| root + 1 <= k < end implies (#[trigger] rows[k]).depth
        != rows[root].depth by {
        assert(below(rows, root, k));
    }
    lemma_none_at_depth(rows, rows[root].depth, root + 1, end);
}

proof fn lemma_none_at_depth(rows: Seq<RowShape>, depth: nat, j: int, end: int)
    requires
        forall|k: int| j <= k < end ==> (#[trigger] rows[k]).depth != depth,
    ensures
        at_depth(rows, depth, j, end).len() == 0,
    decreases end - j,
{
    if j < end {
        assert(rows[j].depth != depth);
        lemma_none_at_depth(rows, depth, j + 1, end);
    }
}

/// Deleting the item that was just appended to a body array gives back the rows
/// as they were before; an array that was not included stays included.
pub proof fn law_deleting_undoes_appending(form: FormShape, header: int)
    requires
        0 <= header < form.rows.len(),
        form.rows[header].section == Section::Body,
        form.rows[header].kind is ArrayHeader,
        form.rows[header].schema is Array,
        numbered(form.rows, header),
    ensures
        ({
            let rows = form.rows;
            let grown = FormShape { rows: appended_rows(rows, header), ..form };
            deleted(grown, span(rows, header)).rows == (if rows[header].state is Filled {
                rows
            } else {
                rows.update(header, RowShape { state: included(), ..rows[header] })
            })
        }),
{
    let rows = form.rows;
    let before = if rows[header].state is Filled {
        rows
    } else {
        rows.update(header, RowShape { state: included(), ..rows[header] })
    };
    lemma_span(rows, header);
    let end = span(rows, header);
    let depth = rows[header].depth + 1;
    let item = *rows[header].schema->Array_item;
    let nullable = rows[header].schema->Array_item_nullable;
    let seed = item_seed(children(rows, header).len(), nullable, None);
    let fresh = node_rows(seed, depth, item);
    let grown = appended_rows(rows, header);
    lemma_node_block(seed, depth, item);
    assert(grown =~= before.take(end) + fresh + before.skip(end));
    assert forall|k: int| 0 <= k < fresh.len() implies grown[end + k] == #[trigger] fresh[k] by {}
    assert(grown[header] == before[header]);
    if end < rows.len() {
        assert(grown[end + fresh.len()] == rows[end]);
        assert(!below(rows, header, end));
    }
    lemma_node_span(grown, end, seed, depth, item);
    // The new item lies in the array.
    assert forall|k: int| header < k < end + fresh.len() implies #[trigger] below(
        grown,
        header,
        k,
    ) by {
        if k < end {
            assert(below(rows, header, k));
            assert(grown[k] == rows[k]);
        } else {
            assert(grown[end + (k - end)] == fresh[k - end]);
        }
    }
    lemma_span_is(grown, header, end + fresh.len());
    assert(grown[end + 0] == fresh[0]);
    lemma_item_enclosed(grown, header, end, end);
    assert(grown.take(end) + grown.skip(end + fresh.len()) =~= before);
    // The items were numbered already.
    assert forall|k: int| 0 <= k < rows.len() && k != header implies #[trigger] before[k]
        == rows[k] by {}
    lemma_restated(rows, before, header);
    lemma_at_depth(before, depth, header + 1, span(before, header));
    assert forall|n: int| 0 <= n < children(before, header).len() implies before[
    #[trigger] children(before, header)[n]].label == item_label(n as nat) by {
        assert(rows[children(rows, header)[n]].label == item_label(n as nat));
    }
    lemma_renumbered_same(before, children(before, header), 0);
}

/// The state of a header does not tell which rows are its items.
proof fn lemma_restated(rows: Seq<RowShape>, after: Seq<RowShape>, header: int)
    requires
        0 <= header < rows.len(),
        rows[header].heads(),
        after.len() == rows.len(),
        forall|k: int| 0 <= k < rows.len() && k != header ==> #[trigger] after[k] == rows[k],
        after[header] == (RowShape { state: after[header].state, ..rows[header] }),
    ensures
        span(after, header) == span(rows, header),
        children(after, header) == children(rows, header),
{
    lemma_span(rows, header);
    let end = span(rows, header);
    assert forall|k: int| header < k < end implies #[trigger] below(after, header, k) by {
        assert(below(rows, header, k));
        assert(after[k] == rows[k]);
    }
    if end < rows.len() {
        assert(after[end] == rows[end]);
        assert(!below(rows, header, end));
    }
    lemma_span_is(after, header, end);
    lemma_same_at_depth(rows, after, rows[header].depth + 1, header + 1, end);
}

proof fn lemma_same_at_depth(
    a: Seq<RowShape>,
    b: Seq<RowShape>,
    depth: nat,
    j: int,
    end: int,
)
    requires
        forall|k: int| j <= k < end ==> #[trigger] b[k] == a[k],
    ensures
        at_depth(b, depth, j, end) == at_depth(a, depth, j, end),
    decreases end - j,
{
    if j < end {
        assert(b[j] == a[j]);
        lemma_same_at_depth(a, b, depth, j + 1, end);
    }
}

proof fn lemma_at_depth_only(rows: Seq<RowShape>, depth: nat, j: int, end: int, n: int)
    requires
        0 <= n < at_depth(rows, depth, j, end).len(),
    ensures
        rows[at_depth(rows, depth, j, end)[n]].depth == depth,
    decreases end - j,
{
    let here = at_depth(rows, depth, j, end);
    let rest = at_depth(rows, depth, j + 1, end);
    if rows[j].depth != depth {
        lemma_at_depth_only(rows, depth, j + 1, end, n);
    } else if n > 0 {
        assert(here[n] == rest[n - 1]);
        lemma_at_depth_only(rows, depth, j + 1, end, n - 1);
    }
}

/// Among ascending numbers the last one up to `i` is the one that no other stands
/// between.
proof fn lemma_last_before(list: Seq<int>, i: int, n: int, from: int)
    requires
        0 <= from <= n < list.len(),
        list[n] <= i,
        n + 1 < list.len() ==> list[n + 1] > i,
        forall|k: int, m: int|
            0 <= k < m < list.len() ==> #[trigger] list[k] < #[trigger] list[m],
    ensures
        last_up_to(list, i, from) == Some(list[n]),
    decreases n - from,
{
    if from < n {
        assert(list[from] < list[n]);
        lemma_last_before(list, i, n, from + 1);
    } else {
        assert(last_up_to(list, i, n + 1) is None);
    }
}

/// The nearest array around a row inside an item is the one of that item, unless
/// the item holds an array around the row itself.
proof fn lemma_inside_enclosed(rows: Seq<RowShape>, header: int, root: int, i: int, h: int)
    requires
        0 <= header < rows.len(),
        rows[header].kind is ArrayHeader,
        item_root(rows, header, root),
        root <= i < span(rows, root),
        header <= h <= i,
        forall|k: int| root <= k <= i ==> !#[trigger] encloses(rows, k, i),
    ensures
        enclosing(rows, i, h) == Some((header, root)),
    decreases h,
{
    lemma_span(rows, header);
    lemma_span(rows, root);
    lemma_spans_nest(rows, header, root);
    let depth = rows[header].depth + 1;
    if h >= root {
        assert(!encloses(rows, h, i));
        lemma_inside_enclosed(rows, header, root, i, h - 1);
    } else if h > header {
        assert(below(rows, header, h));
        lemma_span(rows, h);
        if encloses(rows, h, i) {
            assert(below(rows, h, root));
        }
        lemma_inside_enclosed(rows, header, root, i, h - 1);
    } else {
        let end = span(rows, header);
        let list = children(rows, header);
        lemma_at_depth_holds(rows, depth, header + 1, end, root);
        lemma_at_depth_ascends(rows, depth, header + 1, end);
        lemma_at_depth(rows, depth, header + 1, end);
        let n = choose|n: int| 0 <= n < list.len() && list[n] == root;
        if n + 1 < list.len() {
            let next = list[n + 1];
            assert(list[n] < list[n + 1]);
            lemma_at_depth_only(rows, depth, header + 1, end, n + 1);
            if next <= i {
                assert(below(rows, root, next));
            }
        }
        lemma_last_before(list, i, n, 0);
        if i > root {
            assert(below(rows, root, i));
        }
    }
}

/// Deleting anywhere inside an item does what deleting at its root does, as long as
/// no array inside the item is nearer.
pub proof fn law_deleting_inside_an_item(form: FormShape, header: int, root: int, i: int)
    requires
        0 <= header < form.rows.len(),
        form.rows[header].kind is ArrayHeader,
        item_root(form.rows, header, root),
        root <= i < span(form.rows, root),
        forall|k: int| root <= k <= i ==> !#[trigger] encloses(form.rows, k, i),
    ensures
        deleted(form, i) == deleted(form, root),
{
    lemma_inside_enclosed(form.rows, header, root, i, i);
    lemma_item_enclosed(form.rows, header, root, root);
}

/// Outside every array there is nothing to delete.
pub proof fn law_deleting_outside_arrays_changes_nothing(form: FormShape, i: int)
    requires
        forall|h: int| 0 <= h <= i ==> !#[trigger] encloses(form.rows, h, i),
    ensures
        deleted(form, i) == form,
{
    lemma_not_enclosed(form.rows, i, i);
}

proof fn lemma_not_enclosed(rows: Seq<RowShape>, i: int, h: int)
    requires
        forall|k: int| 0 <= k <= i ==> !#[trigger] encloses(rows, k, i),
        h <= i,
    ensures
        enclosing(rows, i, h) is None,
    decreases h + 1,
{
    if h >= 0 {
        assert(!encloses(rows, h, i));
        lemma_not_enclosed(rows, i, h - 1);
    }
}

} // verus!
