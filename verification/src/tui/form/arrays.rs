//! Growing and shrinking arrays in the form.

use super::cursor::{clamped, span};
use super::rows::{included, item_label, item_seed, lemma_rows_fit, node_rows, push_array_item};
use super::{row_fits, FormShape, FormState, RowShape, RowState};
use crate::json::JsonValue;
use crate::model::schema_node::{Schema, SchemaNode};
use crate::text::{cat3, show};
use vstd::prelude::*;

verus! {

// ---------------------------------------------------------------- model

/// The rows from `j` up to `end` that have the given indentation.
pub open spec fn at_depth(rows: Seq<RowShape>, depth: nat, j: int, end: int) -> Seq<int>
    decreases end - j,
{
    if j >= end {
        Seq::empty()
    } else if rows[j].depth == depth {
        seq![j] + at_depth(rows, depth, j + 1, end)
    } else {
        at_depth(rows, depth, j + 1, end)
    }
}

/// The rows directly below a header.
pub open spec fn children(rows: Seq<RowShape>, i: int) -> Seq<int> {
    at_depth(rows, rows[i].depth + 1, i + 1, span(rows, i))
}

/// The last of ascending numbers that is at most `i`, from position `n` on.
pub open spec fn last_up_to(list: Seq<int>, i: int, n: int) -> Option<int>
    decreases list.len() - n,
{
    if n < 0 || n >= list.len() || list[n] > i {
        None
    } else {
        match last_up_to(list, i, n + 1) {
            Some(k) => Some(k),
            None => Some(list[n]),
        }
    }
}

/// The header `h` is that of an array around row `i`.
pub open spec fn encloses(rows: Seq<RowShape>, h: int, i: int) -> bool {
    rows[h].kind is ArrayHeader && span(rows, h) > i && rows[h].depth < rows[i].depth
}

/// The nearest array around row `i` at or above `h`, with the root of the item
/// that holds the row.
pub open spec fn enclosing(rows: Seq<RowShape>, i: int, h: int) -> Option<(int, int)>
    decreases h + 1,
{
    if h < 0 {
        None
    } else if encloses(rows, h, i) {
        match last_up_to(children(rows, h), i, 0) {
            Some(root) => Some((h, root)),
            None => None,
        }
    } else {
        enclosing(rows, i, h - 1)
    }
}

/// The rows with the given ones labelled as consecutive items from the `n`-th on.
pub open spec fn renumbered(rows: Seq<RowShape>, list: Seq<int>, n: int) -> Seq<RowShape>
    decreases list.len() - n,
{
    if n < 0 || n >= list.len() {
        rows
    } else {
        renumbered(
            rows.update(
                list[n],
                RowShape { label: item_label(n as nat), ..rows[list[n]] },
            ),
            list,
            n + 1,
        )
    }
}

/// The rows after appending an item to the array at `i`.
pub open spec fn appended_rows(rows: Seq<RowShape>, i: int) -> Seq<RowShape> {
    match rows[i].schema {
        Schema::Array { item, item_nullable, .. } if rows[i].kind is ArrayHeader => {
            let end = span(rows, i);
            let grown = rows.take(end) + node_rows(
                item_seed(children(rows, i).len(), item_nullable, None),
                rows[i].depth + 1,
                *item,
            ) + rows.skip(end);
            if rows[i].state is Filled {
                grown
            } else {
                grown.update(i, RowShape { state: included(), ..rows[i] })
            }
        },
        _ => rows,
    }
}

/// The rows after deleting the item at `root` of the array at `header`.
pub open spec fn shrunk_rows(rows: Seq<RowShape>, header: int, root: int) -> Seq<RowShape> {
    let kept = rows.take(root) + rows.skip(span(rows, root));
    renumbered(kept, children(kept, header), 0)
}

/// The form after deleting the array item that holds row `i`.
pub open spec fn deleted(form: FormShape, i: int) -> FormShape {
    match enclosing(form.rows, i, i) {
        Some((header, root)) => {
            let rows = shrunk_rows(form.rows, header, root);
            let cursor = if rows.len() == 0 {
                0
            } else if form.cursor >= rows.len() {
                rows.len() - 1
            } else {
                form.cursor as int
            };
            FormShape { rows, cursor: clamped(rows, cursor, -1) as nat, ..form }
        },
        None => form,
    }
}

// ---------------------------------------------------------------- lemmas

pub proof fn lemma_at_depth(rows: Seq<RowShape>, depth: nat, j: int, end: int)
    requires
        0 <= j,
        end <= rows.len(),
    ensures
        forall|n: int|
            0 <= n < at_depth(rows, depth, j, end).len() ==> j <= #[trigger] at_depth(
                rows,
                depth,
                j,
                end,
            )[n] < end,
    decreases end - j,
{
    if j < end {
        lemma_at_depth(rows, depth, j + 1, end);
        let rest = at_depth(rows, depth, j + 1, end);
        let here = at_depth(rows, depth, j, end);
        assert forall|n: int| 0 <= n < here.len() implies j <= #[trigger] here[n] < end by {
            if rows[j].depth == depth {
                if n > 0 {
                    assert(here[n] == rest[n - 1]);
                }
            } else {
                assert(here[n] == rest[n]);
            }
        }
    }
}

pub proof fn lemma_last_up_to(list: Seq<int>, i: int, n: int)
    requires
        0 <= n,
    ensures
        last_up_to(list, i, n) matches Some(k) ==> k <= i && exists|m: int|
            n <= m < list.len() && list[m] == k,
    decreases list.len() - n,
{
    if n < list.len() && list[n] <= i {
        lemma_last_up_to(list, i, n + 1);
        match last_up_to(list, i, n + 1) {
            Some(k) => {
                let m = choose|m: int| n + 1 <= m < list.len() && list[m] == k;
                assert(n <= m < list.len() && list[m] == k);
            },
            None => {},
        }
    }
}

proof fn lemma_renumbered(rows: Seq<RowShape>, list: Seq<int>, n: int)
    requires
        0 <= n,
        forall|k: int| 0 <= k < list.len() ==> 0 <= #[trigger] list[k] < rows.len(),
    ensures
        renumbered(rows, list, n).len() == rows.len(),
        forall|k: int|
            #![trigger renumbered(rows, list, n)[k]]
            0 <= k < rows.len() ==> renumbered(rows, list, n)[k] == (RowShape {
                label: renumbered(rows, list, n)[k].label,
                ..rows[k]
            }),
    decreases list.len() - n,
{
    if n < list.len() {
        let next = rows.update(
            list[n],
            RowShape { label: item_label(n as nat), ..rows[list[n]] },
        );
        lemma_renumbered(next, list, n + 1);
        let after = renumbered(rows, list, n);
        assert forall|k: int| 0 <= k < rows.len() implies #[trigger] after[k] == (RowShape {
            label: after[k].label,
            ..rows[k]
        }) by {
            assert(after[k] == (RowShape { label: after[k].label, ..next[k] }));
        }
    }
}

// ---------------------------------------------------------------- operations

impl FormState {
    /// Direct child row indices of the header at `i` (depth == header + 1).
    fn direct_children(&self, i: usize) -> (r: Vec<usize>)
        requires
            i < self@.rows.len(),
            self@.rows[i as int].depth < u16::MAX,
        ensures
            r@.map_values(|k: usize| k as int) == children(self@.rows, i as int),
            forall|n: int| 0 <= n < r@.len() ==> i < #[trigger] r@[n] < self@.rows.len(),
    {
        let ghost all = self@.rows;
        assert(all[i as int] == self.rows@[i as int]@);
        let depth: u16 = self.rows[i].depth + 1;
        let end: usize = self.span_end(i);
        let ghost wanted = children(all, i as int);
        let mut out: Vec<usize> = Vec::new();
        let mut j: usize = i + 1;
        assert(out@.map_values(|k: usize| k as int) + at_depth(
            all,
            depth as nat,
            j as int,
            end as int,
        ) =~= wanted);
        while j < end
            invariant
                all == self@.rows,
                i < j <= end <= all.len(),
                out@.map_values(|k: usize| k as int) + at_depth(
                    all,
                    depth as nat,
                    j as int,
                    end as int,
                ) == wanted,
                forall|n: int| 0 <= n < out@.len() ==> i < #[trigger] out@[n] < j,
            decreases end - j,
        {
            let ghost before = out@.map_values(|k: usize| k as int);
            assert(all[j as int] == self.rows@[j as int]@);
            if self.rows[j].depth == depth {
                out.push(j);
                assert(out@.map_values(|k: usize| k as int) =~= before.push(j as int));
                assert(before.push(j as int) + at_depth(
                    all,
                    depth as nat,
                    j + 1,
                    end as int,
                ) =~= before + (seq![j as int] + at_depth(
                    all,
                    depth as nat,
                    j + 1,
                    end as int,
                )));
            }
            j += 1;
        }
        assert(out@.map_values(|k: usize| k as int) =~= wanted);
        out
    }

    /// How many items the array header at `i` has.
    pub fn item_count(&self, i: usize) -> (r: usize)
        requires
            i < self@.rows.len(),
        ensures
            r == children(self@.rows, i as int).len(),
    {
        let ghost all = self@.rows;
        assert(all[i as int] == self.rows@[i as int]@);
        let depth: u32 = self.rows[i].depth as u32 + 1;
        let end: usize = self.span_end(i);
        let mut count: usize = 0;
        let mut j: usize = i + 1;
        while j < end
            invariant
                all == self@.rows,
                i < j <= end <= all.len(),
                count < j,
                count + at_depth(all, depth as nat, j as int, end as int).len() == children(
                    all,
                    i as int,
                ).len(),
            decreases end - j,
        {
            assert(all[j as int] == self.rows@[j as int]@);
            if self.rows[j].depth as u32 == depth {
                count += 1;
            }
            j += 1;
        }
        count
    }

    /// Appends an item to the array header at `i`.
    pub fn array_append(&mut self, i: usize)
        requires
            i < old(self)@.rows.len(),
            old(self)@.wf(),
        ensures
            final(self)@ == (FormShape {
                rows: appended_rows(old(self)@.rows, i as int),
                ..old(self)@
            }),
            final(self)@.wf(),
    {
        let ghost all = self@.rows;
        assert(all[i as int] == self.rows@[i as int]@);
        assert(row_fits(all[i as int]));
        if !self.rows[i].kind.is_array_header() {
            return;
        }
        let (item, nullable) = match &self.rows[i].schema {
            SchemaNode::Array { item, item_nullable, .. } => ((&**item).clone(), *item_nullable),
            _ => {
                return;
            },
        };
        assert(*all[i as int].schema->Array_item == item@);
        assert(all[i as int].schema->Array_item_nullable == nullable);
        let end: usize = self.span_end(i);
        let count: usize = self.direct_children(i).len();
        let depth: u16 = self.rows[i].depth + 1;
        let ghost fresh = node_rows(item_seed(count as nat, nullable, None), depth as nat, item@);
        proof {
            lemma_rows_fit(item_seed(count as nat, nullable, None), depth as nat, item@);
        }
        let mut tail = self.rows.split_off(end);
        assert(self.rows.deep_view() =~= all.take(end as int));
        assert(tail.deep_view() =~= all.skip(end as int));
        push_array_item(&mut self.rows, &item, nullable, count, depth, None);
        let ghost grown = self.rows.deep_view();
        let ghost rest = tail.deep_view();
        self.rows.append(&mut tail);
        assert(self.rows.deep_view() =~= grown + rest);
        let ghost full = all.take(end as int) + fresh + all.skip(end as int);
        assert(self@.rows =~= full);
        assert(full[i as int] == all[i as int]);
        assert forall|k: int| 0 <= k < full.len() implies row_fits(#[trigger] full[k]) by {
            if k < end {
                assert(full[k] == all[k]);
            } else if k < end + fresh.len() {
                assert(full[k] == fresh[k - end]);
            } else {
                assert(full[k] == all[k - fresh.len()]);
            }
        }
        let mut row = self.rows[i].clone();
        assert(row@ == all[i as int]);
        match row.state {
            RowState::Filled(_) => {},
            _ => {
                row.state = RowState::Filled(JsonValue::Bool(true));
                self.put_row(i, row);
            },
        }
    }

    /// For a row inside an array, finds (array header, item root).
    fn enclosing_array_item(&self, i: usize) -> (r: Option<(usize, usize)>)
        requires
            i < self@.rows.len(),
        ensures
            match r {
                Some((header, root)) => enclosing(self@.rows, i as int, i as int) == Some(
                    (header as int, root as int),
                ) && header < root <= i && self@.rows[header as int].depth < u16::MAX,
                None => enclosing(self@.rows, i as int, i as int) is None,
            },
    {
        let ghost all = self@.rows;
        assert(all[i as int] == self.rows@[i as int]@);
        let len: usize = self.rows.len();
        let mut h: usize = i + 1;
        while h > 0
            invariant
                all == self@.rows,
                i < all.len(),
                h <= i + 1,
                all[i as int] == self.rows@[i as int]@,
                enclosing(all, i as int, i as int) == enclosing(all, i as int, h - 1),
            decreases h,
        {
            h -= 1;
            assert(all[h as int] == self.rows@[h as int]@);
            if self.rows[h].kind.is_array_header() && self.span_end(h) > i && self.rows[h].depth
                < self.rows[i].depth {
                let list = self.direct_children(h);
                let ghost ints = children(all, h as int);
                proof {
                    lemma_last_up_to(ints, i as int, 0);
                }
                let mut best: Option<usize> = None;
                let mut n: usize = 0;
                while n < list.len() && list[n] <= i
                    invariant
                        n <= list@.len(),
                        ints == list@.map_values(|k: usize| k as int),
                        forall|n: int| 0 <= n < list@.len() ==> h < #[trigger] list@[n],
                        match best {
                            Some(k) => h < k <= i && last_up_to(ints, i as int, 0) == (
                            match last_up_to(ints, i as int, n as int) {
                                Some(later) => Some(later),
                                None => Some(k as int),
                            }),
                            None => n == 0,
                        },
                    decreases list@.len() - n,
                {
                    assert(ints[n as int] == list@[n as int] as int);
                    best = Some(list[n]);
                    n += 1;
                }
                if n < list.len() {
                    assert(ints[n as int] == list@[n as int] as int);
                }
                return match best {
                    Some(root) => Some((h, root)),
                    None => None,
                };
            }
        }
        None
    }

    /// Deletes the array item containing row `i` (the row itself if it is an
    /// item root, else its nearest item-root ancestor).
    pub fn array_delete(&mut self, i: usize)
        requires
            i < old(self)@.rows.len(),
            old(self)@.wf(),
        ensures
            final(self)@ == deleted(old(self)@, i as int),
            final(self)@.wf(),
    {
        let ghost all = self@.rows;
        let (header, item_root) = match self.enclosing_array_item(i) {
            Some(found) => found,
            None => {
                return;
            },
        };
        let end: usize = self.span_end(item_root);
        let ghost kept = all.take(item_root as int) + all.skip(end as int);
        let mut tail = self.rows.split_off(end);
        assert(tail.deep_view() =~= all.skip(end as int));
        assert(self.rows.deep_view() =~= all.take(end as int));
        self.rows.truncate(item_root);
        assert(self.rows.deep_view() =~= all.take(item_root as int));
        let ghost front = self.rows.deep_view();
        let ghost rest = tail.deep_view();
        self.rows.append(&mut tail);
        assert(self.rows.deep_view() =~= front + rest);
        assert(self@.rows =~= kept);
        assert(kept[header as int] == all[header as int]);
        let list = self.direct_children(header);
        let ghost ints = children(kept, header as int);
        proof {
            lemma_renumbered(kept, ints, 0);
        }
        let mut n: usize = 0;
        while n < list.len()
            invariant
                n <= list@.len(),
                ints == list@.map_values(|k: usize| k as int),
                self@.rows.len() == kept.len(),
                forall|n: int| 0 <= n < list@.len() ==> #[trigger] list@[n] < kept.len(),
                renumbered(kept, ints, 0) == renumbered(self@.rows, ints, n as int),
                self.cursor == old(self).cursor,
                self.body_is_object == old(self).body_is_object,
            decreases list@.len() - n,
        {
            let at: usize = list[n];
            assert(ints[n as int] == at as int);
            let ghost here = self@.rows;
            assert(here[at as int] == self.rows@[at as int]@);
            let mut row = self.rows[at].clone();
            let digits = show(n as u64);
            row.label = cat3("[", digits.as_str(), "]");
            self.put_row(at, row);
            n += 1;
        }
        let ghost rows = renumbered(kept, ints, 0);
        assert(self@.rows == rows);
        assert forall|k: int| 0 <= k < rows.len() implies row_fits(#[trigger] rows[k]) by {
            assert(rows[k] == (RowShape { label: rows[k].label, ..kept[k] }));
            if k < item_root {
                assert(kept[k] == all[k]);
            } else {
                assert(kept[k] == all[k - item_root + end]);
            }
        }
        let len: usize = self.rows.len();
        let last: usize = if len == 0 {
            0
        } else {
            len - 1
        };
        if self.cursor > last {
            self.cursor = last;
        }
        self.clamp_cursor_to_interactive(-1);
    }
}

} // verus!
