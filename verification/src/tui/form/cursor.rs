//! Subtrees, hidden rows, and where the cursor may rest.

use super::{FormShape, FormState, RowShape, RowState};
use vstd::prelude::*;

verus! {

// ---------------------------------------------------------------- model

/// Row `j` lies below the header `i`, as far as these two rows tell.
pub open spec fn below(rows: Seq<RowShape>, i: int, j: int) -> bool {
    &&& rows[j].section == rows[i].section
    &&& !(rows[j].kind is SectionHeader)
    &&& rows[j].depth > rows[i].depth
}

/// The first row from `j` on that no longer lies below the header `i`.
pub open spec fn span_from(rows: Seq<RowShape>, i: int, j: int) -> int
    decreases rows.len() - j,
{
    if j >= rows.len() || !below(rows, i, j) {
        j
    } else {
        span_from(rows, i, j + 1)
    }
}

/// One past the last row of the subtree at `i`.
pub open spec fn span(rows: Seq<RowShape>, i: int) -> int {
    if rows[i].heads() {
        span_from(rows, i, i + 1)
    } else {
        i + 1
    }
}

/// A header that hides what lies below it: collapsed, left out, null, or empty.
pub open spec fn hides(row: RowShape) -> bool {
    row.heads() && (row.collapsed || row.state is Excluded || row.state is Null || row.state is Empty)
}

/// A row is hidden where some header above hides its subtree.
pub open spec fn hidden(rows: Seq<RowShape>, k: int) -> bool {
    exists|h: int| 0 <= h < k && hides(#[trigger] rows[h]) && k < span(rows, h)
}

/// The cursor may rest on the row.
pub open spec fn restable(rows: Seq<RowShape>, k: int) -> bool {
    0 <= k < rows.len() && rows[k].interactive() && !hidden(rows, k)
}

/// The first place to rest, going from `at` in steps of `delta`.
pub open spec fn landing(rows: Seq<RowShape>, at: int, delta: int) -> Option<int>
    decreases
            (if delta > 0 {
                rows.len() - at
            } else {
                at
            }),
{
    let next = at + delta;
    if delta == 0 || next < 0 || next >= rows.len() {
        None
    } else if restable(rows, next) {
        Some(next)
    } else {
        landing(rows, next, delta)
    }
}

/// Where the cursor goes; it stays put at the edges.
pub open spec fn moved(rows: Seq<RowShape>, at: int, delta: int) -> int {
    match landing(rows, at, delta) {
        Some(k) => k,
        None => at,
    }
}

/// The cursor put back on a row where it may rest.
pub open spec fn clamped(rows: Seq<RowShape>, cursor: int, direction: int) -> int {
    if restable(rows, cursor) {
        cursor
    } else if rows.len() > 0 && !restable(rows, 0) {
        moved(rows, 0, direction)
    } else {
        0
    }
}

// ---------------------------------------------------------------- lemmas

pub proof fn lemma_span_from(rows: Seq<RowShape>, i: int, j: int)
    requires
        j <= rows.len(),
    ensures
        j <= span_from(rows, i, j) <= rows.len(),
        forall|k: int| j <= k < span_from(rows, i, j) ==> #[trigger] below(rows, i, k),
        span_from(rows, i, j) < rows.len() ==> !below(rows, i, span_from(rows, i, j)),
    decreases rows.len() - j,
{
    if j < rows.len() && below(rows, i, j) {
        lemma_span_from(rows, i, j + 1);
    }
}

pub proof fn lemma_span(rows: Seq<RowShape>, i: int)
    requires
        0 <= i < rows.len(),
    ensures
        i < span(rows, i) <= rows.len(),
        forall|k: int| i < k < span(rows, i) ==> #[trigger] below(rows, i, k),
        rows[i].heads() && span(rows, i) < rows.len() ==> !below(rows, i, span(rows, i)),
{
    lemma_span_from(rows, i, i + 1);
}

/// Where a subtree ends is decided by the rows it holds and the one behind it.
pub proof fn lemma_span_is(rows: Seq<RowShape>, i: int, end: int)
    requires
        0 <= i < end <= rows.len(),
        rows[i].heads(),
        forall|k: int| i < k < end ==> #[trigger] below(rows, i, k),
        end < rows.len() ==> !below(rows, i, end),
    ensures
        span(rows, i) == end,
{
    lemma_span(rows, i);
    let found = span(rows, i);
    if found < end {
        assert(below(rows, i, found));
    }
    if end < found {
        assert(below(rows, i, end));
    }
}

/// Subtrees nest: one that begins inside another ends inside it.
pub proof fn lemma_spans_nest(rows: Seq<RowShape>, i: int, h: int)
    requires
        0 <= i < rows.len(),
        i < h < span(rows, i),
    ensures
        span(rows, h) <= span(rows, i),
{
    lemma_span(rows, i);
    lemma_span(rows, h);
    let end = span(rows, i);
    if rows[h].heads() && span(rows, h) > end {
        assert(below(rows, i, h));
        assert(below(rows, h, end));
        assert(below(rows, i, end));
    }
}

/// Where the cursor lands, it may rest.
pub proof fn lemma_landing(rows: Seq<RowShape>, at: int, delta: int)
    ensures
        landing(rows, at, delta) matches Some(k) ==> restable(rows, k),
    decreases
            (if delta > 0 {
                rows.len() - at
            } else {
                at
            }),
{
    let next = at + delta;
    if delta != 0 && 0 <= next < rows.len() && !restable(rows, next) {
        lemma_landing(rows, next, delta);
    }
}

// ---------------------------------------------------------------- operations

impl FormState {
    /// Index one past the last descendant of the row at `i`.
    pub fn span_end(&self, i: usize) -> (r: usize)
        requires
            i < self@.rows.len(),
        ensures
            r == span(self@.rows, i as int),
            i < r <= self@.rows.len(),
    {
        let ghost all = self@.rows;
        let len: usize = self.rows.len();
        proof {
            lemma_span(all, i as int);
        }
        let row = &self.rows[i];
        assert(all[i as int] == row@);
        if !row.heads() {
            return i + 1;
        }
        let mut j: usize = i + 1;
        while j < len && self.rows[j].section == row.section
            && !self.rows[j].kind.is_section_header() && self.rows[j].depth > row.depth
            invariant
                all == self@.rows,
                len == all.len(),
                i < j <= len,
                all[i as int] == row@,
                span(all, i as int) == span_from(all, i as int, j as int),
            decreases len - j,
        {
            assert(all[j as int] == self.rows@[j as int]@);
            j += 1;
        }
        if j < len {
            assert(all[j as int] == self.rows@[j as int]@);
        }
        j
    }

    /// Rows hidden because an ancestor header is Excluded/Null or collapsed.
    pub fn hidden_mask(&self) -> (r: Vec<bool>)
        ensures
            r@.len() == self@.rows.len(),
            forall|k: int| 0 <= k < r@.len() ==> #[trigger] r@[k] == hidden(self@.rows, k),
    {
        let ghost all = self@.rows;
        let len: usize = self.rows.len();
        let mut mask: Vec<bool> = Vec::new();
        while mask.len() < len
            invariant
                all == self@.rows,
                len == all.len(),
                mask@.len() <= len,
                forall|k: int| 0 <= k < mask@.len() ==> #[trigger] mask@[k] == hidden(all, k),
                forall|h: int|
                    0 <= h < mask@.len() && hides(#[trigger] all[h]) ==> span(all, h)
                        <= mask@.len(),
            decreases len - mask@.len(),
        {
            let i: usize = mask.len();
            let row = &self.rows[i];
            assert(all[i as int] == row@);
            assert(!hidden(all, i as int));
            mask.push(false);
            let hide_children = row.heads() && (row.collapsed || match row.state {
                RowState::Excluded => true,
                RowState::Null => true,
                RowState::Empty => true,
                RowState::Filled(_) => false,
            });
            if hide_children {
                let end: usize = self.span_end(i);
                while mask.len() < end
                    invariant
                        i < mask@.len() <= end <= len,
                        len == all.len(),
                        end == span(all, i as int),
                        hides(all[i as int]),
                        forall|k: int|
                            0 <= k < mask@.len() ==> #[trigger] mask@[k] == hidden(all, k),
                    decreases end - mask@.len(),
                {
                    assert(hidden(all, mask@.len() as int)) by {
                        assert(hides(all[i as int]));
                    }
                    mask.push(true);
                }
                assert forall|h: int| 0 <= h < end && hides(#[trigger] all[h]) implies span(
                    all,
                    h,
                ) <= end by {
                    if h > i {
                        lemma_spans_nest(all, i as int, h);
                    }
                }
            }
        }
        mask
    }

    /// Moves the cursor in steps of `delta` to the next row where it may rest.
    pub fn move_cursor(&mut self, delta: i64)
        requires
            delta != 0 || old(self)@.cursor >= old(self)@.rows.len() || restable(
                old(self)@.rows,
                old(self)@.cursor as int,
            ),
        ensures
            final(self)@ == (FormShape {
                cursor: moved(old(self)@.rows, old(self)@.cursor as int, delta as int) as nat,
                ..old(self)@
            }),
    {
        if delta == 0 {
            return;
        }
        let hidden_rows = self.hidden_mask();
        let ghost all = self@.rows;
        let len: usize = self.rows.len();
        let step: u64 = if delta > 0 {
            delta as u64
        } else if delta == i64::MIN {
            9223372036854775808
        } else {
            (-delta) as u64
        };
        let mut i: usize = self.cursor;
        loop
            invariant
                *self == *old(self),
                all == self@.rows,
                len == all.len(),
                delta != 0,
                step == (if delta > 0 {
                    delta as int
                } else {
                    -(delta as int)
                }),
                hidden_rows@.len() == len,
                forall|k: int| 0 <= k < len ==> #[trigger] hidden_rows@[k] == hidden(all, k),
                landing(all, self.cursor as int, delta as int) == landing(
                    all,
                    i as int,
                    delta as int,
                ),
            decreases
                    (if delta > 0 {
                        len - i
                    } else {
                        i as int
                    }),
        {
            if delta > 0 {
                if i >= len || (len - i) as u64 <= step {
                    return;
                }
                i = i + step as usize;
            } else {
                if (i as u64) < step {
                    return;
                }
                let next: usize = i - step as usize;
                if next >= len {
                    // Still past the end: the cursor stays put.
                    return;
                }
                i = next;
            }
            assert(all[i as int] == self.rows@[i as int]@);
            if self.rows[i].interactive() && !hidden_rows[i] {
                self.cursor = i;
                return;
            }
        }
    }

    /// Puts the cursor back on a row where it may rest.
    pub fn clamp_cursor_to_interactive(&mut self, direction: i64)
        requires
            direction != 0,
        ensures
            final(self)@ == (FormShape {
                cursor: clamped(
                    old(self)@.rows,
                    old(self)@.cursor as int,
                    direction as int,
                ) as nat,
                ..old(self)@
            }),
    {
        let hidden_rows = self.hidden_mask();
        let ghost all = self@.rows;
        if self.cursor < self.rows.len() {
            assert(all[self.cursor as int] == self.rows@[self.cursor as int]@);
            if self.rows[self.cursor].interactive() && !hidden_rows[self.cursor] {
                return;
            }
        }
        self.cursor = 0;
        if self.rows.len() > 0 {
            assert(all[0] == self.rows@[0]@);
            if !self.rows[0].interactive() || hidden_rows[0] {
                self.move_cursor(direction);
            }
        }
    }
}

// ---------------------------------------------------------------- laws

/// Wherever the cursor is moved to, it rests on an interactive row that is
/// not hidden, or does not move at all.
pub proof fn law_cursor_rests_on_visible_rows(rows: Seq<RowShape>, at: int, delta: int)
    ensures
        moved(rows, at, delta) == at || restable(rows, moved(rows, at, delta)),
{
    lemma_landing(rows, at, delta);
}

/// A form that has a row where the cursor may rest gets its cursor on one.
pub proof fn law_clamped_cursor_rests(rows: Seq<RowShape>, cursor: int, k: int)
    requires
        restable(rows, k),
    ensures
        restable(rows, clamped(rows, cursor, 1)),
{
    if !restable(rows, cursor) && !restable(rows, 0) {
        lemma_forward_landing(rows, 0, k);
        lemma_landing(rows, 0, 1);
    }
}

proof fn lemma_forward_landing(rows: Seq<RowShape>, at: int, k: int)
    requires
        0 <= at < k,
        restable(rows, k),
    ensures
        landing(rows, at, 1) is Some,
    decreases k - at,
{
    if at + 1 < k && !restable(rows, at + 1) {
        lemma_forward_landing(rows, at + 1, k);
    }
}

/// Everything below a header that is not included is hidden.
pub proof fn law_excluded_header_hides_its_subtree(rows: Seq<RowShape>, h: int, k: int)
    requires
        0 <= h < rows.len(),
        hides(rows[h]),
        h < k < span(rows, h),
    ensures
        hidden(rows, k),
        !restable(rows, k),
{
}

/// The row at `k` stands under the one at `h`: everything up to it is further in, in
/// the same section.
pub open spec fn stands_under(rows: Seq<RowShape>, h: int, k: int) -> bool {
    &&& 0 <= h < k < rows.len()
    &&& forall|j: int| h < j <= k ==> (#[trigger] rows[j]).depth > rows[h].depth
    &&& forall|j: int|
        h < j <= k ==> (#[trigger] rows[j]).section == rows[h].section && !(
        rows[j].kind is SectionHeader)
}

/// A row is hidden exactly where it stands under an object or an array that is
/// folded or has no value; the cursor rests on every other row but headings and
/// constants.
pub proof fn law_folded_rows_are_hidden(rows: Seq<RowShape>, k: int)
    requires
        0 <= k < rows.len(),
    ensures
        hidden(rows, k) <==> exists|h: int| #[trigger]
            stands_under(rows, h, k) && (rows[h].kind is ObjectHeader || rows[h].kind
                is ArrayHeader) && (rows[h].collapsed || !(rows[h].state is Filled)),
        restable(rows, k) <==> !hidden(rows, k) && !(rows[k].kind is SectionHeader) && !(
        rows[k].kind is Const),
{
    if hidden(rows, k) {
        let h = choose|h: int| 0 <= h < k && hides(#[trigger] rows[h]) && k < span(rows, h);
        lemma_span(rows, h);
        assert forall|j: int| h < j <= k implies (#[trigger] rows[j]).depth > rows[h].depth
            && rows[j].section == rows[h].section && !(rows[j].kind is SectionHeader) by {
            assert(below(rows, h, j));
        }
        assert(stands_under(rows, h, k));
    }
    if exists|h: int| #[trigger]
        stands_under(rows, h, k) && (rows[h].kind is ObjectHeader || rows[h].kind is ArrayHeader)
            && (rows[h].collapsed || !(rows[h].state is Filled)) {
        let h = choose|h: int| #[trigger]
            stands_under(rows, h, k) && (rows[h].kind is ObjectHeader || rows[h].kind
                is ArrayHeader) && (rows[h].collapsed || !(rows[h].state is Filled));
        lemma_span(rows, h);
        let end = span(rows, h);
        if end <= k {
            assert(rows[end].depth > rows[h].depth);
            assert(rows[end].section == rows[h].section);
            assert(below(rows, h, end));
        }
        assert(hides(rows[h]));
    }
}

} // verus!
