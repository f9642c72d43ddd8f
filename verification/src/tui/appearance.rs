//! What the screens show, said of what they show it of: every row, endpoint, tag,
//! project and answer can be read off its line.

use super::form::arrays::children;
use super::form::cursor::hidden;
use super::form::{FormShape, KindShape, RowShape, StateShape};
use super::screens::form::{
    cursor_place, info_spans, label_room, label_width, place_of, row_lines, row_spans, scrolled,
    shown_rows, value_look, widest, RequestFormShape,
};
use super::screens::endpoints::EndpointListShape;
use super::screens::response::{
    body_lines, failed_lines, head_spans, header_lines, problem_lines, response_spans,
    ResponseViewShape,
};
use super::screens::{endpoints, form, projects, response, tags};
use super::theme::{
    centered_text, color_of_method, color_of_status, rgb_of, span, Ansi, Color, SpanShape, GREEN,
    RED, YELLOW,
};
use super::widgets::{
    declared_color, footer_spans, header_spans, hint_spans, json_spans, law_coloring_keeps_the_text,
    loading_spans, look_of, plain_text, quote_end, spaces_end, terminal_method_color,
    terminal_status_color,
};
use crate::cli::listing::auth_name;
use crate::config::ProjectConfig;
use crate::http::response::{body_text, ApiResponseShape};
use crate::json::print::{compact, quoted};
use crate::json::Json;
use crate::model::{EndpointShape, GroupShape};
use crate::spec::adapter::fastapi_lines;
use crate::text::laws::{law_decimal_is_read_back, law_padding};
use crate::text::{
    contains_text, decimal, is_digit, lines_of, occurs_at, padded, padded_left, repeated,
};
use vstd::prelude::*;
use vstd::string::*;

verus! {

/// The text can be read off the line.
pub open spec fn reads(line: Seq<SpanShape>, text: Seq<char>) -> bool {
    exists|k: int| 0 <= k < line.len() && contains_text((#[trigger] line[k]).text, text)
}

proof fn lemma_within(before: Seq<char>, text: Seq<char>, behind: Seq<char>)
    ensures
        contains_text(before + text + behind, text),
{
    let all = before + text + behind;
    let at = before.len() as int;
    assert(all.subrange(at, at + text.len()) =~= text);
    assert(occurs_at(all, text, at));
}

proof fn lemma_itself(text: Seq<char>)
    ensures
        contains_text(text, text),
{
    assert(text.subrange(0, text.len() as int) =~= text);
    assert(occurs_at(text, text, 0));
}

proof fn lemma_padded_holds(text: Seq<char>, width: nat)
    ensures
        contains_text(padded(text, width), text),
        contains_text(padded_left(text, width), text),
{
    law_padding(text, width);
    let right = padded(text, width);
    assert(right.subrange(0, text.len() as int) =~= right.take(text.len() as int));
    assert(occurs_at(right, text, 0));
    let left = padded_left(text, width);
    let at = left.len() - text.len();
    assert(left.subrange(at, left.len() as int) =~= left.skip(at));
    assert(occurs_at(left, text, at));
}

proof fn lemma_wrapped(before: Seq<char>, middle: Seq<char>, behind: Seq<char>, text: Seq<char>)
    requires
        contains_text(middle, text),
    ensures
        contains_text(before + middle + behind, text),
{
    let i = choose|i: int| occurs_at(middle, text, i);
    let all = before + middle + behind;
    let at = before.len() + i;
    assert(all.subrange(at, at + text.len()) =~= middle.subrange(i, i + text.len()));
    assert(occurs_at(all, text, at));
}

// ---------------------------------------------------------------- the form

/// What a row says of its value.
pub open spec fn told_value(rows: Seq<RowShape>, i: int) -> Seq<char> {
    match rows[i].state {
        StateShape::Excluded => "excluded"@,
        StateShape::Null => "null"@,
        StateShape::Empty => "empty"@,
        StateShape::Filled(value) => match rows[i].kind {
            KindShape::ObjectHeader => "{"@,
            KindShape::ArrayHeader => decimal(children(rows, i).len()),
            _ => match value {
                Json::Text(text) => text,
                _ => compact(value),
            },
        },
    }
}

proof fn lemma_value_told(rows: Seq<RowShape>, i: int)
    ensures
        contains_text(form::value_span(rows, i).text, told_value(rows, i)),
{
    let row = rows[i];
    let shown = form::value_span(rows, i).text;
    let none = Seq::<char>::empty();
    match row.state {
        StateShape::Excluded => {
            reveal_strlit("⊘ excluded");
            reveal_strlit("excluded");
            assert("⊘ excluded"@.subrange(2, 10) =~= "excluded"@);
            assert(occurs_at("⊘ excluded"@, "excluded"@, 2));
        },
        StateShape::Null => {
            reveal_strlit("∅ null");
            reveal_strlit("null");
            assert("∅ null"@.subrange(2, 6) =~= "null"@);
            assert(occurs_at("∅ null"@, "null"@, 2));
        },
        StateShape::Empty => {
            reveal_strlit("‹empty›");
            reveal_strlit("empty");
            assert("‹empty›"@.subrange(1, 6) =~= "empty"@);
            assert(occurs_at("‹empty›"@, "empty"@, 1));
        },
        StateShape::Filled(value) => {
            let text = form::value_text(value);
            match row.kind {
                KindShape::ObjectHeader => {
                    reveal_strlit("{");
                    reveal_strlit("{ … } collapsed");
                    assert("{ … } collapsed"@.subrange(0, 1) =~= "{"@);
                    assert(occurs_at("{ … } collapsed"@, "{"@, 0));
                    lemma_itself("{"@);
                },
                KindShape::ArrayHeader => {
                    let count = children(rows, i).len();
                    let digits = decimal(count);
                    lemma_within(none, digits, " item"@);
                    assert(none + digits + " item"@ =~= digits + " item"@);
                    let end = if count == 1 {
                        ""@
                    } else {
                        "s"@
                    };
                    lemma_wrapped(none, digits + " item"@, end, digits);
                    assert(none + (digits + " item"@) + end =~= form::items_text(count));
                    lemma_wrapped("[ "@, form::items_text(count), " ]"@, digits);
                },
                KindShape::Enum(_) => lemma_within("◂ "@, text, " ▸"@),
                KindShape::Const => {
                    lemma_within(none, text, " ⚷ fixed"@);
                    assert(none + text + " ⚷ fixed"@ =~= text + " ⚷ fixed"@);
                },
                _ => lemma_itself(text),
            }
        },
    }
}

/// What is being typed into the row at `i`.
pub open spec fn being_typed(editor: Option<(nat, Seq<char>)>, i: int) -> Option<Seq<char>> {
    match editor {
        Some((at, text)) => if at == i {
            Some(text)
        } else {
            None
        },
        None => None,
    }
}

/// The line of a row tells its label, whether it is required and whether the cursor
/// is on it, and either what is being typed or its value and its type. A heading
/// tells its label.
pub proof fn law_row_can_be_read(
    f: FormShape,
    editor: Option<(nat, Seq<char>)>,
    i: int,
    labels: nat,
    width: nat,
)
    requires
        0 <= i < f.rows.len(),
    ensures
        ({
            let row = f.rows[i];
            let line = row_spans(f, editor, i, labels, width);
            &&& reads(line, row.label)
            &&& !(row.kind is SectionHeader) ==> {
                &&& line.len() >= 4
                &&& line[2].text == (if row.required {
                    "*"@
                } else {
                    " "@
                })
                &&& line[0].text == (if i == f.cursor {
                    "▌ "@
                } else {
                    "  "@
                })
                &&& match being_typed(editor, i) {
                    Some(text) => reads(line, text),
                    None => reads(line, told_value(f.rows, i)) && reads(line, row.kind_label),
                }
            }
        }),
{
    let row = f.rows[i];
    let line = row_spans(f, editor, i, labels, width);
    let none = Seq::<char>::empty();
    if row.kind is SectionHeader {
        lemma_within("╴"@, row.label, "╶"@);
        assert(contains_text(line[1].text, row.label));
    } else {
        let indent = repeated("  "@, row.depth);
        lemma_within(indent, row.label, none);
        assert(indent + row.label + none =~= indent + row.label);
        assert(contains_text(line[1].text, row.label));
        match being_typed(editor, i) {
            Some(text) => {
                lemma_within(none, text, "▏"@);
                assert(none + text + "▏"@ =~= text + "▏"@);
                assert(contains_text(line[4].text, text));
            },
            None => {
                lemma_value_told(f.rows, i);
                assert(contains_text(line[4].text, told_value(f.rows, i)));
                lemma_within("  "@, row.kind_label, none);
                assert("  "@ + row.kind_label + none =~= "  "@ + row.kind_label);
                assert(contains_text(line[5].text, row.kind_label));
            },
        }
    }
}

proof fn lemma_shown_rows(rows: Seq<RowShape>, i: int)
    requires
        0 <= i,
    ensures
        ({
            let list = shown_rows(rows, i);
            &&& forall|k: int|
                0 <= k < list.len() ==> i <= #[trigger] list[k] < rows.len() && !hidden(
                    rows,
                    list[k],
                )
            &&& forall|k: int, l: int|
                0 <= k < l < list.len() ==> #[trigger] list[k] < #[trigger] list[l]
            &&& forall|p: int| i <= p < rows.len() && !hidden(rows, p) ==> #[trigger] list.contains(p)
        }),
    decreases rows.len() - i,
{
    if i < rows.len() {
        lemma_shown_rows(rows, i + 1);
        let rest = shown_rows(rows, i + 1);
        let list = shown_rows(rows, i);
        if !hidden(rows, i) {
            assert(list == seq![i] + rest);
            assert forall|k: int| 0 <= k < list.len() implies i <= #[trigger] list[k] < rows.len()
                && !hidden(rows, list[k]) by {
                if k > 0 {
                    assert(list[k] == rest[k - 1]);
                }
            }
            assert forall|k: int, l: int| 0 <= k < l < list.len() implies #[trigger] list[k]
                < #[trigger] list[l] by {
                assert(list[l] == rest[l - 1]);
                if k > 0 {
                    assert(list[k] == rest[k - 1]);
                }
            }
            assert forall|p: int| i <= p < rows.len() && !hidden(rows, p) implies
                #[trigger] list.contains(p) by {
                if p == i {
                    assert(list[0] == p);
                } else {
                    assert(rest.contains(p));
                    let k = choose|k: int| 0 <= k < rest.len() && rest[k] == p;
                    assert(list[k + 1] == p);
                }
            }
        } else {
            assert forall|p: int| i <= p < rows.len() && !hidden(rows, p) implies
                #[trigger] list.contains(p) by {
                assert(p != i);
                assert(rest.contains(p));
            }
        }
    }
}

/// The form shows the rows that are not hidden, each once, in order.
pub proof fn law_form_shows_its_rows(rows: Seq<RowShape>)
    ensures
        ({
            let list = shown_rows(rows, 0);
            &&& forall|k: int, l: int|
                0 <= k < l < list.len() ==> #[trigger] list[k] < #[trigger] list[l]
            &&& forall|p: int|
                #[trigger] list.contains(p) <==> 0 <= p < rows.len() && !hidden(rows, p)
        }),
{
    lemma_shown_rows(rows, 0);
    let list = shown_rows(rows, 0);
    assert forall|p: int| #[trigger] list.contains(p) implies 0 <= p < rows.len() && !hidden(
        rows,
        p,
    ) by {
        let k = choose|k: int| 0 <= k < list.len() && list[k] == p;
        assert(0 <= list[k] < rows.len());
    }
}

proof fn lemma_place_of(list: Seq<int>, row: int, k: int, at: int)
    requires
        0 <= k <= at < list.len(),
        list[at] == row,
    ensures
        place_of(list, row, k) matches Some(p) && k <= p < list.len() && list[p] == row,
    decreases list.len() - k,
{
    if list[k] != row {
        lemma_place_of(list, row, k + 1, at);
    }
}

/// Once the form is scrolled, the line of the row under the cursor is on the screen.
pub proof fn law_cursor_row_is_drawn(s: RequestFormShape, width: nat, height: nat)
    requires
        height > 0,
        s.form.cursor < s.form.rows.len(),
        !hidden(s.form.rows, s.form.cursor as int),
        s.scroll == scrolled(s.scroll, cursor_place(s.form), height),
    ensures
        ({
            let lines = row_lines(s, width, height);
            let own = row_spans(
                s.form,
                s.editor,
                s.form.cursor as int,
                label_width(s.form.rows),
                width,
            );
            lines.len() <= height && lines.contains(own)
        }),
{
    let rows = s.form.rows;
    let list = shown_rows(rows, 0);
    lemma_shown_rows(rows, 0);
    assert(list.contains(s.form.cursor as int));
    let at = choose|at: int| 0 <= at < list.len() && list[at] == s.form.cursor as int;
    lemma_place_of(list, s.form.cursor as int, 0, at);
    let p = cursor_place(s.form);
    let lines = row_lines(s, width, height);
    assert(s.scroll <= p < s.scroll + height);
    assert(lines[p - s.scroll] == row_spans(
        s.form,
        s.editor,
        s.form.cursor as int,
        label_width(rows),
        width,
    ));
}

proof fn lemma_widest(rows: Seq<RowShape>, list: Seq<int>, i: int, k: int)
    requires
        0 <= i <= k < list.len(),
    ensures
        label_room(rows[list[k]]) <= widest(rows, list, i),
    decreases k - i,
{
    if i < k {
        lemma_widest(rows, list, i + 1, k);
    }
}

/// The label column is as wide as the shown labels want, within its limits.
pub proof fn law_labels_have_room(rows: Seq<RowShape>, i: int)
    requires
        0 <= i < rows.len(),
        !hidden(rows, i),
    ensures
        16 <= label_width(rows) <= 34,
        label_room(rows[i]) <= 34 ==> label_room(rows[i]) <= label_width(rows),
{
    let list = shown_rows(rows, 0);
    lemma_shown_rows(rows, 0);
    assert(list.contains(i));
    let k = choose|k: int| 0 <= k < list.len() && list[k] == i;
    lemma_widest(rows, list, 0, k);
}

/// The strip below the form tells what the row under the cursor is.
pub proof fn law_strip_can_be_read(row: RowShape)
    ensures
        reads(info_spans(row), row.label),
        reads(info_spans(row), row.kind_label),
        row.description matches Some(text) ==> reads(info_spans(row), text),
        row.required ==> reads(info_spans(row), "required"@),
        row.nullable ==> reads(info_spans(row), "nullable"@),
{
    let line = info_spans(row);
    let none = Seq::<char>::empty();
    lemma_within(" "@, row.label, " "@);
    assert(contains_text(line[0].text, row.label));
    lemma_within("· "@, row.kind_label, " "@);
    assert(contains_text(line[1].text, row.kind_label));
    reveal_strlit("· required ");
    reveal_strlit("required");
    reveal_strlit("· nullable ");
    reveal_strlit("nullable");
    assert("· required "@.subrange(2, 10) =~= "required"@);
    assert(occurs_at("· required "@, "required"@, 2));
    assert("· nullable "@.subrange(2, 10) =~= "nullable"@);
    assert(occurs_at("· nullable "@, "nullable"@, 2));
    if row.required {
        assert(contains_text(line[2].text, "required"@));
    }
    if row.nullable {
        let k: int = if row.required {
            3
        } else {
            2
        };
        assert(contains_text(line[k].text, "nullable"@));
    }
    match row.description {
        Some(text) => {
            lemma_within("— "@, text, none);
            assert("— "@ + text + none =~= "— "@ + text);
            assert(contains_text(line[line.len() - 1].text, text));
        },
        None => {},
    }
}

// ---------------------------------------------------------------- lists

/// The line of an endpoint tells its method, its path and its summary, or its id
/// where it has none. It is marked where a login is needed and where it is deprecated.
pub proof fn law_endpoint_item_can_be_read(e: EndpointShape)
    ensures
        ({
            let line = endpoints::item_spans(e);
            &&& reads(line, e.method)
            &&& reads(line, e.path)
            &&& reads(
                line,
                match e.summary {
                    Some(text) => text,
                    None => e.id,
                },
            )
            &&& line.len() == 4 + (if e.auth_required {
                1int
            } else {
                0
            }) + (if e.deprecated {
                1int
            } else {
                0
            })
            &&& e.deprecated ==> line.last().text == "  deprecated"@ && line.last().style.crossed_out
        }),
{
    let line = endpoints::item_spans(e);
    law_centered(e.method, 6);
    lemma_wrapped(" "@, centered_text(e.method, 6), " "@, e.method);
    assert(contains_text(line[0].text, e.method));
    lemma_padded_holds(e.path, 36);
    assert(contains_text(line[2].text, e.path));
    let told = match e.summary {
        Some(text) => text,
        None => e.id,
    };
    lemma_itself(told);
    assert(contains_text(line[3].text, told));
}

/// The line of a tag tells its name, how many endpoints it has and its description.
pub proof fn law_tag_item_can_be_read(tag: GroupShape)
    ensures
        ({
            let line = tags::item_spans(tag);
            &&& reads(line, tag.name)
            &&& reads(line, decimal(tag.endpoint_ids.len()))
            &&& tag.description matches Some(text) ==> reads(line, text)
        }),
{
    let line = tags::item_spans(tag);
    let none = Seq::<char>::empty();
    lemma_padded_holds(tag.name, 24);
    lemma_wrapped(" "@, padded(tag.name, 24), none, tag.name);
    assert(" "@ + padded(tag.name, 24) + none =~= " "@ + padded(tag.name, 24));
    assert(contains_text(line[0].text, tag.name));
    let digits = decimal(tag.endpoint_ids.len());
    let count = padded_left(digits, 3);
    lemma_padded_holds(digits, 3);
    lemma_wrapped(none, count, " endpoints  "@, digits);
    assert(none + count + " endpoints  "@ =~= count + " endpoints  "@);
    assert(contains_text(line[1].text, digits));
    match tag.description {
        Some(text) => {
            lemma_itself(text);
            assert(contains_text(line[2].text, text));
        },
        None => {},
    }
}

/// The line of a project tells its name, its address and how it logs in, and marks
/// it where its spec is at hand.
pub proof fn law_project_item_can_be_read(name: Seq<char>, project: ProjectConfig, loaded: bool)
    ensures
        ({
            let line = projects::item_spans(name, Some(project), loaded);
            &&& reads(line, name)
            &&& reads(line, project.base_url.text@)
            &&& reads(
                line,
                match auth_name(project.auth) {
                    Some(kind) => kind,
                    None => "no auth"@,
                },
            )
            &&& loaded ==> contains_text(line[0].text, "●"@)
            &&& !loaded ==> !contains_text(line[0].text, "●"@)
        }),
{
    let line = projects::item_spans(name, Some(project), loaded);
    let none = Seq::<char>::empty();
    lemma_padded_holds(name, 24);
    assert(contains_text(line[1].text, name));
    let address = project.base_url.text@;
    lemma_within(none, address, "  "@);
    assert(none + address + "  "@ =~= address + "  "@);
    assert(contains_text(line[2].text, address));
    let kind = match auth_name(project.auth) {
        Some(kind) => kind,
        None => "no auth"@,
    };
    lemma_within("["@, kind, "]"@);
    assert(contains_text(line[3].text, kind));
    reveal_strlit("●");
    reveal_strlit(" ");
    if loaded {
        lemma_within(" "@, "●"@, " "@);
    } else {
        let blank = " "@ + " "@ + " "@;
        assert(line[0].text == blank);
        if contains_text(blank, "●"@) {
            let i = choose|i: int| occurs_at(blank, "●"@, i);
            assert(blank.subrange(i, i + 1)[0] == blank[i]);
            assert("●"@[0] == '●');
        }
    }
}

// ---------------------------------------------------------------- the answer

/// The first line of an answer tells its status, method, address and how long it took.
pub proof fn law_answer_line_can_be_read(r: ApiResponseShape)
    ensures
        reads(head_spans(r), decimal(r.status as nat)),
        reads(head_spans(r), r.method),
        reads(head_spans(r), r.url),
        reads(head_spans(r), decimal(r.latency_ms as nat)),
{
    let line = head_spans(r);
    let none = Seq::<char>::empty();
    lemma_within(" "@, decimal(r.status as nat), " "@);
    assert(contains_text(line[0].text, decimal(r.status as nat)));
    law_centered(r.method, 6);
    lemma_wrapped(" "@, centered_text(r.method, 6), " "@, r.method);
    assert(contains_text(line[2].text, r.method));
    lemma_within(" "@, r.url, none);
    assert(" "@ + r.url + none =~= " "@ + r.url);
    assert(contains_text(line[3].text, r.url));
    lemma_within("  ⏱ "@, decimal(r.latency_ms as nat), " ms"@);
    assert(contains_text(line[4].text, decimal(r.latency_ms as nat)));
}

/// The lines below hold every line of the body as it is, the headers where they are
/// asked for, and of an error every problem that the framework names.
pub proof fn law_answer_is_shown(r: ApiResponseShape, project: ProjectConfig, headers: bool, i: int)
    ensures
        ({
            let broken = lines_of(body_text(r));
            let all = response_spans(r, Some(project), headers);
            &&& all.len() >= broken.len()
            &&& 0 <= i < broken.len() ==> plain_text(all[all.len() - broken.len() + i], 0)
                == broken[i]
            &&& all[0] == head_spans(r)
            &&& 0 <= i < r.headers.len() && headers ==> exists|k: int|
                0 <= k < all.len() && reads(#[trigger] all[k], r.headers[i].0) && reads(
                    all[k],
                    r.headers[i].1,
                )
            &&& r.status >= 400 && fastapi_lines(r.status as nat, r.body) is Some && 0 <= i
                < fastapi_lines(r.status as nat, r.body)->0.len() ==> exists|k: int|
                0 <= k < all.len() && reads(
                    #[trigger] all[k],
                    fastapi_lines(r.status as nat, r.body)->0[i],
                )
        }),
{
    let broken = lines_of(body_text(r));
    let all = response_spans(r, Some(project), headers);
    let problems = problem_lines(r, Some(project));
    let shown = header_lines(r, headers);
    let none = Seq::<char>::empty();
    if 0 <= i < broken.len() {
        let line = all[all.len() - broken.len() + i];
        assert(line == body_lines(r)[i]);
        law_coloring_keeps_the_text(broken[i]);
        if !r.body_is_json {
            reveal_with_fuel(plain_text, 2);
            assert(plain_text(line, 0) =~= broken[i]);
        }
    }
    if 0 <= i < r.headers.len() && headers {
        let k = 1 + problems.len() + 2 + i;
        let line = all[k];
        assert(line == shown[2 + i]);
        lemma_within("  "@, r.headers[i].0, none);
        assert("  "@ + r.headers[i].0 + none =~= "  "@ + r.headers[i].0);
        assert(contains_text(line[0].text, r.headers[i].0));
        lemma_itself(r.headers[i].1);
        assert(contains_text(line[2].text, r.headers[i].1));
        assert(reads(all[k], r.headers[i].0) && reads(all[k], r.headers[i].1));
    }
    if r.status >= 400 && fastapi_lines(r.status as nat, r.body) is Some {
        let list = fastapi_lines(r.status as nat, r.body)->0;
        if 0 <= i < list.len() {
            let k = 1 + 1 + i;
            let line = all[k];
            assert(line == problems[1 + i]);
            lemma_itself(list[i]);
            assert(contains_text(line[1].text, list[i]));
            assert(reads(all[k], list[i]));
        }
    }
}

/// A request that failed says why.
pub proof fn law_failure_is_shown(message: Seq<char>)
    ensures
        exists|k: int|
            0 <= k < failed_lines(message).len() && reads(
                #[trigger] failed_lines(message)[k],
                message,
            ),
{
    let none = Seq::<char>::empty();
    let line = failed_lines(message)[3];
    lemma_within("   "@, message, none);
    assert("   "@ + message + none =~= "   "@ + message);
    assert(contains_text(line[0].text, message));
    assert(reads(failed_lines(message)[3], message));
}

// ---------------------------------------------------------------- pieces

/// A centered text has its width, with as much room before it as behind it, one
/// more behind where the room is odd.
pub proof fn law_centered(text: Seq<char>, width: nat)
    ensures
        contains_text(centered_text(text, width), text),
        centered_text(text, width).len() == (if text.len() < width {
            width
        } else {
            text.len()
        }),
        text.len() < width ==> {
            let room = (width - text.len()) / 2;
            centered_text(text, width).subrange(room, room + text.len()) == text
        },
{
    if text.len() < width {
        let room = (width - text.len()) as nat;
        lemma_blank(room / 2);
        lemma_blank((room - room / 2) as nat);
        lemma_within(
            repeated(" "@, room / 2),
            text,
            repeated(" "@, (room - room / 2) as nat),
        );
        let half = (width - text.len()) / 2;
        assert(half == room / 2);
        assert(centered_text(text, width).subrange(half, half + text.len()) =~= text);
    } else {
        lemma_itself(text);
    }
}

proof fn lemma_blank(n: nat)
    ensures
        repeated(" "@, n).len() == n,
    decreases n,
{
    reveal_strlit(" ");
    if n > 0 {
        lemma_blank((n - 1) as nat);
    }
}

/// A printed value has the color of the value itself.
pub proof fn law_printed_values_have_their_color(value: Json)
    requires
        !(value is Float),
    ensures
        look_of(compact(value)) == value_look(value),
{
    match value {
        Json::Null => {
            reveal_strlit("null");
        },
        Json::Bool(b) => {
            reveal_strlit("true");
            reveal_strlit("false");
        },
        Json::Int(n) => {
            if n >= 0 {
                law_decimal_is_read_back(n as nat);
                assert(is_digit(decimal(n as nat)[0]));
            }
        },
        Json::Text(s) => {
            reveal_strlit("\"");
            assert(quoted(s)[0] == '"');
        },
        Json::Array(_) => {
            reveal_strlit("[");
            assert(compact(value)[0] == '[');
        },
        Json::Object(_) => {
            reveal_strlit("{");
            assert(compact(value)[0] == '{');
        },
        Json::Float(_) => {},
    }
}

proof fn lemma_spaces(s: Seq<char>, i: int, n: int)
    requires
        0 <= i <= n < s.len(),
        forall|k: int| 0 <= k < n ==> #[trigger] s[k] == ' ',
        s[n] != ' ',
    ensures
        spaces_end(s, i) == n,
    decreases n - i,
{
    if i < n {
        lemma_spaces(s, i + 1, n);
    }
}

proof fn lemma_quoted_to(s: Seq<char>, i: int, n: int)
    requires
        0 <= i <= n < s.len(),
        forall|k: int| i <= k < n ==> #[trigger] s[k] != '"' && s[k] != '\\',
        s[n] == '"',
    ensures
        quote_end(s, i) == n + 1,
    decreases n - i,
{
    if i < n {
        lemma_quoted_to(s, i + 1, n);
    }
}

/// A printed member is shown as its indentation, its key in quotes, and its value,
/// each in a color of its own.
pub proof fn law_members_are_told_apart(indent: nat, key: Seq<char>, value: Seq<char>)
    requires
        forall|k: int| 0 <= k < key.len() ==> #[trigger] key[k] != '"' && key[k] != '\\',
    ensures
        ({
            let blank = Seq::new(indent, |k: int| ' ');
            let spans = json_spans(blank + seq!['"'] + key + seq!['"', ':', ' '] + value);
            &&& spans.len() == 4
            &&& spans[0].text == blank
            &&& spans[1].text == seq!['"'] + key + seq!['"']
            &&& spans[3] == span(value, look_of(value))
        }),
{
    let blank = Seq::new(indent, |k: int| ' ');
    let s = blank + seq!['"'] + key + seq!['"', ':', ' '] + value;
    let start = indent as int;
    let end: int = start + 1 + key.len();
    lemma_spaces(s, 0, start);
    assert forall|k: int| start + 1 <= k < end implies #[trigger] s[k] != '"' && s[k] != '\\' by {
        assert(s[k] == key[k - start - 1]);
    }
    lemma_quoted_to(s, start + 1, end);
    assert(s.take(start) =~= blank);
    assert(s.subrange(start, end + 1) =~= seq!['"'] + key + seq!['"']);
    assert(s.skip(end + 3) =~= value);
}

/// Success is green, client errors are yellow and server errors red, wherever a
/// status is shown.
pub proof fn law_statuses_have_their_color(status: u16)
    ensures
        200 <= status < 300 ==> color_of_status(status) == GREEN,
        400 <= status < 500 ==> color_of_status(status) == YELLOW,
        500 <= status < 600 ==> color_of_status(status) == RED,
        200 <= status < 300 <==> terminal_status_color(status) == Ansi::Green,
        400 <= status < 500 <==> terminal_status_color(status) == Ansi::Yellow,
        500 <= status < 600 ==> terminal_status_color(status) == Ansi::Red,
        200 <= status < 600 ==> declared_color(decimal(status as nat)) == color_of_status(status),
{
    if 200 <= status < 600 {
        let n = status as nat;
        reveal_with_fuel(decimal, 3);
        let digits = decimal(n);
        assert(digits[0] == decimal(n / 10)[0]);
        assert(decimal(n / 10)[0] == decimal(n / 10 / 10)[0]);
        assert(2 <= n / 10 / 10 < 6);
    }
}

/// The colors of the palette differ from each other; those of the terminal are left
/// to it.
pub proof fn law_palette_is_distinct(a: Color, b: Color)
    ensures
        rgb_of(a) is None <==> a is Terminal,
        rgb_of(a) is Some && rgb_of(a) == rgb_of(b) ==> a == b,
{
}

/// The common methods can be told apart by color.
pub proof fn law_methods_have_their_color(a: Seq<char>, b: Seq<char>)
    requires
        seq!["GET"@, "POST"@, "PUT"@, "PATCH"@, "DELETE"@].contains(a),
        seq!["GET"@, "POST"@, "PUT"@, "PATCH"@, "DELETE"@].contains(b),
        a != b,
    ensures
        color_of_method(a) != color_of_method(b),
        terminal_method_color(a) != terminal_method_color(b),
{
    let all = seq!["GET"@, "POST"@, "PUT"@, "PATCH"@, "DELETE"@];
    let i = choose|i: int| 0 <= i < all.len() && all[i] == a;
    let j = choose|j: int| 0 <= j < all.len() && all[j] == b;
    reveal_strlit("GET");
    reveal_strlit("POST");
    reveal_strlit("PUT");
    reveal_strlit("PATCH");
    reveal_strlit("DELETE");
    assert("GET"@[0] == 'G' && "DELETE"@[0] == 'D');
    assert("POST"@[1] == 'O' && "PUT"@[1] == 'U' && "PATCH"@[1] == 'A');
}

/// The title of a form and of an answer tells the project, the method and the path;
/// that of a list the project and the tag.
pub proof fn law_titles_can_be_read(
    f: RequestFormShape,
    answer: ResponseViewShape,
    list: EndpointListShape,
)
    ensures
        contains_text(form::title_text(f), f.bundle.project),
        contains_text(form::title_text(f), f.endpoint.method + " "@ + f.endpoint.path),
        contains_text(response::title_text(answer), answer.bundle.project),
        contains_text(response::title_text(answer), answer.method + " "@ + answer.path),
        contains_text(endpoints::title_text(list), list.bundle.project),
        list.tag matches Some(tag) ==> contains_text(endpoints::title_text(list), tag),
        contains_text(endpoints::meta_text(list), decimal(endpoints::visible(list).len())),
{
    let none = Seq::<char>::empty();
    let lead = "projects ▸ "@;
    let p = f.bundle.project;
    let what = f.endpoint.method + " "@ + f.endpoint.path;
    lemma_within(lead, p, " ▸ "@ + what);
    assert(lead + p + (" ▸ "@ + what) =~= form::title_text(f));
    lemma_within(lead + p + " ▸ "@, what, none);
    assert(lead + p + " ▸ "@ + what + none =~= form::title_text(f));
    let q = answer.bundle.project;
    let asked = answer.method + " "@ + answer.path;
    let tail = " ▸ response"@;
    lemma_within(lead, q, " ▸ "@ + asked + tail);
    assert(lead + q + (" ▸ "@ + asked + tail) =~= response::title_text(answer));
    lemma_within(lead + q + " ▸ "@, asked, tail);
    assert(lead + q + " ▸ "@ + asked + tail =~= response::title_text(answer));
    let r = list.bundle.project;
    let shown = match list.tag {
        Some(tag) => tag,
        None => "all endpoints"@,
    };
    lemma_within(lead, r, " ▸ "@ + shown);
    assert(lead + r + (" ▸ "@ + shown) =~= endpoints::title_text(list));
    lemma_within(lead + r + " ▸ "@, shown, none);
    assert(lead + r + " ▸ "@ + shown + none =~= endpoints::title_text(list));
    let digits = decimal(endpoints::visible(list).len());
    lemma_within(none, digits, " endpoints"@);
    assert(none + digits + " endpoints"@ =~= endpoints::meta_text(list));
}

/// The header tells where the user is, a loading line what is awaited.
pub proof fn law_frame_can_be_read(title: Seq<char>, frame: u64)
    ensures
        reads(header_spans(title), title),
        reads(loading_spans(title, frame), title),
{
    lemma_itself(title);
    assert(contains_text(header_spans(title)[2].text, title));
    let line = loading_spans(title, frame);
    let head = line[0].text.take(line[0].text.len() - title.len() - "…"@.len());
    lemma_within(head, title, "…"@);
    assert(head + title + "…"@ =~= line[0].text);
    assert(contains_text(line[0].text, title));
}

proof fn lemma_hint_stands(hints: Seq<(Seq<char>, Seq<char>)>, j: int, i: int)
    requires
        0 <= j <= i < hints.len(),
    ensures
        reads(hint_spans(hints, j), hints[i].0),
        reads(hint_spans(hints, j), hints[i].1),
    decreases i - j,
{
    let line = hint_spans(hints, j);
    if j == i {
        lemma_within(" "@, hints[i].0, " "@);
        lemma_within(" "@, hints[i].1, "  "@);
        assert(contains_text(line[0].text, hints[i].0));
        assert(contains_text(line[1].text, hints[i].1));
    } else {
        lemma_hint_stands(hints, j + 1, i);
        let rest = hint_spans(hints, j + 1);
        let a = choose|k: int|
            0 <= k < rest.len() && contains_text((#[trigger] rest[k]).text, hints[i].0);
        let b = choose|k: int|
            0 <= k < rest.len() && contains_text((#[trigger] rest[k]).text, hints[i].1);
        assert(line[a + 2] == rest[a]);
        assert(line[b + 2] == rest[b]);
    }
}

/// The footer tells the status and every key with what it does.
pub proof fn law_footer_can_be_read(
    hints: Seq<(Seq<char>, Seq<char>)>,
    status: Option<Seq<char>>,
    i: int,
)
    ensures
        status matches Some(text) ==> reads(footer_spans(hints, status), text),
        0 <= i < hints.len() ==> reads(footer_spans(hints, status), hints[i].0) && reads(
            footer_spans(hints, status),
            hints[i].1,
        ),
{
    let line = footer_spans(hints, status);
    let rest = hint_spans(hints, 0);
    let lead = line.len() - rest.len();
    match status {
        Some(text) => {
            lemma_within(" "@, text, " "@);
            assert(contains_text(line[0].text, text));
        },
        None => {},
    }
    if 0 <= i < hints.len() {
        lemma_hint_stands(hints, 0, i);
        let a = choose|k: int|
            0 <= k < rest.len() && contains_text((#[trigger] rest[k]).text, hints[i].0);
        let b = choose|k: int|
            0 <= k < rest.len() && contains_text((#[trigger] rest[k]).text, hints[i].1);
        assert(line[lead + a] == rest[a]);
        assert(line[lead + b] == rest[b]);
    }
}

} // verus!
