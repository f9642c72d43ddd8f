//! The request form screen: navigate flattened rows, edit values inline,
//! Shift+X to null/exclude, `i` for docs, `e` for $EDITOR, Ctrl+S to send.

use super::response::{ProgressShape, ResponseView, ResponseViewShape};
use super::{
    Action, ActionShape, Body, BodyShape, Drawing, DrawingShape, KeyCode, KeyEvent, Screen,
    ScreenShape,
};
use crate::http::{ArgsShape, RequestArgs};
use crate::json::parse::parsed;
use crate::json::print::{compact, indented};
use crate::json::{Json, JsonValue};
use crate::model::schema_node::copied;
use crate::model::{Endpoint, EndpointShape};
use crate::text::{
    byte_len, cat, cat3, chars_of, decimal, owned, repeat, repeated, show, without_last,
};
use crate::tui::form::arrays::{appended_rows, children, deleted};
use crate::tui::form::cursor::{hidden, moved};
use crate::tui::form::edit::{
    cycled, hinted, reincluded, seed_text, toggled, typed, with_row, REQUIRED_HINT,
};
use crate::tui::form::init::{hydrated, opened};
use crate::tui::form::rows::endpoint_fits;
use crate::tui::form::serialize::{editable_body, SerializedShape};
use crate::tui::form::steady::{
    law_appending_is_steady, law_blocked_row_is_on_the_form, law_deleting_is_steady,
    law_editing_is_steady, law_hydrating_is_steady, law_moving_is_steady,
    law_opened_form_is_steady, steady,
};
use crate::tui::form::{FormShape, FormState, KindShape, RowKind, RowShape, RowState, StateShape};
use crate::tui::theme::{
    self, accent, bold, colored, soft, span, unstyled, Line, Span, SpanShape, Style, ACCENT, CYAN,
    DIM, FG, FG_SOFT, GREEN, MAGENTA, ORANGE, RED, SEL_BG, YELLOW,
};
use crate::tui::widgets::{docs_lines, endpoint_docs};
use crate::tui::{error_modal, share, AppCtx, BundleShape, CtxShape, Effect, EffectShape, SpecBundle};
use std::sync::Arc;
use vstd::prelude::*;
use vstd::string::*;
use vstd::utf8::encode_utf8;

verus! {

#[derive(Debug)]
pub struct RequestForm {
    pub bundle: Arc<SpecBundle>,
    pub endpoint: Endpoint,
    pub form: FormState,
    /// Inline editor state: (row, text). Some = editing.
    pub editor: Option<(usize, String)>,
    pub scroll: usize,
    /// Whether the endpoint's docs are shown.
    pub show_docs: bool,
}

// ---------------------------------------------------------------- model

pub struct RequestFormShape {
    pub bundle: BundleShape,
    pub endpoint: EndpointShape,
    pub form: FormShape,
    pub editor: Option<(nat, Seq<char>)>,
    pub scroll: nat,
    pub show_docs: bool,
}

impl View for RequestForm {
    type V = RequestFormShape;

    open spec fn view(&self) -> RequestFormShape {
        RequestFormShape {
            bundle: self.bundle@,
            endpoint: self.endpoint@,
            form: self.form@,
            editor: match self.editor {
                Some((row, text)) => Some((row as nat, text@)),
                None => None,
            },
            scroll: self.scroll as nat,
            show_docs: self.show_docs,
        }
    }
}

impl RequestFormShape {
    pub open spec fn wf(self) -> bool {
        &&& endpoint_fits(self.endpoint)
        &&& self.form.wf()
        &&& steady(self.form)
        &&& self.editor matches Some((row, _)) ==> row < self.form.rows.len()
    }
}

pub open spec fn title_text(s: RequestFormShape) -> Seq<char> {
    "projects ▸ "@ + s.bundle.project + " ▸ "@ + s.endpoint.method + " "@ + s.endpoint.path
}

pub open spec fn hints(s: RequestFormShape) -> Seq<(Seq<char>, Seq<char>)> {
    if s.editor is Some {
        seq![("enter"@, "commit"@), ("esc"@, "cancel"@)]
    } else {
        seq![
            ("enter"@, "edit/toggle"@),
            ("X"@, "null/exclude"@),
            ("a/d"@, "array +/-"@),
            ("i"@, "docs"@),
            ("e"@, "$EDITOR"@),
            ("ctrl+s"@, "send"@),
            ("esc"@, "back"@),
        ]
    }
}

/// What a key does while a value is typed.
pub open spec fn editing_step(s: RequestFormShape, code: KeyCode, ctx: CtxShape) -> (
    RequestFormShape,
    CtxShape,
) {
    let (row, text) = s.editor->0;
    match code {
        KeyCode::Esc => (RequestFormShape { editor: None, ..s }, ctx),
        KeyCode::Enter => match typed(s.form.rows[row as int], text) {
            Ok(state) => (
                RequestFormShape {
                    form: with_row(
                        s.form,
                        row as int,
                        RowShape { state, ..s.form.rows[row as int] },
                    ),
                    editor: None,
                    ..s
                },
                ctx,
            ),
            Err(message) => (s, CtxShape { status: Some(message), ..ctx }),
        },
        KeyCode::Backspace => (
            RequestFormShape {
                editor: Some(
                    (
                        row,
                        if text.len() > 0 {
                            text.drop_last()
                        } else {
                            text
                        },
                    ),
                ),
                ..s
            },
            ctx,
        ),
        KeyCode::Char(c) => (RequestFormShape { editor: Some((row, text.push(c))), ..s }, ctx),
        _ => (s, ctx),
    }
}

pub open spec fn args_of(sent: SerializedShape) -> ArgsShape {
    ArgsShape {
        path_params: sent.path_params,
        query_params: sent.query_params,
        headers: sent.headers,
        body: sent.body,
        no_auth: false,
    }
}

/// What sending does: a form that is blocked shows where, any other goes out.
pub open spec fn submit_step(s: RequestFormShape, ctx: CtxShape) -> (
    RequestFormShape,
    ActionShape,
    CtxShape,
) {
    match s.form.sent() {
        Err(blocked) => (
            RequestFormShape {
                form: FormShape { cursor: blocked.row as nat, ..s.form },
                ..s
            },
            ActionShape::Stay,
            CtxShape { status: Some(blocked.message), ..ctx },
        ),
        Ok(sent) => {
            let seq = (ctx.request_seq + 1) as u64;
            (
                s,
                ActionShape::Push(
                    ScreenShape::Response(
                        ResponseViewShape {
                            seq,
                            bundle: s.bundle,
                            method: s.endpoint.method,
                            path: s.endpoint.path,
                            state: ProgressShape::Loading,
                            scroll: 0,
                            show_headers: false,
                        },
                    ),
                ),
                CtxShape {
                    request_seq: seq,
                    effects: ctx.effects.push(
                        EffectShape::Send {
                            seq,
                            project: s.bundle.project,
                            endpoint: s.endpoint,
                            args: args_of(sent),
                        },
                    ),
                    ..ctx
                },
            )
        },
    }
}

/// The form with the row at `i` toggled; an enum without values stays.
pub open spec fn toggled_form(form: FormShape, i: int) -> FormShape {
    if form.rows[i].kind matches KindShape::Enum(values) && values.len() == 0 {
        form
    } else {
        with_row(form, i, toggled(form.rows[i]))
    }
}

pub open spec fn with_form(s: RequestFormShape, form: FormShape) -> RequestFormShape {
    RequestFormShape { form, ..s }
}

/// What a key does to the row under the cursor.
pub open spec fn row_step(s: RequestFormShape, code: KeyCode, ctx: CtxShape) -> (
    RequestFormShape,
    CtxShape,
) {
    let i = s.form.cursor as int;
    let row = s.form.rows[i];
    if code == KeyCode::Enter {
        match row.kind {
            KindShape::Scalar => (
                RequestFormShape { editor: Some((i as nat, seed_text(row))), ..s },
                ctx,
            ),
            KindShape::RawJson => (
                RequestFormShape { editor: Some((i as nat, seed_text(row))), ..s },
                ctx,
            ),
            KindShape::SectionHeader => (s, ctx),
            KindShape::Const => (s, ctx),
            _ => (with_form(s, toggled_form(s.form, i)), ctx),
        }
    } else if code == KeyCode::Char(' ') || code == KeyCode::Tab {
        (with_form(s, toggled_form(s.form, i)), ctx)
    } else if code == KeyCode::Left || code == KeyCode::Right {
        if row.kind is Enum {
            (with_form(s, toggled_form(s.form, i)), ctx)
        } else {
            (s, ctx)
        }
    } else if code == KeyCode::Char('X') {
        (
            with_form(s, with_row(s.form, i, cycled(row))),
            if hinted(row) {
                CtxShape { status: Some(REQUIRED_HINT@), ..ctx }
            } else {
                ctx
            },
        )
    } else if code == KeyCode::Char('x') {
        (with_form(s, with_row(s.form, i, reincluded(row))), ctx)
    } else if code == KeyCode::Char('a') {
        if row.kind is ArrayHeader {
            (with_form(s, FormShape { rows: appended_rows(s.form.rows, i), ..s.form }), ctx)
        } else {
            (s, ctx)
        }
    } else {
        (with_form(s, deleted(s.form, i)), ctx)
    }
}

/// Whether a key acts on the row under the cursor.
pub open spec fn acts_on_row(code: KeyCode) -> bool {
    code == KeyCode::Enter || code == KeyCode::Char(' ') || code == KeyCode::Tab || code
        == KeyCode::Left || code == KeyCode::Right || code == KeyCode::Char('X') || code
        == KeyCode::Char('x') || code == KeyCode::Char('a') || code == KeyCode::Char('d')
}

/// The form with its cursor moved.
pub open spec fn moved_form(form: FormShape, delta: int) -> FormShape {
    FormShape { cursor: moved(form.rows, form.cursor as int, delta) as nat, ..form }
}

pub open spec fn key_step(s: RequestFormShape, key: KeyEvent, ctx: CtxShape) -> (
    RequestFormShape,
    ActionShape,
    CtxShape,
) {
    if s.editor is Some {
        let (after, ctx) = editing_step(s, key.code, ctx);
        (after, ActionShape::Stay, ctx)
    } else if key.control && key.code == KeyCode::Char('s') {
        submit_step(s, ctx)
    } else if key.code == KeyCode::Up || key.code == KeyCode::Char('k') {
        (with_form(s, moved_form(s.form, -1)), ActionShape::Stay, ctx)
    } else if key.code == KeyCode::Down || key.code == KeyCode::Char('j') {
        (with_form(s, moved_form(s.form, 1)), ActionShape::Stay, ctx)
    } else if acts_on_row(key.code) {
        if s.form.rows.len() > 0 {
            let (after, ctx) = row_step(s, key.code, ctx);
            (after, ActionShape::Stay, ctx)
        } else {
            (s, ActionShape::Stay, ctx)
        }
    } else if key.code == KeyCode::Char('i') {
        (RequestFormShape { show_docs: !s.show_docs, ..s }, ActionShape::Stay, ctx)
    } else if key.code == KeyCode::Char('e') && s.endpoint.body is Some {
        (
            s,
            ActionShape::RunEditor(indented(editable_body(s.form), Seq::empty())),
            ctx,
        )
    } else if key.code == KeyCode::Esc {
        (s, ActionShape::Pop, ctx)
    } else {
        (s, ActionShape::Stay, ctx)
    }
}

/// What an edited body does.
pub open spec fn editor_step(s: RequestFormShape, text: Option<Seq<char>>, ctx: CtxShape) -> (
    RequestFormShape,
    CtxShape,
) {
    match text {
        None => (s, ctx),
        Some(text) => match parsed(text) {
            Ok(value) => (
                with_form(s, hydrated(s.form, s.endpoint, value)),
                CtxShape { status: Some("body updated from editor"@), ..ctx },
            ),
            Err(message) => (
                s,
                CtxShape {
                    modal: Some(error_modal("editor result is not valid JSON: "@ + message)),
                    ..ctx
                },
            ),
        },
    }
}

// ---------------------------------------------------------------- appearance

/// The rows from position `i` on that are not hidden.
pub open spec fn shown_rows(rows: Seq<RowShape>, i: int) -> Seq<int>
    decreases rows.len() - i,
{
    if i < 0 || i >= rows.len() {
        Seq::empty()
    } else if hidden(rows, i) {
        shown_rows(rows, i + 1)
    } else {
        seq![i] + shown_rows(rows, i + 1)
    }
}

/// Where a row stands among the shown rows from the `k`-th on.
pub open spec fn place_of(list: Seq<int>, row: int, k: int) -> Option<int>
    decreases list.len() - k,
{
    if k < 0 || k >= list.len() {
        None
    } else if list[k] == row {
        Some(k)
    } else {
        place_of(list, row, k + 1)
    }
}

/// Where the cursor stands among the shown rows.
pub open spec fn cursor_place(form: FormShape) -> int {
    match place_of(shown_rows(form.rows, 0), form.cursor as int, 0) {
        Some(k) => k,
        None => 0,
    }
}

/// The scroll position that keeps the cursor in view.
pub open spec fn scrolled(scroll: nat, at: int, height: nat) -> nat {
    if at < scroll {
        at as nat
    } else if height > 0 && at >= scroll + height {
        (at + 1 - height) as nat
    } else {
        scroll
    }
}

/// The room that a label wants.
pub open spec fn label_room(row: RowShape) -> nat {
    row.depth * 2 + encode_utf8(row.label).len() + 1
}

/// The greatest room that a label wants among the shown rows from the `k`-th on.
pub open spec fn widest(rows: Seq<RowShape>, list: Seq<int>, k: int) -> nat
    decreases list.len() - k,
{
    if k < 0 || k >= list.len() {
        0
    } else {
        let here = label_room(rows[list[k]]);
        let rest = widest(rows, list, k + 1);
        if here >= rest {
            here
        } else {
            rest
        }
    }
}

/// The label column: the longest shown label, within limits.
pub open spec fn label_width(rows: Seq<RowShape>) -> nat {
    let room = widest(rows, shown_rows(rows, 0), 0);
    if room < 16 {
        16
    } else if room > 34 {
        34
    } else {
        room
    }
}

pub open spec fn value_text(value: Json) -> Seq<char> {
    match value {
        Json::Text(s) => s,
        other => compact(other),
    }
}

/// The color of a value, by its JSON type.
pub open spec fn value_look(value: Json) -> Style {
    match value {
        Json::Text(_) => colored(GREEN),
        Json::Int(_) => colored(ORANGE),
        Json::Float(_) => colored(ORANGE),
        Json::Bool(_) => colored(MAGENTA),
        Json::Null => colored(MAGENTA),
        _ => colored(FG),
    }
}

/// How many items an array holds.
pub open spec fn items_text(count: nat) -> Seq<char> {
    decimal(count) + " item"@ + (if count == 1 {
        ""@
    } else {
        "s"@
    })
}

/// The value cell of a row.
pub open spec fn value_span(rows: Seq<RowShape>, i: int) -> SpanShape {
    let row = rows[i];
    match row.state {
        StateShape::Excluded => span("⊘ excluded"@, Style { crossed_out: true, ..colored(DIM) }),
        StateShape::Null => span("∅ null"@, Style { italic: true, ..colored(MAGENTA) }),
        StateShape::Empty => span("‹empty›"@, Style { italic: true, ..colored(DIM) }),
        StateShape::Filled(value) => match row.kind {
            KindShape::ObjectHeader => span(
                if row.collapsed {
                    "{ … } collapsed"@
                } else {
                    "{"@
                },
                colored(CYAN),
            ),
            KindShape::ArrayHeader => span(
                "[ "@ + items_text(children(rows, i).len()) + " ]"@,
                colored(CYAN),
            ),
            KindShape::Enum(_) => span("◂ "@ + value_text(value) + " ▸"@, colored(CYAN)),
            KindShape::Const => span(value_text(value) + " ⚷ fixed"@, colored(DIM)),
            _ => span(value_text(value), value_look(value)),
        },
    }
}

/// The line of a section's heading.
pub open spec fn heading_spans(label: Seq<char>, width: nat) -> Seq<SpanShape> {
    let text = "╴"@ + label + "╶"@;
    let used = encode_utf8(text).len() + 3;
    seq![
        span("──"@, colored(SEL_BG)),
        span(text, Style { bold: true, ..colored(ACCENT) }),
        span(
            repeated(
                "─"@,
                if width > used {
                    (width - used) as nat
                } else {
                    0
                },
            ),
            colored(SEL_BG),
        ),
    ]
}

/// The cells of a row up to its value: cursor mark, label, required mark, padding.
pub open spec fn label_spans(row: RowShape, is_cursor: bool, width: nat) -> Seq<SpanShape> {
    let name = repeated("  "@, row.depth) + row.label;
    let used = name.len() + 1;
    seq![
        if is_cursor {
            span("▌ "@, colored(ACCENT))
        } else {
            span("  "@, unstyled())
        },
        span(
            name,
            if is_cursor {
                Style { bold: true, ..colored(FG) }
            } else {
                colored(FG_SOFT)
            },
        ),
        span(
            if row.required {
                "*"@
            } else {
                " "@
            },
            colored(RED),
        ),
        span(
            repeated(
                " "@,
                (if width > used {
                    (width - used + 2) as nat
                } else {
                    2
                }),
            ),
            unstyled(),
        ),
    ]
}

/// The line of a row.
pub open spec fn row_spans(
    form: FormShape,
    editor: Option<(nat, Seq<char>)>,
    i: int,
    label_width: nat,
    width: nat,
) -> Seq<SpanShape> {
    let row = form.rows[i];
    if row.kind is SectionHeader {
        heading_spans(row.label, width)
    } else {
        label_spans(row, i == form.cursor, label_width) + (match editor {
            // The inline editor takes over the value cell.
            Some((at, text)) if at == i => seq![span(text + "▏"@, colored(YELLOW))],
            _ => seq![
                value_span(form.rows, i),
                span("  "@ + row.kind_label, colored(DIM)),
            ],
        })
    }
}

/// The lines of the shown rows that are in view.
pub open spec fn row_lines(s: RequestFormShape, width: nat, height: nat) -> Seq<Seq<SpanShape>> {
    let list = shown_rows(s.form.rows, 0);
    let left = if list.len() > s.scroll {
        (list.len() - s.scroll) as nat
    } else {
        0
    };
    Seq::new(
        if left < height {
            left
        } else {
            height
        },
        |k: int|
            row_spans(s.form, s.editor, list[s.scroll + k], label_width(s.form.rows), width),
    )
}

/// The strip that says what the row under the cursor is.
pub open spec fn info_spans(row: RowShape) -> Seq<SpanShape> {
    seq![
        span(" "@ + row.label + " "@, Style { bold: true, ..colored(FG) }),
        span("· "@ + row.kind_label + " "@, colored(DIM)),
    ] + (if row.required {
        seq![span("· required "@, colored(RED))]
    } else {
        Seq::empty()
    }) + (if row.nullable {
        seq![span("· nullable "@, colored(MAGENTA))]
    } else {
        Seq::empty()
    }) + (match row.description {
        Some(text) => seq![span("— "@ + text, colored(FG_SOFT))],
        None => Seq::empty(),
    })
}

/// What the screen shows, for a screen that is already scrolled.
pub open spec fn drawn(s: RequestFormShape, width: nat, height: nat) -> DrawingShape {
    DrawingShape {
        bar: None,
        body: BodyShape::Text { lines: row_lines(s, width, height), scroll: 0 },
        info: if s.form.cursor < s.form.rows.len() {
            seq![
                seq![span(repeated("─"@, width), colored(SEL_BG))],
                info_spans(s.form.rows[s.form.cursor as int]),
            ]
        } else {
            Seq::empty()
        },
        docs: if s.show_docs {
            docs_lines(s.endpoint)
        } else {
            Seq::empty()
        },
    }
}

// ---------------------------------------------------------------- operations

fn text_of_value(value: &JsonValue) -> (r: String)
    ensures
        r@ == value_text(value@),
{
    match value {
        JsonValue::Text(s) => s.clone(),
        other => other.to_text(),
    }
}

/// Color scalar values by JSON type (mirrors the response-body coloring).
fn value_style(value: &JsonValue) -> (r: Style)
    ensures
        r == value_look(value@),
{
    match value {
        JsonValue::Text(_) => Style::on(GREEN),
        JsonValue::Number(_) => Style::on(ORANGE),
        JsonValue::Bool(_) => Style::on(MAGENTA),
        JsonValue::Null => Style::on(MAGENTA),
        _ => theme::text(),
    }
}

impl RequestForm {
    pub fn new(bundle: Arc<SpecBundle>, endpoint: Endpoint) -> (r: RequestForm)
        requires
            endpoint_fits(endpoint@),
        ensures
            r@ == (RequestFormShape {
                bundle: bundle@,
                endpoint: endpoint@,
                form: opened(endpoint@),
                editor: None,
                scroll: 0,
                show_docs: false,
            }),
            r@.wf(),
    {
        let form = FormState::new(&endpoint);
        proof {
            law_opened_form_is_steady(endpoint@);
        }
        RequestForm { bundle, endpoint, form, editor: None, scroll: 0, show_docs: false }
    }

    pub fn title(&self) -> (r: String)
        ensures
            r@ == title_text(self@),
    {
        let mut out = cat3("projects ▸ ", self.bundle.project.as_str(), " ▸ ");
        out.append(self.endpoint.method.as_str());
        out.append(" ");
        out.append(self.endpoint.path.as_str());
        out
    }

    pub fn meta(&self) -> (r: Option<String>)
        ensures
            r.deep_view() == self@.endpoint.summary,
    {
        copied(&self.endpoint.summary)
    }

    pub fn key_hints(&self) -> (r: Vec<(&'static str, &'static str)>)
        ensures
            r.deep_view() == hints(self@),
    {
        let r = if self.editor.is_some() {
            vec![("enter", "commit"), ("esc", "cancel")]
        } else {
            vec![
                ("enter", "edit/toggle"),
                ("X", "null/exclude"),
                ("a/d", "array +/-"),
                ("i", "docs"),
                ("e", "$EDITOR"),
                ("ctrl+s", "send"),
                ("esc", "back"),
            ]
        };
        assert(r.deep_view() =~= hints(self@));
        r
    }

    fn submit(&mut self, ctx: &mut AppCtx) -> (r: Action)
        requires
            old(self)@.wf(),
            old(self)@.editor is None,
            old(ctx)@.wf(),
            old(ctx)@.request_seq < u64::MAX,
        ensures
            (final(self)@, r@, final(ctx)@) == submit_step(old(self)@, old(ctx)@),
            final(self)@.wf(),
            final(ctx)@.wf(),
    {
        proof {
            law_blocked_row_is_on_the_form(self@.form);
        }
        let serialized = match self.form.serialize() {
            Err(e) => {
                self.form.cursor = e.row;
                ctx.set_status(e.message);
                return Action::Stay;
            },
            Ok(serialized) => serialized,
        };
        ctx.request_seq = ctx.request_seq + 1;
        let seq: u64 = ctx.request_seq;
        let args = RequestArgs {
            path_params: serialized.path_params,
            query_params: serialized.query_params,
            headers: serialized.headers,
            body: serialized.body,
            no_auth: false,
        };
        ctx.request(
            Effect::Send {
                seq,
                project: self.bundle.project.clone(),
                endpoint: self.endpoint.clone(),
                args,
            },
        );
        Action::Push(
            Screen::Response(
                ResponseView::loading(
                    seq,
                    share(&self.bundle),
                    self.endpoint.method.clone(),
                    self.endpoint.path.clone(),
                ),
            ),
        )
    }

    fn handle_editor_key(&mut self, code: KeyCode, ctx: &mut AppCtx)
        requires
            old(self)@.wf(),
            old(self)@.editor is Some,
            old(ctx)@.wf(),
        ensures
            (final(self)@, final(ctx)@) == editing_step(old(self)@, code, old(ctx)@),
            final(self)@.wf(),
            final(ctx)@.wf(),
    {
        let ghost before = self@;
        let (row, mut text) = match self.editor.take() {
            Some(editing) => editing,
            None => {
                return;
            },
        };
        match code {
            KeyCode::Esc => {},
            KeyCode::Enter => {
                proof {
                    match typed(before.form.rows[row as int], text@) {
                        Ok(state) => {
                            law_editing_is_steady(
                                before.form,
                                row as int,
                                RowShape { state, ..before.form.rows[row as int] },
                            );
                        },
                        Err(_) => {},
                    }
                }
                match self.form.commit_text(row, text.as_str()) {
                    Ok(()) => {},
                    Err(message) => {
                        ctx.set_status(message);
                        self.editor = Some((row, text));
                    },
                }
            },
            KeyCode::Backspace => {
                self.editor = Some((row, without_last(text.as_str())));
            },
            KeyCode::Char(c) => {
                text.push(c);
                self.editor = Some((row, text));
            },
            _ => {
                self.editor = Some((row, text));
            },
        }
    }

    fn toggle(&mut self, i: usize)
        requires
            old(self)@.wf(),
            i < old(self)@.form.rows.len(),
        ensures
            final(self)@ == with_form(old(self)@, toggled_form(old(self)@.form, i as int)),
            final(self)@.wf(),
    {
        let ghost before = self@;
        assert(before.form.rows[i as int] == self.form.rows@[i as int]@);
        let empty = match &self.form.rows[i].kind {
            RowKind::Enum(values) => values.len() == 0,
            _ => false,
        };
        if empty {
            return;
        }
        proof {
            law_editing_is_steady(before.form, i as int, toggled(before.form.rows[i as int]));
        }
        self.form.toggle(i);
    }

    fn handle_row_key(&mut self, code: KeyCode, ctx: &mut AppCtx)
        requires
            old(self)@.wf(),
            old(self)@.editor is None,
            old(self)@.form.rows.len() > 0,
            acts_on_row(code),
            old(ctx)@.wf(),
        ensures
            (final(self)@, final(ctx)@) == row_step(old(self)@, code, old(ctx)@),
            final(self)@.wf(),
            final(ctx)@.wf(),
    {
        let ghost before = self@;
        let i: usize = self.form.cursor;
        let ghost row = before.form.rows[i as int];
        assert(row == self.form.rows@[i as int]@);
        match code {
            KeyCode::Enter => match self.form.rows[i].kind {
                RowKind::Scalar | RowKind::RawJson => {
                    let text = self.form.text_of(i);
                    self.editor = Some((i, text));
                },
                RowKind::SectionHeader | RowKind::Const => {},
                _ => self.toggle(i),
            },
            KeyCode::Char(' ') | KeyCode::Tab => self.toggle(i),
            KeyCode::Left | KeyCode::Right => {
                let steps = match self.form.rows[i].kind {
                    RowKind::Enum(_) => true,
                    _ => false,
                };
                if steps {
                    self.toggle(i);
                }
            },
            // Shift+X arrives as 'X' (modifier flags vary by terminal).
            KeyCode::Char('X') => {
                proof {
                    law_editing_is_steady(before.form, i as int, cycled(row));
                }
                match self.form.cycle_exclusion(i) {
                    Some(hint) => ctx.set_status(owned(hint)),
                    None => {},
                }
            },
            KeyCode::Char('x') => {
                proof {
                    law_editing_is_steady(before.form, i as int, reincluded(row));
                }
                self.form.reinclude(i);
            },
            KeyCode::Char('a') => {
                if self.form.rows[i].kind.is_array_header() {
                    proof {
                        law_appending_is_steady(before.form, i as int);
                    }
                    self.form.array_append(i);
                }
            },
            _ => {
                proof {
                    law_deleting_is_steady(before.form, i as int);
                }
                self.form.array_delete(i);
            },
        }
    }

    pub fn handle_key(&mut self, key: KeyEvent, ctx: &mut AppCtx) -> (r: Action)
        requires
            old(self)@.wf(),
            old(ctx)@.wf(),
            old(ctx)@.request_seq < u64::MAX,
        ensures
            (final(self)@, r@, final(ctx)@) == key_step(old(self)@, key, old(ctx)@),
            final(self)@.wf(),
            super::action_wf(r@),
            final(ctx)@.wf(),
    {
        if self.editor.is_some() {
            self.handle_editor_key(key.code, ctx);
            return Action::Stay;
        }
        if key.control && key.code == KeyCode::Char('s') {
            return self.submit(ctx);
        }
        let ghost form = self@.form;
        match key.code {
            KeyCode::Up | KeyCode::Char('k') => {
                proof {
                    law_moving_is_steady(form, -1);
                }
                self.form.move_cursor(-1);
            },
            KeyCode::Down | KeyCode::Char('j') => {
                proof {
                    law_moving_is_steady(form, 1);
                }
                self.form.move_cursor(1);
            },
            KeyCode::Enter
            | KeyCode::Char(' ')
            | KeyCode::Tab
            | KeyCode::Left
            | KeyCode::Right
            | KeyCode::Char('X')
            | KeyCode::Char('x')
            | KeyCode::Char('a')
            | KeyCode::Char('d') => {
                if self.form.rows.len() > 0 {
                    self.handle_row_key(key.code, ctx);
                }
            },
            KeyCode::Char('i') => {
                self.show_docs = !self.show_docs;
            },
            KeyCode::Char('e') => {
                if self.endpoint.body.is_some() {
                    return Action::RunEditor { seed: self.editor_seed() };
                }
            },
            KeyCode::Esc => {
                return Action::Pop;
            },
            _ => {},
        }
        Action::Stay
    }

    /// Seed JSON for external editing: current body, leniently serialized.
    fn editor_seed(&self) -> (r: String)
        ensures
            r@ == indented(editable_body(self@.form), Seq::empty()),
    {
        let body = self.form.body_for_editing();
        body.to_text_pretty()
    }

    pub fn handle_editor_result(&mut self, text: Option<String>, ctx: &mut AppCtx)
        requires
            old(self)@.wf(),
            old(self)@.editor is None,
            old(ctx)@.wf(),
        ensures
            (final(self)@, final(ctx)@) == editor_step(old(self)@, text.deep_view(), old(ctx)@),
            final(self)@.wf(),
            final(ctx)@.wf(),
    {
        if let Some(text) = text {
            match JsonValue::parse(text.as_str()) {
                Ok(value) => {
                    proof {
                        law_hydrating_is_steady(self@.form, self@.endpoint, value@);
                    }
                    self.form.hydrate_body(&self.endpoint, &value);
                    ctx.set_status(owned("body updated from editor"));
                },
                Err(message) => ctx.show_error(
                    cat("editor result is not valid JSON: ", message.as_str()),
                ),
            }
        }
    }

    // ------------------------------------------------------------ drawing

    fn visible(&self) -> (r: Vec<usize>)
        ensures
            r@.len() == shown_rows(self@.form.rows, 0).len(),
            forall|k: int|
                0 <= k < r@.len() ==> #[trigger] r@[k] == shown_rows(self@.form.rows, 0)[k] && r@[k]
                    < self@.form.rows.len(),
    {
        let mask = self.form.hidden_mask();
        let ghost all = self@.form.rows;
        let ghost goal = shown_rows(all, 0);
        let mut out: Vec<usize> = Vec::new();
        let ghost mut done: Seq<int> = Seq::empty();
        assert(done + shown_rows(all, 0) =~= goal);
        for i in 0..mask.len()
            invariant
                mask@.len() == all.len(),
                forall|k: int| 0 <= k < mask@.len() ==> #[trigger] mask@[k] == hidden(all, k),
                goal == shown_rows(all, 0),
                done + shown_rows(all, i as int) == goal,
                out@.len() == done.len(),
                forall|k: int|
                    0 <= k < out@.len() ==> #[trigger] out@[k] == done[k] && out@[k] < all.len(),
        {
            if !mask[i] {
                out.push(i);
                proof {
                    let before = done;
                    done = before.push(i as int);
                    assert(done + shown_rows(all, i + 1) =~= before + (seq![i as int]
                        + shown_rows(all, i + 1)));
                }
            }
        }
        assert(done =~= goal);
        out
    }

    fn cursor_position(&self, list: &Vec<usize>) -> (r: usize)
        requires
            list@.len() == shown_rows(self@.form.rows, 0).len(),
            forall|k: int|
                0 <= k < list@.len() ==> #[trigger] list@[k] == shown_rows(self@.form.rows, 0)[k],
        ensures
            r == cursor_place(self@.form),
            r == 0 || r < list@.len(),
    {
        let ghost goal = shown_rows(self@.form.rows, 0);
        for k in 0..list.len()
            invariant
                goal == shown_rows(self@.form.rows, 0),
                list@.len() == goal.len(),
                forall|k: int| 0 <= k < list@.len() ==> #[trigger] list@[k] == goal[k],
                place_of(goal, self@.form.cursor as int, 0) == place_of(
                    goal,
                    self@.form.cursor as int,
                    k as int,
                ),
        {
            if list[k] == self.form.cursor {
                return k;
            }
        }
        0
    }

    fn label_column(&self, list: &Vec<usize>) -> (r: usize)
        requires
            list@.len() == shown_rows(self@.form.rows, 0).len(),
            forall|k: int|
                0 <= k < list@.len() ==> #[trigger] list@[k] == shown_rows(self@.form.rows, 0)[k]
                    && list@[k] < self@.form.rows.len(),
        ensures
            r == label_width(self@.form.rows),
            16 <= r <= 34,
    {
        let ghost rows = self@.form.rows;
        let ghost goal = shown_rows(rows, 0);
        let mut room: usize = 16;
        let mut k: usize = list.len();
        while k > 0
            invariant
                rows == self@.form.rows,
                goal == shown_rows(rows, 0),
                k <= list@.len(),
                list@.len() == goal.len(),
                forall|k: int|
                    0 <= k < list@.len() ==> #[trigger] list@[k] == goal[k] && list@[k]
                        < rows.len(),
                16 <= room <= 34,
                room == (if widest(rows, goal, k as int) < 16 {
                    16
                } else if widest(rows, goal, k as int) > 34 {
                    34
                } else {
                    widest(rows, goal, k as int)
                }),
            decreases k,
        {
            k -= 1;
            let row = &self.form.rows[list[k]];
            assert(rows[goal[k as int]] == row@);
            let bytes: usize = byte_len(row.label.as_str());
            let wanted: usize = if bytes >= 34 {
                34
            } else {
                row.depth as usize * 2 + bytes + 1
            };
            if wanted > 34 {
                room = 34;
            } else if wanted > room {
                room = wanted;
            }
        }
        room
    }

    fn array_len(&self, header: usize) -> (r: String)
        requires
            header < self@.form.rows.len(),
        ensures
            r@ == items_text(children(self@.form.rows, header as int).len()),
    {
        let count: usize = self.form.item_count(header);
        let number = show(count as u64);
        cat3(
            number.as_str(),
            " item",
            if count == 1 {
                ""
            } else {
                "s"
            },
        )
    }

    fn render_value(&self, i: usize) -> (r: Span)
        requires
            i < self@.form.rows.len(),
        ensures
            r@ == value_span(self@.form.rows, i as int),
    {
        let row = &self.form.rows[i];
        assert(self@.form.rows[i as int] == row@);
        match &row.state {
            RowState::Excluded => Span::styled(owned("⊘ excluded"), theme::dim().crossed_out()),
            RowState::Null => Span::styled(owned("∅ null"), Style::on(MAGENTA).italic()),
            RowState::Empty => Span::styled(owned("‹empty›"), theme::dim().italic()),
            RowState::Filled(value) => match &row.kind {
                RowKind::ObjectHeader => Span::styled(
                    owned(
                        if row.collapsed {
                            "{ … } collapsed"
                        } else {
                            "{"
                        },
                    ),
                    Style::on(CYAN),
                ),
                RowKind::ArrayHeader => {
                    let count = self.array_len(i);
                    Span::styled(cat3("[ ", count.as_str(), " ]"), Style::on(CYAN))
                },
                RowKind::Enum(_) => {
                    let text = text_of_value(value);
                    Span::styled(cat3("◂ ", text.as_str(), " ▸"), Style::on(CYAN))
                },
                RowKind::Const => {
                    let text = text_of_value(value);
                    Span::styled(cat(text.as_str(), " ⚷ fixed"), theme::dim())
                },
                _ => Span::styled(text_of_value(value), value_style(value)),
            },
        }
    }

    fn render_row(&self, i: usize, label_width: usize, width: u16) -> (r: Line)
        requires
            i < self@.form.rows.len(),
            label_width <= 34,
        ensures
            r@ == row_spans(
                self@.form,
                self@.editor,
                i as int,
                label_width as nat,
                width as nat,
            ),
    {
        let row = &self.form.rows[i];
        assert(self@.form.rows[i as int] == row@);
        let is_cursor = i == self.form.cursor;
        if row.kind.is_section_header() {
            let label = cat3("╴", row.label.as_str(), "╶");
            let bytes: usize = byte_len(label.as_str());
            let limit: usize = width as usize;
            let fill: usize = if bytes < limit && bytes + 3 < limit {
                limit - bytes - 3
            } else {
                0
            };
            let line = Line::new().with(Span::styled(owned("──"), Style::on(SEL_BG))).with(
                Span::styled(label, bold(accent())),
            ).with(Span::styled(repeat("─", fill), Style::on(SEL_BG)));
            assert(line@ =~= heading_spans(row@.label, width as nat));
            return line;
        }
        let indent = repeat("  ", row.depth as usize);
        let name = cat(indent.as_str(), row.label.as_str());
        let used: usize = chars_of(name.as_str()).len();
        let gap: usize = if used < label_width && used + 1 < label_width {
            label_width - used - 1 + 2
        } else {
            2
        };
        let line = Line::new().with(
            if is_cursor {
                Span::styled(owned("▌ "), accent())
            } else {
                Span::raw("  ")
            },
        ).with(
            Span::styled(
                name,
                if is_cursor {
                    bold(theme::text())
                } else {
                    soft()
                },
            ),
        ).with(
            Span::styled(
                owned(
                    if row.required {
                        "*"
                    } else {
                        " "
                    },
                ),
                Style::on(RED),
            ),
        ).with(Span::raw(repeat(" ", gap).as_str()));
        assert(line@ =~= label_spans(row@, is_cursor, label_width as nat));
        let ghost head = line@;
        // The inline editor takes over the value cell.
        if let Some((edit_row, text)) = &self.editor {
            if *edit_row == i {
                let r = line.with(Span::styled(cat(text.as_str(), "▏"), Style::on(YELLOW)));
                assert(r@ =~= head + seq![span(text@ + "▏"@, colored(YELLOW))]);
                return r;
            }
        }
        let r = line.with(self.render_value(i)).with(
            Span::styled(cat("  ", row.kind_label.as_str()), theme::dim()),
        );
        assert(r@ =~= head + seq![
            value_span(self@.form.rows, i as int),
            span("  "@ + row@.kind_label, colored(DIM)),
        ]);
        r
    }

    fn info_line(&self, i: usize) -> (r: Line)
        requires
            i < self@.form.rows.len(),
        ensures
            r@ == info_spans(self@.form.rows[i as int]),
    {
        let row = &self.form.rows[i];
        assert(self@.form.rows[i as int] == row@);
        let mut line = Line::new().with(
            Span::styled(cat3(" ", row.label.as_str(), " "), bold(theme::text())),
        ).with(Span::styled(cat3("· ", row.kind_label.as_str(), " "), theme::dim()));
        if row.required {
            line = line.with(Span::styled(owned("· required "), Style::on(RED)));
        }
        if row.nullable {
            line = line.with(Span::styled(owned("· nullable "), Style::on(MAGENTA)));
        }
        if let Some(description) = &row.description {
            line = line.with(Span::styled(cat("— ", description.as_str()), soft()));
        }
        assert(line@ =~= info_spans(row@));
        line
    }

    /// What the screen shows on `height` lines of `width` columns; the scroll
    /// position follows the cursor.
    pub fn draw(&mut self, width: u16, height: u16) -> (r: Drawing)
        requires
            old(self)@.wf(),
        ensures
            final(self)@ == (RequestFormShape {
                scroll: scrolled(
                    old(self)@.scroll,
                    cursor_place(old(self)@.form),
                    height as nat,
                ),
                ..old(self)@
            }),
            final(self)@.wf(),
            r@ == drawn(final(self)@, width as nat, height as nat),
    {
        let list = self.visible();
        let at = self.cursor_position(&list);
        let room = self.label_column(&list);
        let limit: usize = height as usize;
        // Keep cursor in view.
        if at < self.scroll {
            self.scroll = at;
        } else if limit > 0 && at - self.scroll >= limit {
            self.scroll = at - (limit - 1);
        }
        let ghost goal = shown_rows(self@.form.rows, 0);
        let ghost expected = row_lines(self@, width as nat, height as nat);
        let total: usize = list.len();
        let left: usize = if total > self.scroll {
            total - self.scroll
        } else {
            0
        };
        let count: usize = if left < limit {
            left
        } else {
            limit
        };
        let mut lines: Vec<Line> = Vec::new();
        for k in 0..count
            invariant
                goal == shown_rows(self@.form.rows, 0),
                list@.len() == goal.len(),
                forall|k: int|
                    0 <= k < list@.len() ==> #[trigger] list@[k] == goal[k] && list@[k]
                        < self@.form.rows.len(),
                room == label_width(self@.form.rows),
                room <= 34,
                expected == row_lines(self@, width as nat, height as nat),
                expected.len() == count,
                total == list@.len(),
                count > 0 ==> self.scroll + count <= total,
                lines@.len() == k,
                forall|j: int| 0 <= j < k ==> (#[trigger] lines@[j])@ == expected[j],
        {
            let i: usize = list[self.scroll + k];
            assert(i == goal[self.scroll + k]);
            lines.push(self.render_row(i, room, width));
        }
        assert(lines.deep_view() =~= expected);
        let mut info: Vec<Line> = Vec::new();
        if self.form.cursor < self.form.rows.len() {
            info.push(Line::of(repeat("─", width as usize), Style::on(SEL_BG)));
            info.push(self.info_line(self.form.cursor));
        }
        assert(info.deep_view() =~= drawn(self@, width as nat, height as nat).info);
        let docs = if self.show_docs {
            endpoint_docs(&self.endpoint)
        } else {
            let none: Vec<Line> = Vec::new();
            assert(none.deep_view() =~= Seq::empty());
            none
        };
        Drawing { bar: None, body: Body::Text { lines, scroll: 0 }, info, docs }
    }
}

// ---------------------------------------------------------------- laws

/// A form that is blocked sends nothing and says why; the cursor goes to the
/// row in question.
pub proof fn law_blocked_form_sends_nothing(s: RequestFormShape, ctx: CtxShape)
    requires
        s.form.sent() is Err,
    ensures
        submit_step(s, ctx).1 is Stay,
        submit_step(s, ctx).2.effects == ctx.effects,
        submit_step(s, ctx).2.status is Some,
        submit_step(s, ctx).0.form.cursor < s.form.rows.len(),
{
    law_blocked_row_is_on_the_form(s.form);
}

/// The view that waits for an answer waits for the one to the request just sent.
pub proof fn law_view_waits_for_its_request(s: RequestFormShape, ctx: CtxShape)
    requires
        s.form.sent() is Ok,
        ctx.request_seq < u64::MAX,
    ensures
        submit_step(s, ctx).1 matches ActionShape::Push(ScreenShape::Response(view)) && submit_step(
            s,
            ctx,
        ).2.effects.last() matches EffectShape::Send { seq, .. } && seq == view.seq,
{
}

/// The cursor stays in view.
pub proof fn law_cursor_is_in_view(scroll: nat, at: nat, height: nat)
    requires
        height > 0,
    ensures
        scrolled(scroll, at as int, height) <= at < scrolled(scroll, at as int, height) + height,
{
}

/// While no row is being edited, `i` shows the endpoint's docs on the form, a
/// second `i` hides them, and nothing else changes.
pub proof fn law_docs_are_toggled(
    s: RequestFormShape,
    key: KeyEvent,
    ctx: CtxShape,
    width: nat,
    height: nat,
)
    requires
        s.editor is None,
        key.code == KeyCode::Char('i'),
    ensures
        ({
            let (once, action, after) = key_step(s, key, ctx);
            let (twice, again, last) = key_step(once, key, after);
            &&& action is Stay && again is Stay
            &&& after == ctx && last == ctx
            &&& once == (RequestFormShape { show_docs: !s.show_docs, ..s })
            &&& once.form.rows == s.form.rows
            &&& twice == s
            &&& drawn(once, width, height) == (DrawingShape {
                docs: if s.show_docs {
                    Seq::empty()
                } else {
                    docs_lines(s.endpoint)
                },
                ..drawn(s, width, height)
            })
            &&& drawn(twice, width, height) == drawn(s, width, height)
        }),
{
    let once = key_step(s, key, ctx).0;
    assert(row_lines(once, width, height) =~= row_lines(s, width, height));
}

} // verus!
