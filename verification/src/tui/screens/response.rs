//! Response viewer: status, latency, headers (toggle), pretty body, and
//! FastAPI 422 detail rendering. `r` pops back to the form (state intact).

use super::{only, Action, ActionShape, Body, BodyShape, Drawing, DrawingShape, KeyCode, KeyEvent};
use crate::config::{Framework, ProjectConfig};
use crate::http::response::{body_text, ApiResponse, ApiResponseShape};
use crate::names::entry;
use crate::spec::adapter::{adapter_for, fastapi_lines, FrameworkAdapter};
use crate::text::{cat, cat3, decimal, lines, lines_of, owned, show};
use crate::tui::theme::{
    self, bold, colored, method_badge, method_chip, soft, span, status_badge, status_chip,
    unstyled, Line, Span, SpanShape, Style, CYAN, DIM, FG, FG_SOFT, RED, YELLOW,
};
use crate::tui::widgets::{json_lines, json_spans, loading_line, loading_spans};
use crate::tui::{AppCtx, AppMsg, AppMsgShape, BundleShape, CtxShape, SpecBundle};
use std::sync::Arc;
use vstd::prelude::*;
use vstd::string::*;

verus! {

/// How far the request is.
#[derive(Debug)]
pub enum State {
    Loading,
    Done(ApiResponse),
    Failed(String),
}

#[derive(Debug)]
pub struct ResponseView {
    pub seq: u64,
    pub bundle: Arc<SpecBundle>,
    pub method: String,
    pub path: String,
    pub state: State,
    pub scroll: u16,
    pub show_headers: bool,
}

// ---------------------------------------------------------------- model

pub enum ProgressShape {
    Loading,
    Done(ApiResponseShape),
    Failed(Seq<char>),
}

pub struct ResponseViewShape {
    pub seq: u64,
    pub bundle: BundleShape,
    pub method: Seq<char>,
    pub path: Seq<char>,
    pub state: ProgressShape,
    pub scroll: u16,
    pub show_headers: bool,
}

impl View for State {
    type V = ProgressShape;

    open spec fn view(&self) -> ProgressShape {
        match self {
            State::Loading => ProgressShape::Loading,
            State::Done(response) => ProgressShape::Done(response@),
            State::Failed(message) => ProgressShape::Failed(message@),
        }
    }
}

impl View for ResponseView {
    type V = ResponseViewShape;

    open spec fn view(&self) -> ResponseViewShape {
        ResponseViewShape {
            seq: self.seq,
            bundle: self.bundle@,
            method: self.method@,
            path: self.path@,
            state: self.state@,
            scroll: self.scroll,
            show_headers: self.show_headers,
        }
    }
}

pub open spec fn title_text(s: ResponseViewShape) -> Seq<char> {
    "projects ▸ "@ + s.bundle.project + " ▸ "@ + s.method + " "@ + s.path + " ▸ response"@
}

pub open spec fn hints(s: ResponseViewShape) -> Seq<(Seq<char>, Seq<char>)> {
    if s.state is Loading {
        seq![("esc"@, "cancel"@)]
    } else {
        seq![
            ("↑↓"@, "scroll"@),
            ("h"@, "headers"@),
            ("r"@, "edit & resend"@),
            ("esc"@, "back"@),
        ]
    }
}

/// A scroll position moved up, stopping at the top.
pub open spec fn scrolled_up(scroll: u16, by: u16) -> u16 {
    if scroll >= by {
        (scroll - by) as u16
    } else {
        0
    }
}

/// A scroll position moved down, stopping at the last that can be held.
pub open spec fn scrolled_down(scroll: u16, by: u16) -> u16 {
    if scroll + by <= u16::MAX {
        (scroll + by) as u16
    } else {
        u16::MAX
    }
}

pub open spec fn key_step(s: ResponseViewShape, key: KeyEvent) -> (
    ResponseViewShape,
    ActionShape,
) {
    let none = ActionShape::Stay;
    match key.code {
        KeyCode::Esc => (s, ActionShape::Pop),
        // The form below holds its state.
        KeyCode::Char('q') => (s, ActionShape::Pop),
        KeyCode::Char('r') => (s, ActionShape::Pop),
        KeyCode::Char('h') => (ResponseViewShape { show_headers: !s.show_headers, ..s }, none),
        KeyCode::Up => (ResponseViewShape { scroll: scrolled_up(s.scroll, 1), ..s }, none),
        KeyCode::Char('k') => (ResponseViewShape { scroll: scrolled_up(s.scroll, 1), ..s }, none),
        KeyCode::Down => (ResponseViewShape { scroll: scrolled_down(s.scroll, 1), ..s }, none),
        KeyCode::Char('j') => (ResponseViewShape { scroll: scrolled_down(s.scroll, 1), ..s }, none),
        KeyCode::PageUp => (ResponseViewShape { scroll: scrolled_up(s.scroll, 20), ..s }, none),
        KeyCode::PageDown => (ResponseViewShape { scroll: scrolled_down(s.scroll, 20), ..s }, none),
        _ => (s, none),
    }
}

/// Only the answer to this view's own request is taken.
pub open spec fn msg_step(s: ResponseViewShape, msg: AppMsgShape) -> ResponseViewShape {
    match msg {
        AppMsgShape::Response { request_seq, result } => if request_seq == s.seq {
            ResponseViewShape {
                state: match result {
                    Ok(response) => ProgressShape::Done(response),
                    Err(message) => ProgressShape::Failed(message),
                },
                ..s
            }
        } else {
            s
        },
        _ => s,
    }
}

pub open spec fn blank_line() -> Seq<SpanShape> {
    seq![span(""@, unstyled())]
}

pub open spec fn failed_lines(message: Seq<char>) -> Seq<Seq<SpanShape>> {
    seq![
        blank_line(),
        seq![span(" ✗ request failed"@, Style { bold: true, ..colored(RED) })],
        blank_line(),
        seq![span("   "@ + message, colored(FG_SOFT))],
    ]
}

pub open spec fn head_spans(r: ApiResponseShape) -> Seq<SpanShape> {
    seq![
        status_chip(r.status),
        span(" "@, unstyled()),
        method_chip(r.method),
        span(" "@ + r.url, Style { bold: true, ..colored(FG) }),
        span("  ⏱ "@ + decimal(r.latency_ms as nat) + " ms"@, colored(DIM)),
    ]
}

/// What the framework makes of an error, one line per problem.
pub open spec fn problem_lines(r: ApiResponseShape, project: Option<ProjectConfig>) -> Seq<
    Seq<SpanShape>,
> {
    if r.status >= 400 && project is Some {
        match fastapi_lines(r.status as nat, r.body) {
            Some(problems) => seq![blank_line()] + Seq::new(
                problems.len(),
                |i: int|
                    seq![span("  ✗ "@, colored(RED)), span(problems[i], colored(YELLOW))],
            ),
            None => Seq::empty(),
        }
    } else {
        Seq::empty()
    }
}

pub open spec fn header_lines(r: ApiResponseShape, show: bool) -> Seq<Seq<SpanShape>> {
    if show {
        seq![blank_line(), seq![span("  ── headers ──"@, colored(DIM))]] + Seq::new(
            r.headers.len(),
            |i: int|
                seq![
                    span("  "@ + r.headers[i].0, colored(CYAN)),
                    span(": "@, colored(DIM)),
                    span(r.headers[i].1, colored(FG_SOFT)),
                ],
        )
    } else {
        Seq::empty()
    }
}

pub open spec fn body_lines(r: ApiResponseShape) -> Seq<Seq<SpanShape>> {
    let broken = lines_of(body_text(r));
    Seq::new(
        broken.len(),
        |i: int|
            if r.body_is_json {
                json_spans(broken[i])
            } else {
                seq![span(broken[i], colored(FG_SOFT))]
            },
    )
}

/// The lines of a response.
pub open spec fn response_spans(
    r: ApiResponseShape,
    project: Option<ProjectConfig>,
    show_headers: bool,
) -> Seq<Seq<SpanShape>> {
    seq![head_spans(r)] + problem_lines(r, project) + header_lines(r, show_headers) + seq![
        blank_line(),
    ] + body_lines(r)
}

/// What the screen shows.
pub open spec fn drawn(s: ResponseViewShape, ctx: CtxShape) -> DrawingShape {
    only(
        BodyShape::Text {
            lines: match s.state {
                ProgressShape::Loading => seq![
                    blank_line(),
                    loading_spans("response"@, ctx.frame),
                ],
                ProgressShape::Failed(message) => failed_lines(message),
                ProgressShape::Done(response) => response_spans(
                    response,
                    entry(ctx.config.projects@, s.bundle.project),
                    s.show_headers,
                ),
            },
            scroll: s.scroll,
        },
    )
}

// ---------------------------------------------------------------- operations

fn up(scroll: u16, by: u16) -> (r: u16)
    ensures
        r == scrolled_up(scroll, by),
{
    if scroll >= by {
        scroll - by
    } else {
        0
    }
}

fn down(scroll: u16, by: u16) -> (r: u16)
    ensures
        r == scrolled_down(scroll, by),
{
    if scroll <= u16::MAX - by {
        scroll + by
    } else {
        u16::MAX
    }
}

fn problems_of(response: &ApiResponse, framework: Framework) -> (r: Vec<Line>)
    requires
        response@.status >= 400,
    ensures
        forall|p: ProjectConfig|
            r.deep_view() == #[trigger] problem_lines(response@, Some(p)),
{
    let adapter = adapter_for(framework);
    let mut out: Vec<Line> = Vec::new();
    match adapter.render_error_lines(response.status, &response.body) {
        Some(problems) => {
            let ghost all = problems.deep_view();
            let ghost shown = Seq::new(
                all.len(),
                |i: int| seq![span("  ✗ "@, colored(RED)), span(all[i], colored(YELLOW))],
            );
            out.push(Line::blank());
            for i in 0..problems.len()
                invariant
                    all == problems.deep_view(),
                    shown == Seq::new(
                        all.len(),
                        |i: int|
                            seq![span("  ✗ "@, colored(RED)), span(all[i], colored(YELLOW))],
                    ),
                    out@.len() == i + 1,
                    out@[0]@ == blank_line(),
                    forall|k: int| 1 <= k <= i ==> (#[trigger] out@[k])@ == shown[k - 1],
            {
                assert(all[i as int] == problems@[i as int]@);
                let line = Line::new().with(Span::styled(owned("  ✗ "), Style::on(RED))).with(
                    Span::styled(problems[i].clone(), Style::on(YELLOW)),
                );
                assert(line@ =~= shown[i as int]);
                out.push(line);
            }
            assert(out.deep_view() =~= seq![blank_line()] + shown);
        },
        None => {
            assert(out.deep_view() =~= Seq::empty());
        },
    }
    out
}

fn headers_of(response: &ApiResponse) -> (r: Vec<Line>)
    ensures
        r.deep_view() == header_lines(response@, true),
{
    let ghost all = response@.headers;
    let ghost shown = Seq::new(
        all.len(),
        |i: int|
            seq![
                span("  "@ + all[i].0, colored(CYAN)),
                span(": "@, colored(DIM)),
                span(all[i].1, colored(FG_SOFT)),
            ],
    );
    let mut out: Vec<Line> = Vec::new();
    out.push(Line::blank());
    out.push(Line::of(owned("  ── headers ──"), theme::dim()));
    for i in 0..response.headers.len()
        invariant
            all == response@.headers,
            shown == Seq::new(
                all.len(),
                |i: int|
                    seq![
                        span("  "@ + all[i].0, colored(CYAN)),
                        span(": "@, colored(DIM)),
                        span(all[i].1, colored(FG_SOFT)),
                    ],
            ),
            out@.len() == i + 2,
            out@[0]@ == blank_line(),
            out@[1]@ == seq![span("  ── headers ──"@, colored(DIM))],
            forall|k: int| 2 <= k < i + 2 ==> (#[trigger] out@[k])@ == shown[k - 2],
    {
        let (name, value) = &response.headers[i];
        assert(all[i as int] == (name@, value@));
        let line = Line::new().with(
            Span::styled(cat("  ", name.as_str()), Style::on(CYAN)),
        ).with(Span::styled(owned(": "), theme::dim())).with(
            Span::styled(value.clone(), soft()),
        );
        assert(line@ =~= shown[i as int]);
        out.push(line);
    }
    assert(out.deep_view() =~= seq![
        blank_line(),
        seq![span("  ── headers ──"@, colored(DIM))],
    ] + shown);
    out
}

fn body_of(response: &ApiResponse) -> (r: Vec<Line>)
    ensures
        r.deep_view() == body_lines(response@),
{
    let text = response.body_text();
    if response.body_is_json {
        let r = json_lines(text.as_str());
        assert(r.deep_view() =~= body_lines(response@));
        return r;
    }
    let broken = lines(text.as_str());
    let ghost all = broken.deep_view();
    let mut out: Vec<Line> = Vec::new();
    for i in 0..broken.len()
        invariant
            all == broken.deep_view(),
            out@.len() == i,
            forall|k: int|
                0 <= k < i ==> (#[trigger] out@[k])@ == seq![span(all[k], colored(FG_SOFT))],
    {
        assert(all[i as int] == broken@[i as int]@);
        out.push(Line::of(broken[i].clone(), soft()));
    }
    assert(out.deep_view() =~= body_lines(response@));
    out
}

impl ResponseView {
    pub fn loading(seq: u64, bundle: Arc<SpecBundle>, method: String, path: String) -> (r:
        ResponseView)
        ensures
            r@ == (ResponseViewShape {
                seq,
                bundle: bundle@,
                method: method@,
                path: path@,
                state: ProgressShape::Loading,
                scroll: 0,
                show_headers: false,
            }),
    {
        ResponseView {
            seq,
            bundle,
            method,
            path,
            state: State::Loading,
            scroll: 0,
            show_headers: false,
        }
    }

    pub fn title(&self) -> (r: String)
        ensures
            r@ == title_text(self@),
    {
        let mut out = cat3("projects ▸ ", self.bundle.project.as_str(), " ▸ ");
        out.append(self.method.as_str());
        out.append(" ");
        out.append(self.path.as_str());
        out.append(" ▸ response");
        out
    }

    pub fn key_hints(&self) -> (r: Vec<(&'static str, &'static str)>)
        ensures
            r.deep_view() == hints(self@),
    {
        let r = match self.state {
            State::Loading => vec![("esc", "cancel")],
            _ => vec![
                ("↑↓", "scroll"),
                ("h", "headers"),
                ("r", "edit & resend"),
                ("esc", "back"),
            ],
        };
        assert(r.deep_view() =~= hints(self@));
        r
    }

    pub fn handle_key(&mut self, key: KeyEvent) -> (r: Action)
        ensures
            (final(self)@, r@) == key_step(old(self)@, key),
    {
        match key.code {
            KeyCode::Esc | KeyCode::Char('q') | KeyCode::Char('r') => {
                return Action::Pop;
            },
            KeyCode::Char('h') => {
                self.show_headers = !self.show_headers;
            },
            KeyCode::Up | KeyCode::Char('k') => {
                self.scroll = up(self.scroll, 1);
            },
            KeyCode::Down | KeyCode::Char('j') => {
                self.scroll = down(self.scroll, 1);
            },
            KeyCode::PageUp => {
                self.scroll = up(self.scroll, 20);
            },
            KeyCode::PageDown => {
                self.scroll = down(self.scroll, 20);
            },
            _ => {},
        }
        Action::Stay
    }

    pub fn handle_msg(&mut self, msg: AppMsg) -> (r: Action)
        ensures
            final(self)@ == msg_step(old(self)@, msg@),
            r@ == ActionShape::Stay,
    {
        match msg {
            AppMsg::Response { request_seq, result } => {
                if request_seq == self.seq {
                    self.state = match result {
                        Ok(response) => State::Done(response),
                        Err(message) => State::Failed(message),
                    };
                }
            },
            _ => {},
        }
        Action::Stay
    }

    /// The lines of a response.
    pub fn render_response(&self, response: &ApiResponse, ctx: &AppCtx) -> (r: Vec<Line>)
        ensures
            r.deep_view() == response_spans(
                response@,
                entry(ctx@.config.projects@, self@.bundle.project),
                self.show_headers,
            ),
    {
        let ghost project = entry(ctx@.config.projects@, self@.bundle.project);
        let mut out: Vec<Line> = Vec::new();
        let latency = show(response.latency_ms);
        let head = Line::new().with(status_badge(response.status)).with(Span::raw(" ")).with(
            method_badge(response.method.as_str()),
        ).with(Span::styled(cat(" ", response.url.as_str()), bold(theme::text()))).with(
            Span::styled(cat3("  ⏱ ", latency.as_str(), " ms"), theme::dim()),
        );
        assert(head@ =~= head_spans(response@));
        out.push(head);
        assert(out.deep_view() =~= seq![head_spans(response@)]);
        let ghost first = out.deep_view();
        if response.status >= 400 {
            match ctx.config.projects.get(self.bundle.project.as_str()) {
                Some(found) => {
                    let mut problems = problems_of(response, found.framework);
                    let ghost added = problems.deep_view();
                    assert(added == problem_lines(response@, Some(*found)));
                    out.append(&mut problems);
                    assert(out.deep_view() =~= first + added);
                },
                None => {},
            }
        }
        assert(out.deep_view() =~= first + problem_lines(response@, project));
        let ghost second = out.deep_view();
        if self.show_headers {
            let mut headers = headers_of(response);
            let ghost added = headers.deep_view();
            out.append(&mut headers);
            assert(out.deep_view() =~= second + added);
        }
        assert(out.deep_view() =~= second + header_lines(response@, self.show_headers));
        let ghost third = out.deep_view();
        out.push(Line::blank());
        assert(out.deep_view() =~= third + seq![blank_line()]);
        let ghost fourth = out.deep_view();
        let mut body = body_of(response);
        let ghost added = body.deep_view();
        out.append(&mut body);
        assert(out.deep_view() =~= fourth + added);
        out
    }

    /// What the screen shows.
    pub fn draw(&self, ctx: &AppCtx) -> (r: Drawing)
        ensures
            r@ == drawn(self@, ctx@),
    {
        let shown = match &self.state {
            State::Loading => {
                let mut out: Vec<Line> = Vec::new();
                out.push(Line::blank());
                out.push(loading_line("response", ctx.frame));
                assert(out.deep_view() =~= seq![
                    blank_line(),
                    loading_spans("response"@, ctx@.frame),
                ]);
                out
            },
            State::Failed(message) => {
                let mut out: Vec<Line> = Vec::new();
                out.push(Line::blank());
                out.push(Line::of(owned(" ✗ request failed"), bold(Style::on(RED))));
                out.push(Line::blank());
                out.push(Line::of(cat("   ", message.as_str()), soft()));
                assert(out.deep_view() =~= failed_lines(message@));
                out
            },
            State::Done(response) => self.render_response(response, ctx),
        };
        Drawing::of(Body::Text { lines: shown, scroll: self.scroll })
    }
}

// ---------------------------------------------------------------- laws

/// An answer to another request never shows up in a view.
pub proof fn law_foreign_answers_are_ignored(
    s: ResponseViewShape,
    request_seq: u64,
    result: Result<ApiResponseShape, Seq<char>>,
)
    requires
        request_seq != s.seq,
    ensures
        msg_step(s, AppMsgShape::Response { request_seq, result }) == s,
{
}

} // verus!
