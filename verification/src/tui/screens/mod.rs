//! The screens: each handles keys and results of work in the background, and
//! says what it shows. Navigation is push/pop driven by returned `Action`s.

pub mod endpoints;
pub mod form;
pub mod projects;
pub mod response;
pub mod tags;

use super::theme::{Line, Span, SpanShape, Style};
use super::{AppCtx, AppMsg, AppMsgShape, CtxShape};
use endpoints::{EndpointList, EndpointListShape};
use form::{RequestForm, RequestFormShape};
use projects::{ProjectList, ProjectListShape};
use response::{ResponseView, ResponseViewShape};
use tags::{TagList, TagListShape};
use vstd::prelude::*;

verus! {

/// A key of the keyboard.
#[derive(Debug, Clone, Copy, PartialEq, Eq, Structural)]
pub enum KeyCode {
    Up,
    Down,
    Left,
    Right,
    Enter,
    Esc,
    Backspace,
    Tab,
    PageUp,
    PageDown,
    Char(char),
    Other,
}

/// A key that was pressed.
#[derive(Debug, Clone, Copy, PartialEq, Eq, Structural)]
pub struct KeyEvent {
    pub code: KeyCode,
    /// Whether the control key was held.
    pub control: bool,
}

/// What a screen asks for.
#[derive(Debug)]
pub enum Action {
    /// Nothing: the screen stays.
    Stay,
    Push(Screen),
    Pop,
    Quit,
    /// Suspend the TUI and open $EDITOR on `seed`.
    RunEditor { seed: String },
}

#[derive(Debug)]
pub enum Screen {
    Projects(ProjectList),
    Tags(TagList),
    Endpoints(EndpointList),
    Form(RequestForm),
    Response(ResponseView),
}

/// The main part of what a screen shows.
#[derive(Debug)]
pub enum Body {
    /// Lines of text, from the `scroll`-th on.
    Text { lines: Vec<Line>, scroll: u16 },
    /// A list with a selected item.
    List { items: Vec<Line>, selected: usize, marker: Span, highlight: Style },
}

/// What a screen shows.
#[derive(Debug)]
pub struct Drawing {
    /// A line above everything else.
    pub bar: Option<Line>,
    pub body: Body,
    /// Lines below the body.
    pub info: Vec<Line>,
    /// Lines beside the body.
    pub docs: Vec<Line>,
}

// ---------------------------------------------------------------- model

pub enum ActionShape {
    Stay,
    Push(ScreenShape),
    Pop,
    Quit,
    RunEditor(Seq<char>),
}

pub enum ScreenShape {
    Projects(ProjectListShape),
    Tags(TagListShape),
    Endpoints(EndpointListShape),
    Form(RequestFormShape),
    Response(ResponseViewShape),
}

pub enum BodyShape {
    Text { lines: Seq<Seq<SpanShape>>, scroll: u16 },
    List { items: Seq<Seq<SpanShape>>, selected: nat, marker: SpanShape, highlight: Style },
}

pub struct DrawingShape {
    pub bar: Option<Seq<SpanShape>>,
    pub body: BodyShape,
    pub info: Seq<Seq<SpanShape>>,
    pub docs: Seq<Seq<SpanShape>>,
}

impl View for Action {
    type V = ActionShape;

    open spec fn view(&self) -> ActionShape {
        match self {
            Action::Stay => ActionShape::Stay,
            Action::Push(screen) => ActionShape::Push(screen@),
            Action::Pop => ActionShape::Pop,
            Action::Quit => ActionShape::Quit,
            Action::RunEditor { seed } => ActionShape::RunEditor(seed@),
        }
    }
}

impl View for Screen {
    type V = ScreenShape;

    open spec fn view(&self) -> ScreenShape {
        match self {
            Screen::Projects(s) => ScreenShape::Projects(s@),
            Screen::Tags(s) => ScreenShape::Tags(s@),
            Screen::Endpoints(s) => ScreenShape::Endpoints(s@),
            Screen::Form(s) => ScreenShape::Form(s@),
            Screen::Response(s) => ScreenShape::Response(s@),
        }
    }
}

impl DeepView for Screen {
    type V = ScreenShape;

    open spec fn deep_view(&self) -> ScreenShape {
        self.view()
    }
}

impl View for Body {
    type V = BodyShape;

    open spec fn view(&self) -> BodyShape {
        match self {
            Body::Text { lines, scroll } => BodyShape::Text {
                lines: lines.deep_view(),
                scroll: *scroll,
            },
            Body::List { items, selected, marker, highlight } => BodyShape::List {
                items: items.deep_view(),
                selected: *selected as nat,
                marker: marker@,
                highlight: *highlight,
            },
        }
    }
}

impl View for Drawing {
    type V = DrawingShape;

    open spec fn view(&self) -> DrawingShape {
        DrawingShape {
            bar: self.bar.deep_view(),
            body: self.body@,
            info: self.info.deep_view(),
            docs: self.docs.deep_view(),
        }
    }
}

/// A drawing that is nothing but its body.
pub open spec fn only(body: BodyShape) -> DrawingShape {
    DrawingShape { bar: None, body, info: Seq::empty(), docs: Seq::empty() }
}

/// A selection moved by `delta` within `len` items.
pub open spec fn stepped(selected: nat, len: nat, delta: int) -> nat {
    if len == 0 {
        selected
    } else if selected + delta < 0 {
        0
    } else if selected + delta > len - 1 {
        (len - 1) as nat
    } else {
        (selected + delta) as nat
    }
}

/// Shared list-navigation helper.
pub fn move_selection(selected: &mut usize, len: usize, delta: i64)
    ensures
        *final(selected) == stepped(*old(selected) as nat, len as nat, delta as int),
{
    if len == 0 {
        return;
    }
    let moved: i128 = *selected as i128 + delta as i128;
    let last: i128 = len as i128 - 1;
    if moved < 0 {
        *selected = 0;
    } else if moved > last {
        *selected = len - 1;
    } else {
        *selected = moved as usize;
    }
}

impl Drawing {
    /// A drawing that is nothing but its body.
    pub fn of(body: Body) -> (r: Drawing)
        ensures
            r@ == only(body@),
    {
        let r = Drawing { bar: None, body, info: Vec::new(), docs: Vec::new() };
        assert(r@.info =~= Seq::empty());
        assert(r@.docs =~= Seq::empty());
        r
    }
}

// ---------------------------------------------------------------- screens

impl ScreenShape {
    /// What every operation on a screen relies on and keeps.
    pub open spec fn wf(self) -> bool {
        match self {
            ScreenShape::Projects(_) => true,
            ScreenShape::Tags(s) => s.wf(),
            ScreenShape::Endpoints(s) => s.wf(),
            ScreenShape::Form(s) => s.wf(),
            ScreenShape::Response(_) => true,
        }
    }
}

pub open spec fn action_wf(action: ActionShape) -> bool {
    action matches ActionShape::Push(screen) ==> screen.wf()
}

pub open spec fn title_of(screen: ScreenShape) -> Seq<char> {
    match screen {
        ScreenShape::Projects(s) => "projects"@,
        ScreenShape::Tags(s) => tags::title_text(s),
        ScreenShape::Endpoints(s) => endpoints::title_text(s),
        ScreenShape::Form(s) => form::title_text(s),
        ScreenShape::Response(s) => response::title_text(s),
    }
}

pub open spec fn meta_of(screen: ScreenShape) -> Option<Seq<char>> {
    match screen {
        ScreenShape::Endpoints(s) => Some(endpoints::meta_text(s)),
        ScreenShape::Form(s) => s.endpoint.summary,
        _ => None,
    }
}

pub open spec fn hints_of(screen: ScreenShape) -> Seq<(Seq<char>, Seq<char>)> {
    match screen {
        ScreenShape::Projects(s) => projects::hints(),
        ScreenShape::Tags(s) => tags::hints(),
        ScreenShape::Endpoints(s) => endpoints::hints(s),
        ScreenShape::Form(s) => form::hints(s),
        ScreenShape::Response(s) => response::hints(s),
    }
}

/// What a key does to a screen: the screen after it, what it asks for, and the
/// context after it.
pub open spec fn key_step(screen: ScreenShape, key: KeyEvent, ctx: CtxShape) -> (
    ScreenShape,
    ActionShape,
    CtxShape,
) {
    match screen {
        ScreenShape::Projects(s) => {
            let (after, action, ctx) = projects::key_step(s, key, ctx);
            (ScreenShape::Projects(after), action, ctx)
        },
        ScreenShape::Tags(s) => {
            let (after, action) = tags::key_step(s, key, ctx);
            (ScreenShape::Tags(after), action, ctx)
        },
        ScreenShape::Endpoints(s) => {
            let (after, action) = endpoints::key_step(s, key);
            (ScreenShape::Endpoints(after), action, ctx)
        },
        ScreenShape::Form(s) => {
            let (after, action, ctx) = form::key_step(s, key, ctx);
            (ScreenShape::Form(after), action, ctx)
        },
        ScreenShape::Response(s) => {
            let (after, action) = response::key_step(s, key);
            (ScreenShape::Response(after), action, ctx)
        },
    }
}

/// What a message does to a screen.
pub open spec fn msg_step(screen: ScreenShape, msg: AppMsgShape, ctx: CtxShape) -> (
    ScreenShape,
    ActionShape,
    CtxShape,
) {
    match screen {
        ScreenShape::Tags(s) => {
            let (after, action, ctx) = tags::msg_step(s, msg, ctx);
            (ScreenShape::Tags(after), action, ctx)
        },
        ScreenShape::Response(s) => (
            ScreenShape::Response(response::msg_step(s, msg)),
            ActionShape::Stay,
            ctx,
        ),
        other => (other, ActionShape::Stay, ctx),
    }
}

/// What an edited text does to a screen.
pub open spec fn editor_step(screen: ScreenShape, text: Option<Seq<char>>, ctx: CtxShape) -> (
    ScreenShape,
    CtxShape,
) {
    match screen {
        ScreenShape::Form(s) => {
            let (after, ctx) = form::editor_step(s, text, ctx);
            (ScreenShape::Form(after), ctx)
        },
        other => (other, ctx),
    }
}

/// What a screen shows on `height` lines of `width` columns, and the screen
/// after it was drawn.
pub open spec fn draw_step(screen: ScreenShape, ctx: CtxShape, width: u16, height: u16) -> (
    ScreenShape,
    DrawingShape,
) {
    match screen {
        ScreenShape::Projects(s) => (screen, projects::drawn(s, ctx)),
        ScreenShape::Tags(s) => {
            let after = tags::picked_up(s, ctx);
            (ScreenShape::Tags(after), tags::drawn(after, ctx.frame))
        },
        ScreenShape::Endpoints(s) => (screen, endpoints::drawn(s)),
        ScreenShape::Form(s) => {
            let after = RequestFormShape {
                scroll: form::scrolled(s.scroll, form::cursor_place(s.form), height as nat),
                ..s
            };
            (ScreenShape::Form(after), form::drawn(after, width as nat, height as nat))
        },
        ScreenShape::Response(s) => (screen, response::drawn(s, ctx)),
    }
}

impl Screen {
    /// Breadcrumb segments separated by " ▸ " (rendered in the header).
    pub fn title(&self) -> (r: String)
        ensures
            r@ == title_of(self@),
    {
        match self {
            Screen::Projects(s) => s.title(),
            Screen::Tags(s) => s.title(),
            Screen::Endpoints(s) => s.title(),
            Screen::Form(s) => s.title(),
            Screen::Response(s) => s.title(),
        }
    }

    /// Right-aligned header info.
    pub fn meta(&self) -> (r: Option<String>)
        ensures
            r.deep_view() == meta_of(self@),
    {
        match self {
            Screen::Endpoints(s) => Some(s.meta()),
            Screen::Form(s) => s.meta(),
            _ => None,
        }
    }

    /// Footer key hints, e.g. ("enter", "open").
    pub fn key_hints(&self) -> (r: Vec<(&'static str, &'static str)>)
        ensures
            r.deep_view() == hints_of(self@),
    {
        match self {
            Screen::Projects(s) => s.key_hints(),
            Screen::Tags(s) => s.key_hints(),
            Screen::Endpoints(s) => s.key_hints(),
            Screen::Form(s) => s.key_hints(),
            Screen::Response(s) => s.key_hints(),
        }
    }

    /// Reacts to a key.
    pub fn handle_key(&mut self, key: KeyEvent, ctx: &mut AppCtx) -> (r: Action)
        requires
            old(self)@.wf(),
            old(ctx)@.wf(),
            old(ctx)@.request_seq < u64::MAX,
        ensures
            (final(self)@, r@, final(ctx)@) == key_step(old(self)@, key, old(ctx)@),
            final(self)@.wf(),
            action_wf(r@),
            final(ctx)@.wf(),
    {
        match self {
            Screen::Projects(s) => s.handle_key(key, ctx),
            Screen::Tags(s) => s.handle_key(key, ctx),
            Screen::Endpoints(s) => s.handle_key(key),
            Screen::Form(s) => s.handle_key(key, ctx),
            Screen::Response(s) => s.handle_key(key),
        }
    }

    /// Reacts to results of work in the background.
    pub fn handle_msg(&mut self, msg: AppMsg, ctx: &mut AppCtx) -> (r: Action)
        requires
            old(self)@.wf(),
            old(ctx)@.wf(),
            msg@.wf(),
        ensures
            (final(self)@, r@, final(ctx)@) == msg_step(old(self)@, msg@, old(ctx)@),
            final(self)@.wf(),
            action_wf(r@),
            final(ctx)@.wf(),
    {
        match self {
            Screen::Tags(s) => s.handle_msg(msg, ctx),
            Screen::Response(s) => s.handle_msg(msg),
            _ => Action::Stay,
        }
    }

    /// What the screen shows on `height` lines of `width` columns.
    pub fn draw(&mut self, ctx: &AppCtx, width: u16, height: u16) -> (r: Drawing)
        requires
            old(self)@.wf(),
            ctx@.wf(),
        ensures
            (final(self)@, r@) == draw_step(old(self)@, ctx@, width, height),
            final(self)@.wf(),
    {
        match self {
            Screen::Projects(s) => s.draw(ctx),
            Screen::Tags(s) => s.draw(ctx),
            Screen::Endpoints(s) => s.draw(),
            Screen::Form(s) => s.draw(width, height),
            Screen::Response(s) => s.draw(ctx),
        }
    }

    /// Receives the edited text after a `RunEditor` action (None = unchanged
    /// or editor failed).
    pub fn handle_editor_result(&mut self, text: Option<String>, ctx: &mut AppCtx)
        requires
            old(self)@.wf(),
            old(self)@ matches ScreenShape::Form(s) ==> s.editor is None,
            old(ctx)@.wf(),
        ensures
            (final(self)@, final(ctx)@) == editor_step(old(self)@, text.deep_view(), old(ctx)@),
            final(self)@.wf(),
            final(ctx)@.wf(),
    {
        match self {
            Screen::Form(s) => s.handle_editor_result(text, ctx),
            _ => {},
        }
    }
}

} // verus!
