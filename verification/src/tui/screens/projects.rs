//! Root screen: the registered projects menu.

use super::tags::{TagList, TagListShape};
use super::{
    move_selection, only, stepped, Action, ActionShape, Body, BodyShape, Drawing, DrawingShape,
    KeyCode, KeyEvent, Screen, ScreenShape,
};
use crate::cli::listing::auth_name;
use crate::config::{ProjectConfig, ProjectsConfig};
use crate::names::{entry, names_of, without};
use crate::text::{cat, cat3, owned, pad, padded};
use crate::tui::theme::{
    bold, colored, span, unstyled, Ansi, Color, Line, Span, SpanShape, Style,
};
use crate::tui::{AppCtx, CtxShape, Effect, EffectShape};
use vstd::prelude::*;
use vstd::string::*;

verus! {

#[derive(Debug)]
pub struct ProjectList {
    pub names: Vec<String>,
    pub selected: usize,
}

pub struct ProjectListShape {
    pub names: Seq<Seq<char>>,
    pub selected: nat,
}

impl View for ProjectList {
    type V = ProjectListShape;

    open spec fn view(&self) -> ProjectListShape {
        ProjectListShape { names: self.names.deep_view(), selected: self.selected as nat }
    }
}

// ---------------------------------------------------------------- model

pub open spec fn hints() -> Seq<(Seq<char>, Seq<char>)> {
    seq![
        ("↑↓"@, "select"@),
        ("enter"@, "open"@),
        ("l/L"@, "log in/out"@),
        ("r"@, "reload spec"@),
        ("q"@, "quit"@),
    ]
}

/// The context with one more effect to carry out.
pub open spec fn with_effect(ctx: CtxShape, effect: EffectShape) -> CtxShape {
    CtxShape { effects: ctx.effects.push(effect), ..ctx }
}

/// What a key does to the selected project.
pub open spec fn chosen_step(
    s: ProjectListShape,
    name: Seq<char>,
    code: KeyCode,
    ctx: CtxShape,
) -> (ProjectListShape, ActionShape, CtxShape) {
    if code == KeyCode::Enter {
        (
            s,
            ActionShape::Push(
                ScreenShape::Tags(TagListShape { project: name, bundle: None, selected: 0 }),
            ),
            if entry(ctx.specs, name) is Some {
                ctx
            } else {
                with_effect(ctx, EffectShape::LoadSpec(name))
            },
        )
    } else if code == KeyCode::Char('r') {
        (
            s,
            ActionShape::Stay,
            CtxShape {
                specs: without(ctx.specs, name),
                status: Some("spec cache for '"@ + name + "' dropped"@),
                ..ctx
            },
        )
    } else if code == KeyCode::Char('l') {
        (s, ActionShape::Stay, with_effect(ctx, EffectShape::Login(name)))
    } else {
        (s, ActionShape::Stay, with_effect(ctx, EffectShape::Logout(name)))
    }
}

/// Whether a key acts on the selected project.
pub open spec fn acts_on_project(code: KeyCode) -> bool {
    code == KeyCode::Enter || code == KeyCode::Char('r') || code == KeyCode::Char('l') || code
        == KeyCode::Char('L')
}

pub open spec fn key_step(s: ProjectListShape, key: KeyEvent, ctx: CtxShape) -> (
    ProjectListShape,
    ActionShape,
    CtxShape,
) {
    if key.code == KeyCode::Up || key.code == KeyCode::Char('k') {
        (
            ProjectListShape { selected: stepped(s.selected, s.names.len(), -1), ..s },
            ActionShape::Stay,
            ctx,
        )
    } else if key.code == KeyCode::Down || key.code == KeyCode::Char('j') {
        (
            ProjectListShape { selected: stepped(s.selected, s.names.len(), 1), ..s },
            ActionShape::Stay,
            ctx,
        )
    } else if acts_on_project(key.code) {
        if s.selected < s.names.len() {
            chosen_step(s, s.names[s.selected as int], key.code, ctx)
        } else {
            (s, ActionShape::Stay, ctx)
        }
    } else if key.code == KeyCode::Esc {
        (s, ActionShape::Pop, ctx)
    } else {
        (s, ActionShape::Stay, ctx)
    }
}

/// The line of a project.
pub open spec fn item_spans(
    name: Seq<char>,
    project: Option<ProjectConfig>,
    loaded: bool,
) -> Seq<SpanShape> {
    seq![
        span(
            " "@ + (if loaded {
                "●"@
            } else {
                " "@
            }) + " "@,
            colored(Color::Terminal(Ansi::Green)),
        ),
        span(padded(name, 24), Style { bold: true, ..unstyled() }),
        span(
            (match project {
                Some(p) => p.base_url.text@,
                None => ""@,
            }) + "  "@,
            unstyled(),
        ),
        span(
            "["@ + (match project {
                Some(p) => match auth_name(p.auth) {
                    Some(kind) => kind,
                    None => "no auth"@,
                },
                None => "no auth"@,
            }) + "]"@,
            colored(Color::Terminal(Ansi::DarkGray)),
        ),
    ]
}

/// What the screen shows.
pub open spec fn drawn(s: ProjectListShape, ctx: CtxShape) -> DrawingShape {
    if s.names.len() == 0 {
        only(
            BodyShape::Text {
                lines: seq![
                    seq![span(""@, unstyled())],
                    seq![span("  no projects registered."@, unstyled())],
                    seq![span(""@, unstyled())],
                    seq![
                        span(
                            "  hit projects add <name> --base-url http://localhost:8000"@,
                            colored(Color::Terminal(Ansi::Cyan)),
                        ),
                    ],
                ],
                scroll: 0,
            },
        )
    } else {
        only(
            BodyShape::List {
                items: Seq::new(
                    s.names.len(),
                    |i: int|
                        item_spans(
                            s.names[i],
                            entry(ctx.config.projects@, s.names[i]),
                            entry(ctx.specs, s.names[i]) is Some,
                        ),
                ),
                selected: s.selected,
                marker: span("▶"@, unstyled()),
                highlight: Style { bg: Some(Color::Highlight), ..unstyled() },
            },
        )
    }
}

// ---------------------------------------------------------------- operations

impl ProjectList {
    pub fn new(config: &ProjectsConfig) -> (r: ProjectList)
        ensures
            r@ == (ProjectListShape { names: names_of(config.projects@), selected: 0 }),
    {
        ProjectList { names: config.projects.names(), selected: 0 }
    }

    pub fn title(&self) -> (r: String)
        ensures
            r@ == "projects"@,
    {
        owned("projects")
    }

    pub fn key_hints(&self) -> (r: Vec<(&'static str, &'static str)>)
        ensures
            r.deep_view() == hints(),
    {
        let r = vec![
            ("↑↓", "select"),
            ("enter", "open"),
            ("l/L", "log in/out"),
            ("r", "reload spec"),
            ("q", "quit"),
        ];
        assert(r.deep_view() =~= hints());
        r
    }

    fn act(&self, name: &str, code: KeyCode, ctx: &mut AppCtx) -> (r: Action)
        requires
            acts_on_project(code),
            old(ctx)@.wf(),
        ensures
            (self@, r@, final(ctx)@) == chosen_step(self@, name@, code, old(ctx)@),
            final(ctx)@.wf(),
    {
        match code {
            KeyCode::Enter => {
                if !ctx.specs.contains_key(name) {
                    ctx.request(Effect::LoadSpec(owned(name)));
                }
                Action::Push(Screen::Tags(TagList::loading(owned(name))))
            },
            KeyCode::Char('r') => {
                ctx.forget_spec(name);
                ctx.set_status(cat3("spec cache for '", name, "' dropped"));
                Action::Stay
            },
            KeyCode::Char('l') => {
                ctx.request(Effect::Login(owned(name)));
                Action::Stay
            },
            _ => {
                ctx.request(Effect::Logout(owned(name)));
                Action::Stay
            },
        }
    }

    pub fn handle_key(&mut self, key: KeyEvent, ctx: &mut AppCtx) -> (r: Action)
        requires
            old(ctx)@.wf(),
        ensures
            (final(self)@, r@, final(ctx)@) == key_step(old(self)@, key, old(ctx)@),
            final(ctx)@.wf(),
    {
        match key.code {
            KeyCode::Up | KeyCode::Char('k') => {
                move_selection(&mut self.selected, self.names.len(), -1);
                Action::Stay
            },
            KeyCode::Down | KeyCode::Char('j') => {
                move_selection(&mut self.selected, self.names.len(), 1);
                Action::Stay
            },
            KeyCode::Enter | KeyCode::Char('r') | KeyCode::Char('l') | KeyCode::Char('L') => {
                if self.selected < self.names.len() {
                    assert(self@.names[self.selected as int] == self.names@[self.selected as int]@);
                    let name = self.names[self.selected].clone();
                    self.act(name.as_str(), key.code, ctx)
                } else {
                    Action::Stay
                }
            },
            KeyCode::Esc => Action::Pop,
            _ => Action::Stay,
        }
    }

    /// What the screen shows.
    pub fn draw(&self, ctx: &AppCtx) -> (r: Drawing)
        ensures
            r@ == drawn(self@, ctx@),
    {
        if self.names.len() == 0 {
            let mut lines: Vec<Line> = Vec::new();
            lines.push(Line::blank());
            lines.push(Line::of(owned("  no projects registered."), Style::plain()));
            lines.push(Line::blank());
            lines.push(
                Line::of(
                    owned("  hit projects add <name> --base-url http://localhost:8000"),
                    Style::on(Color::Terminal(Ansi::Cyan)),
                ),
            );
            assert(lines.deep_view() =~= drawn(self@, ctx@).body->Text_lines);
            return Drawing::of(Body::Text { lines, scroll: 0 });
        }
        let ghost names = self@.names;
        let ghost shown = drawn(self@, ctx@).body->List_items;
        let mut items: Vec<Line> = Vec::new();
        for i in 0..self.names.len()
            invariant
                names == self@.names,
                names.len() == self.names@.len(),
                shown == drawn(self@, ctx@).body->List_items,
                self.names@.len() > 0,
                items@.len() == i,
                forall|k: int| 0 <= k < i ==> (#[trigger] items@[k])@ == shown[k],
        {
            let name = self.names[i].as_str();
            assert(names[i as int] == name@);
            let mark = if ctx.specs.contains_key(name) {
                "●"
            } else {
                " "
            };
            let project = ctx.config.projects.get(name);
            let url = match project {
                Some(p) => p.base_url.text.as_str(),
                None => "",
            };
            let auth = match project {
                Some(p) => match &p.auth {
                    Some(auth) => auth.auth_type(),
                    None => "no auth",
                },
                None => "no auth",
            };
            let line = Line::new().with(
                Span::styled(cat3(" ", mark, " "), Style::on(Color::Terminal(Ansi::Green))),
            ).with(Span::styled(pad(name, 24), bold(Style::plain()))).with(
                Span::styled(cat(url, "  "), Style::plain()),
            ).with(
                Span::styled(
                    cat3("[", auth, "]"),
                    Style::on(Color::Terminal(Ansi::DarkGray)),
                ),
            );
            assert(line@ =~= shown[i as int]);
            items.push(line);
        }
        assert(items.deep_view() =~= shown);
        Drawing::of(
            Body::List {
                items,
                selected: self.selected,
                marker: Span::raw("▶"),
                highlight: Style {
                    fg: None,
                    bg: Some(Color::Highlight),
                    bold: false,
                    italic: false,
                    crossed_out: false,
                },
            },
        )
    }
}

} // verus!
