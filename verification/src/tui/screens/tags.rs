//! Tag list for a project. Starts in a loading state until the spec arrives.

use super::endpoints::{EndpointList, EndpointListShape};
use super::{
    move_selection, only, stepped, Action, ActionShape, Body, BodyShape, Drawing, DrawingShape,
    KeyCode, KeyEvent, Screen, ScreenShape,
};
use crate::model::GroupShape;
use crate::names::entry;
use crate::spec::load::SpecOrigin;
use crate::text::{
    cat, cat3, decimal, owned, pad, pad_left, padded, padded_left, same, show,
};
use crate::tui::form::shallow::spec_fits;
use crate::tui::theme::{
    bold, colored, span, unstyled, Ansi, Color, Line, Span, SpanShape, Style,
};
use crate::tui::widgets::{loading_line, loading_spans};
use crate::tui::{share, AppCtx, AppMsg, AppMsgShape, BundleShape, CtxShape, ModalShape, SpecBundle};
use std::sync::Arc;
use vstd::prelude::*;
use vstd::string::*;

verus! {

#[derive(Debug)]
pub struct TagList {
    pub project: String,
    pub bundle: Option<Arc<SpecBundle>>,
    pub selected: usize,
}

pub struct TagListShape {
    pub project: Seq<char>,
    pub bundle: Option<BundleShape>,
    pub selected: nat,
}

impl View for TagList {
    type V = TagListShape;

    open spec fn view(&self) -> TagListShape {
        TagListShape {
            project: self.project@,
            bundle: match self.bundle {
                Some(bundle) => Some(bundle@),
                None => None,
            },
            selected: self.selected as nat,
        }
    }
}

impl TagListShape {
    pub open spec fn wf(self) -> bool {
        self.bundle matches Some(bundle) ==> spec_fits(bundle.spec)
    }
}

// ---------------------------------------------------------------- model

/// The name of where a spec came from.
pub open spec fn origin_name(origin: SpecOrigin) -> Seq<char> {
    match origin {
        SpecOrigin::Cache => "Cache"@,
        SpecOrigin::Live => "Live"@,
        SpecOrigin::File => "File"@,
        SpecOrigin::StaleCache => "StaleCache"@,
    }
}

pub open spec fn title_text(s: TagListShape) -> Seq<char> {
    match s.bundle {
        Some(bundle) => s.project + " — "@ + bundle.spec.title + " v"@ + bundle.spec.version
            + " ("@ + origin_name(bundle.origin) + ")"@,
        None => s.project + " — loading…"@,
    }
}

pub open spec fn hints() -> Seq<(Seq<char>, Seq<char>)> {
    seq![("↑↓"@, "select"@), ("enter"@, "open"@), ("esc"@, "back"@)]
}

/// The screen with a spec that was loaded meanwhile.
pub open spec fn picked_up(s: TagListShape, ctx: CtxShape) -> TagListShape {
    match s.bundle {
        Some(_) => s,
        None => TagListShape {
            bundle: match entry(ctx.specs, s.project) {
                Some(bundle) => Some(bundle@),
                None => None,
            },
            ..s
        },
    }
}

pub open spec fn key_step(s: TagListShape, key: KeyEvent, ctx: CtxShape) -> (
    TagListShape,
    ActionShape,
) {
    let s = picked_up(s, ctx);
    match s.bundle {
        None => (
            s,
            if key.code == KeyCode::Esc {
                ActionShape::Pop
            } else {
                ActionShape::Stay
            },
        ),
        Some(bundle) => {
            let len = bundle.spec.tags.len();
            if key.code == KeyCode::Up || key.code == KeyCode::Char('k') {
                (
                    TagListShape { selected: stepped(s.selected, len, -1), ..s },
                    ActionShape::Stay,
                )
            } else if key.code == KeyCode::Down || key.code == KeyCode::Char('j') {
                (TagListShape { selected: stepped(s.selected, len, 1), ..s }, ActionShape::Stay)
            } else if key.code == KeyCode::Enter && s.selected < len {
                (
                    s,
                    ActionShape::Push(
                        ScreenShape::Endpoints(
                            EndpointListShape {
                                bundle,
                                tag: Some(bundle.spec.tags[s.selected as int].name),
                                selected: 0,
                                filter: Seq::empty(),
                                filtering: false,
                            },
                        ),
                    ),
                )
            } else if key.code == KeyCode::Esc {
                (s, ActionShape::Pop)
            } else {
                (s, ActionShape::Stay)
            }
        },
    }
}

pub open spec fn msg_step(s: TagListShape, msg: AppMsgShape, ctx: CtxShape) -> (
    TagListShape,
    ActionShape,
    CtxShape,
) {
    match msg {
        AppMsgShape::SpecLoaded { project, result } => if project == s.project {
            match result {
                Ok(bundle) => (
                    TagListShape { bundle: Some(bundle), ..s },
                    ActionShape::Stay,
                    ctx,
                ),
                Err(message) => (
                    s,
                    ActionShape::Pop,
                    CtxShape {
                        modal: Some(
                            ModalShape {
                                title: "error"@,
                                body: "failed to load spec: "@ + message,
                            },
                        ),
                        ..ctx
                    },
                ),
            }
        } else {
            (s, ActionShape::Stay, ctx)
        },
        _ => (s, ActionShape::Stay, ctx),
    }
}

/// The line of a tag.
pub open spec fn item_spans(tag: GroupShape) -> Seq<SpanShape> {
    seq![
        span(" "@ + padded(tag.name, 24), Style { bold: true, ..unstyled() }),
        span(
            padded_left(decimal(tag.endpoint_ids.len()), 3) + " endpoints  "@,
            colored(Color::Terminal(Ansi::Cyan)),
        ),
        span(
            match tag.description {
                Some(text) => text,
                None => ""@,
            },
            colored(Color::Terminal(Ansi::DarkGray)),
        ),
    ]
}

/// What the screen shows.
pub open spec fn drawn(s: TagListShape, frame: u64) -> DrawingShape {
    match s.bundle {
        None => only(
            BodyShape::Text { lines: seq![loading_spans("openapi.json"@, frame)], scroll: 0 },
        ),
        Some(bundle) => only(
            BodyShape::List {
                items: Seq::new(
                    bundle.spec.tags.len(),
                    |i: int| item_spans(bundle.spec.tags[i]),
                ),
                selected: s.selected,
                marker: span("▶"@, unstyled()),
                highlight: Style { bg: Some(Color::Highlight), ..unstyled() },
            },
        ),
    }
}

// ---------------------------------------------------------------- operations

impl TagList {
    pub fn loading(project: String) -> (r: TagList)
        ensures
            r@ == (TagListShape { project: project@, bundle: None, selected: 0 }),
    {
        TagList { project, bundle: None, selected: 0 }
    }

    pub fn title(&self) -> (r: String)
        ensures
            r@ == title_text(self@),
    {
        match &self.bundle {
            Some(bundle) => {
                let mut out = cat3(self.project.as_str(), " — ", bundle.spec.title.as_str());
                out.append(" v");
                out.append(bundle.spec.version.as_str());
                out.append(" (");
                out.append(
                    match bundle.origin {
                        SpecOrigin::Cache => "Cache",
                        SpecOrigin::Live => "Live",
                        SpecOrigin::File => "File",
                        SpecOrigin::StaleCache => "StaleCache",
                    },
                );
                out.append(")");
                out
            },
            None => cat(self.project.as_str(), " — loading…"),
        }
    }

    pub fn key_hints(&self) -> (r: Vec<(&'static str, &'static str)>)
        ensures
            r.deep_view() == hints(),
    {
        let r = vec![("↑↓", "select"), ("enter", "open"), ("esc", "back")];
        assert(r.deep_view() =~= hints());
        r
    }

    /// The spec may already be there from an earlier visit.
    fn pick_up(&mut self, ctx: &AppCtx)
        requires
            old(self)@.wf(),
            ctx@.wf(),
        ensures
            final(self)@ == picked_up(old(self)@, ctx@),
            final(self)@.wf(),
    {
        if self.bundle.is_none() {
            match ctx.specs.get(self.project.as_str()) {
                Some(bundle) => {
                    proof {
                        crate::tui::lemma_known_spec_fits(ctx@, self.project@);
                    }
                    self.bundle = Some(share(bundle));
                },
                None => {},
            }
        }
    }

    pub fn handle_key(&mut self, key: KeyEvent, ctx: &AppCtx) -> (r: Action)
        requires
            old(self)@.wf(),
            ctx@.wf(),
        ensures
            (final(self)@, r@) == key_step(old(self)@, key, ctx@),
            final(self)@.wf(),
            super::action_wf(r@),
    {
        self.pick_up(ctx);
        let bundle = match &self.bundle {
            Some(bundle) => share(bundle),
            None => {
                return match key.code {
                    KeyCode::Esc => Action::Pop,
                    _ => Action::Stay,
                };
            },
        };
        let len: usize = bundle.spec.tags.len();
        match key.code {
            KeyCode::Up | KeyCode::Char('k') => {
                move_selection(&mut self.selected, len, -1);
                Action::Stay
            },
            KeyCode::Down | KeyCode::Char('j') => {
                move_selection(&mut self.selected, len, 1);
                Action::Stay
            },
            KeyCode::Enter => {
                if self.selected < len {
                    let name = bundle.spec.tags[self.selected].name.clone();
                    assert(bundle@.spec.tags[self.selected as int].name == name@);
                    Action::Push(Screen::Endpoints(EndpointList::new(bundle, Some(name))))
                } else {
                    Action::Stay
                }
            },
            KeyCode::Esc => Action::Pop,
            _ => Action::Stay,
        }
    }

    pub fn handle_msg(&mut self, msg: AppMsg, ctx: &mut AppCtx) -> (r: Action)
        requires
            old(self)@.wf(),
            old(ctx)@.wf(),
            msg@.wf(),
        ensures
            (final(self)@, r@, final(ctx)@) == msg_step(old(self)@, msg@, old(ctx)@),
            final(self)@.wf(),
            super::action_wf(r@),
            final(ctx)@.wf(),
    {
        match msg {
            AppMsg::SpecLoaded { project, result } => {
                if same(project.as_str(), self.project.as_str()) {
                    match result {
                        Ok(bundle) => {
                            self.bundle = Some(bundle);
                            Action::Stay
                        },
                        Err(message) => {
                            ctx.show_error(cat("failed to load spec: ", message.as_str()));
                            Action::Pop
                        },
                    }
                } else {
                    Action::Stay
                }
            },
            _ => Action::Stay,
        }
    }

    /// What the screen shows.
    pub fn draw(&mut self, ctx: &AppCtx) -> (r: Drawing)
        requires
            old(self)@.wf(),
            ctx@.wf(),
        ensures
            final(self)@ == picked_up(old(self)@, ctx@),
            final(self)@.wf(),
            r@ == drawn(final(self)@, ctx@.frame),
    {
        self.pick_up(ctx);
        let bundle = match &self.bundle {
            Some(bundle) => bundle,
            None => {
                let mut lines: Vec<Line> = Vec::new();
                lines.push(loading_line("openapi.json", ctx.frame));
                assert(lines.deep_view() =~= seq![loading_spans("openapi.json"@, ctx@.frame)]);
                return Drawing::of(Body::Text { lines, scroll: 0 });
            },
        };
        let ghost all = bundle@.spec.tags;
        let tags = &bundle.spec.tags;
        let mut items: Vec<Line> = Vec::new();
        for i in 0..tags.len()
            invariant
                all == tags.deep_view(),
                items@.len() == i,
                forall|k: int| 0 <= k < i ==> (#[trigger] items@[k])@ == item_spans(all[k]),
        {
            let tag = &tags[i];
            assert(all[i as int] == tag@);
            let name = pad(tag.name.as_str(), 24);
            let digits = show(tag.endpoint_ids.len() as u64);
            let count = pad_left(digits.as_str(), 3);
            let line = Line::new().with(
                Span::styled(cat(" ", name.as_str()), bold(Style::plain())),
            ).with(
                Span::styled(
                    cat(count.as_str(), " endpoints  "),
                    Style::on(Color::Terminal(Ansi::Cyan)),
                ),
            ).with(
                Span::styled(
                    match &tag.description {
                        Some(text) => text.clone(),
                        None => owned(""),
                    },
                    Style::on(Color::Terminal(Ansi::DarkGray)),
                ),
            );
            assert(line@ =~= item_spans(all[i as int]));
            items.push(line);
        }
        assert(items.deep_view() =~= Seq::new(all.len(), |i: int| item_spans(all[i])));
        Drawing::of(
            Body::List {
                items,
                selected: self.selected,
                marker: Span::raw("▶"),
                highlight: Style {
                    fg: None,
                    bg: Some(Color::Highlight),
                    bold: false,
                    italic: false,
                    crossed_out: false,
                },
            },
        )
    }
}

} // verus!
