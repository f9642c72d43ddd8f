//! Endpoint list for a tag (or the whole project), with `/` filtering and the
//! docs of the highlighted endpoint.

use super::form::{RequestForm, RequestFormShape};
use super::{
    move_selection, stepped, Action, ActionShape, Body, BodyShape, Drawing, DrawingShape, KeyCode,
    KeyEvent, Screen, ScreenShape,
};
use crate::cli::listing::{found_in, matches_search};
use crate::model::{Endpoint, EndpointShape};
use crate::text::{cat, cat3, decimal, owned, pad, padded, same, show};
use crate::tui::form::init::opened;
use crate::tui::form::rows::endpoint_fits;
use crate::tui::form::shallow::spec_fits;
use crate::tui::theme::{
    self, accent, bold, chip, colored, method_badge, method_chip, selected_row, span, unstyled,
    Line, Span, SpanShape, Style, ACCENT, CYAN, DIM, FG, RED, SEL_BG, YELLOW,
};
use crate::tui::widgets::{docs_lines, empty_lines, empty_state, endpoint_docs};
use crate::tui::{share, BundleShape, SpecBundle};
use std::sync::Arc;
use vstd::prelude::*;
use vstd::string::*;

verus! {

#[derive(Debug)]
pub struct EndpointList {
    pub bundle: Arc<SpecBundle>,
    pub tag: Option<String>,
    pub selected: usize,
    pub filter: String,
    pub filtering: bool,
}

pub struct EndpointListShape {
    pub bundle: BundleShape,
    pub tag: Option<Seq<char>>,
    pub selected: nat,
    pub filter: Seq<char>,
    pub filtering: bool,
}

impl View for EndpointList {
    type V = EndpointListShape;

    open spec fn view(&self) -> EndpointListShape {
        EndpointListShape {
            bundle: self.bundle@,
            tag: self.tag.deep_view(),
            selected: self.selected as nat,
            filter: self.filter@,
            filtering: self.filtering,
        }
    }
}

impl EndpointListShape {
    pub open spec fn wf(self) -> bool {
        spec_fits(self.bundle.spec)
    }
}

// ---------------------------------------------------------------- model

/// Whether an endpoint belongs to a tag; endpoints without tags are "untagged".
pub open spec fn tagged(e: EndpointShape, tag: Option<Seq<char>>) -> bool {
    match tag {
        Some(name) => e.tags.contains(name) || (e.tags.len() == 0 && name == "untagged"@),
        None => true,
    }
}

/// Whether an endpoint passes the tag and the filter.
pub open spec fn shown(e: EndpointShape, tag: Option<Seq<char>>, filter: Seq<char>) -> bool {
    tagged(e, tag) && (filter.len() == 0 || matches_search(e, filter))
}

/// The positions from `i` on of the endpoints that pass the tag and the filter.
pub open spec fn visible_from(
    endpoints: Seq<EndpointShape>,
    tag: Option<Seq<char>>,
    filter: Seq<char>,
    i: int,
) -> Seq<int>
    decreases endpoints.len() - i,
{
    if i < 0 || i >= endpoints.len() {
        Seq::empty()
    } else if shown(endpoints[i], tag, filter) {
        seq![i] + visible_from(endpoints, tag, filter, i + 1)
    } else {
        visible_from(endpoints, tag, filter, i + 1)
    }
}

/// The positions of the endpoints that are shown.
pub open spec fn visible(s: EndpointListShape) -> Seq<int> {
    visible_from(s.bundle.spec.endpoints, s.tag, s.filter, 0)
}

pub open spec fn title_text(s: EndpointListShape) -> Seq<char> {
    "projects ▸ "@ + s.bundle.project + " ▸ "@ + (match s.tag {
        Some(tag) => tag,
        None => "all endpoints"@,
    })
}

pub open spec fn meta_text(s: EndpointListShape) -> Seq<char> {
    decimal(visible(s).len()) + " endpoints"@
}

pub open spec fn hints(s: EndpointListShape) -> Seq<(Seq<char>, Seq<char>)> {
    if s.filtering {
        seq![("type"@, "filter"@), ("enter"@, "apply"@), ("esc"@, "clear"@)]
    } else {
        seq![
            ("↑↓"@, "select"@),
            ("enter"@, "open"@),
            ("/"@, "filter"@),
            ("esc"@, "back"@),
        ]
    }
}

/// What a key does while the filter is typed.
pub open spec fn filter_step(s: EndpointListShape, code: KeyCode) -> EndpointListShape {
    let s = EndpointListShape { selected: 0, ..s };
    match code {
        KeyCode::Esc => EndpointListShape { filter: Seq::empty(), filtering: false, ..s },
        KeyCode::Enter => EndpointListShape { filtering: false, ..s },
        KeyCode::Backspace => if s.filter.len() > 0 {
            EndpointListShape { filter: s.filter.drop_last(), ..s }
        } else {
            s
        },
        KeyCode::Char(c) => EndpointListShape { filter: s.filter.push(c), ..s },
        _ => s,
    }
}

pub open spec fn key_step(s: EndpointListShape, key: KeyEvent) -> (
    EndpointListShape,
    ActionShape,
) {
    let len = visible(s).len();
    if s.filtering {
        (filter_step(s, key.code), ActionShape::Stay)
    } else if key.code == KeyCode::Up || key.code == KeyCode::Char('k') {
        (EndpointListShape { selected: stepped(s.selected, len, -1), ..s }, ActionShape::Stay)
    } else if key.code == KeyCode::Down || key.code == KeyCode::Char('j') {
        (EndpointListShape { selected: stepped(s.selected, len, 1), ..s }, ActionShape::Stay)
    } else if key.code == KeyCode::Char('/') {
        (EndpointListShape { filtering: true, ..s }, ActionShape::Stay)
    } else if key.code == KeyCode::Enter && s.selected < len {
        let endpoint = s.bundle.spec.endpoints[visible(s)[s.selected as int]];
        (
            s,
            ActionShape::Push(
                ScreenShape::Form(
                    RequestFormShape {
                        bundle: s.bundle,
                        endpoint,
                        form: opened(endpoint),
                        editor: None,
                        scroll: 0,
                        show_docs: false,
                    },
                ),
            ),
        )
    } else if key.code == KeyCode::Esc {
        (s, ActionShape::Pop)
    } else {
        (s, ActionShape::Stay)
    }
}

/// The search bar, visible while typing or when a filter is applied.
pub open spec fn search_bar(s: EndpointListShape) -> Option<Seq<SpanShape>> {
    if s.filtering || s.filter.len() > 0 {
        Some(
            seq![
                span(" / "@, chip(CYAN, SEL_BG)),
                span(" "@, unstyled()),
                span(s.filter, colored(YELLOW)),
                if s.filtering {
                    span("▏"@, colored(YELLOW))
                } else {
                    span("  (esc on / clears)"@, colored(DIM))
                },
            ],
        )
    } else {
        None
    }
}

/// The line of an endpoint.
pub open spec fn item_spans(e: EndpointShape) -> Seq<SpanShape> {
    seq![
        method_chip(e.method),
        span(" "@, unstyled()),
        span(padded(e.path, 36), Style { bold: true, ..colored(FG) }),
        span(
            match e.summary {
                Some(text) => text,
                None => e.id,
            },
            colored(DIM),
        ),
    ] + (if e.auth_required {
        seq![span("  ⚿"@, colored(YELLOW))]
    } else {
        Seq::empty()
    }) + (if e.deprecated {
        seq![span("  deprecated"@, Style { crossed_out: true, ..colored(RED) })]
    } else {
        Seq::empty()
    })
}

/// What the screen shows.
pub open spec fn drawn(s: EndpointListShape) -> DrawingShape {
    let at = visible(s);
    if at.len() == 0 {
        DrawingShape {
            bar: search_bar(s),
            body: BodyShape::Text {
                lines: empty_lines("no endpoints match"@, "press / to refine"@),
                scroll: 0,
            },
            info: Seq::empty(),
            docs: Seq::empty(),
        }
    } else {
        DrawingShape {
            bar: search_bar(s),
            body: BodyShape::List {
                items: Seq::new(at.len(), |i: int| item_spans(s.bundle.spec.endpoints[at[i]])),
                selected: s.selected,
                marker: span("▌"@, colored(ACCENT)),
                highlight: Style { bg: Some(SEL_BG), ..unstyled() },
            },
            info: Seq::empty(),
            docs: if s.selected < at.len() {
                docs_lines(s.bundle.spec.endpoints[at[s.selected as int]])
            } else {
                Seq::empty()
            },
        }
    }
}

// ---------------------------------------------------------------- operations

/// Whether an endpoint belongs to a tag.
fn belongs(e: &Endpoint, tag: &Option<String>) -> (r: bool)
    ensures
        r == tagged(e@, tag.deep_view()),
{
    let name = match tag {
        Some(name) => name.as_str(),
        None => {
            return true;
        },
    };
    let ghost all = e@.tags;
    for i in 0..e.tags.len()
        invariant
            all == e@.tags,
            tag.deep_view() == Some(name@),
            forall|k: int| 0 <= k < i ==> all[k] != name@,
    {
        assert(all[i as int] == e.tags@[i as int]@);
        if same(e.tags[i].as_str(), name) {
            return true;
        }
    }
    e.tags.len() == 0 && same(name, "untagged")
}

pub proof fn lemma_visible(
    endpoints: Seq<EndpointShape>,
    tag: Option<Seq<char>>,
    filter: Seq<char>,
    i: int,
)
    requires
        0 <= i,
    ensures
        forall|k: int|
            0 <= k < visible_from(endpoints, tag, filter, i).len() ==> i
                <= #[trigger] visible_from(endpoints, tag, filter, i)[k] < endpoints.len() && shown(
                endpoints[visible_from(endpoints, tag, filter, i)[k]],
                tag,
                filter,
            ),
    decreases endpoints.len() - i,
{
    if i < endpoints.len() {
        lemma_visible(endpoints, tag, filter, i + 1);
        let rest = visible_from(endpoints, tag, filter, i + 1);
        let here = visible_from(endpoints, tag, filter, i);
        assert forall|k: int| 0 <= k < here.len() implies i <= #[trigger] here[k]
            < endpoints.len() && shown(endpoints[here[k]], tag, filter) by {
            if shown(endpoints[i], tag, filter) {
                assert(here == seq![i] + rest);
                if k > 0 {
                    assert(here[k] == rest[k - 1]);
                }
            }
        }
    }
}

impl EndpointList {
    pub fn new(bundle: Arc<SpecBundle>, tag: Option<String>) -> (r: EndpointList)
        ensures
            r@ == (EndpointListShape {
                bundle: bundle@,
                tag: tag.deep_view(),
                selected: 0,
                filter: Seq::empty(),
                filtering: false,
            }),
    {
        let filter = String::new();
        assert(filter@ =~= Seq::empty());
        EndpointList { bundle, tag, selected: 0, filter, filtering: false }
    }

    /// Positions of the spec's endpoints after tag + filter narrowing.
    pub fn visible(&self) -> (r: Vec<usize>)
        ensures
            r@.len() == visible(self@).len(),
            forall|k: int|
                0 <= k < r@.len() ==> #[trigger] r@[k] == visible(self@)[k] && r@[k]
                    < self@.bundle.spec.endpoints.len(),
    {
        let ghost all = self@.bundle.spec.endpoints;
        let ghost tag = self@.tag;
        let ghost filter = self@.filter;
        let ghost goal = visible(self@);
        let mut out: Vec<usize> = Vec::new();
        let ghost mut done: Seq<int> = Seq::empty();
        assert(done + visible_from(all, tag, filter, 0) =~= goal);
        for i in 0..self.bundle.spec.endpoints.len()
            invariant
                all == self@.bundle.spec.endpoints,
                tag == self@.tag,
                filter == self@.filter,
                goal == visible(self@),
                done + visible_from(all, tag, filter, i as int) == goal,
                out@.len() == done.len(),
                forall|k: int|
                    0 <= k < out@.len() ==> #[trigger] out@[k] == done[k] && out@[k] < all.len(),
        {
            let e = &self.bundle.spec.endpoints[i];
            assert(all[i as int] == e@);
            if belongs(e, &self.tag) && (self.filter.as_str().is_empty() || found_in(
                e,
                self.filter.as_str(),
            )) {
                out.push(i);
                proof {
                    let before = done;
                    done = before.push(i as int);
                    assert(done + visible_from(all, tag, filter, i + 1) =~= before + (seq![
                        i as int,
                    ] + visible_from(all, tag, filter, i + 1)));
                }
            }
        }
        assert(done =~= goal);
        out
    }

    pub fn title(&self) -> (r: String)
        ensures
            r@ == title_text(self@),
    {
        let scope = match &self.tag {
            Some(tag) => tag.as_str(),
            None => "all endpoints",
        };
        let head = cat3("projects ▸ ", self.bundle.project.as_str(), " ▸ ");
        cat(head.as_str(), scope)
    }

    pub fn meta(&self) -> (r: String)
        ensures
            r@ == meta_text(self@),
    {
        let count = show(self.visible().len() as u64);
        cat(count.as_str(), " endpoints")
    }

    pub fn key_hints(&self) -> (r: Vec<(&'static str, &'static str)>)
        ensures
            r.deep_view() == hints(self@),
    {
        let r = if self.filtering {
            vec![("type", "filter"), ("enter", "apply"), ("esc", "clear")]
        } else {
            vec![("↑↓", "select"), ("enter", "open"), ("/", "filter"), ("esc", "back")]
        };
        assert(r.deep_view() =~= hints(self@));
        r
    }

    fn handle_filter_key(&mut self, code: KeyCode)
        requires
            old(self)@.wf(),
        ensures
            final(self)@ == filter_step(old(self)@, code),
            final(self)@.wf(),
    {
        match code {
            KeyCode::Esc => {
                self.filter = String::new();
                assert(self.filter@ =~= Seq::empty());
                self.filtering = false;
            },
            KeyCode::Enter => {
                self.filtering = false;
            },
            KeyCode::Backspace => {
                self.filter = crate::text::without_last(self.filter.as_str());
            },
            KeyCode::Char(c) => {
                self.filter.push(c);
            },
            _ => {},
        }
        self.selected = 0;
    }

    pub fn handle_key(&mut self, key: KeyEvent) -> (r: Action)
        requires
            old(self)@.wf(),
        ensures
            (final(self)@, r@) == key_step(old(self)@, key),
            final(self)@.wf(),
            super::action_wf(r@),
    {
        if self.filtering {
            self.handle_filter_key(key.code);
            return Action::Stay;
        }
        let visible_rows = self.visible();
        match key.code {
            KeyCode::Up | KeyCode::Char('k') => {
                move_selection(&mut self.selected, visible_rows.len(), -1);
                Action::Stay
            },
            KeyCode::Down | KeyCode::Char('j') => {
                move_selection(&mut self.selected, visible_rows.len(), 1);
                Action::Stay
            },
            KeyCode::Char('/') => {
                self.filtering = true;
                Action::Stay
            },
            KeyCode::Enter => {
                if self.selected < visible_rows.len() {
                    let at: usize = visible_rows[self.selected];
                    assert(endpoint_fits(self@.bundle.spec.endpoints[at as int]));
                    assert(self@.bundle.spec.endpoints[at as int]
                        == self.bundle.spec.endpoints@[at as int]@);
                    let endpoint = self.bundle.spec.endpoints[at].clone();
                    Action::Push(Screen::Form(RequestForm::new(share(&self.bundle), endpoint)))
                } else {
                    Action::Stay
                }
            },
            KeyCode::Esc => Action::Pop,
            _ => Action::Stay,
        }
    }

    fn draw_bar(&self) -> (r: Option<Line>)
        ensures
            r.deep_view() == search_bar(self@),
    {
        if self.filtering || !self.filter.as_str().is_empty() {
            let line = Line::new().with(
                Span::styled(owned(" / "), Style::chip(CYAN, SEL_BG)),
            ).with(Span::raw(" ")).with(
                Span::styled(self.filter.clone(), Style::on(YELLOW)),
            ).with(
                if self.filtering {
                    Span::styled(owned("▏"), Style::on(YELLOW))
                } else {
                    Span::styled(owned("  (esc on / clears)"), theme::dim())
                },
            );
            assert(line@ =~= search_bar(self@)->0);
            Some(line)
        } else {
            None
        }
    }

    /// What the screen shows.
    pub fn draw(&self) -> (r: Drawing)
        ensures
            r@ == drawn(self@),
    {
        let bar = self.draw_bar();
        let at = self.visible();
        let ghost all = self@.bundle.spec.endpoints;
        if at.len() == 0 {
            let r = Drawing {
                bar,
                body: Body::Text {
                    lines: empty_state("no endpoints match", "press / to refine"),
                    scroll: 0,
                },
                info: Vec::new(),
                docs: Vec::new(),
            };
            assert(r@.info =~= Seq::empty());
            assert(r@.docs =~= Seq::empty());
            return r;
        }
        let ghost positions = visible(self@);
        let mut items: Vec<Line> = Vec::new();
        for i in 0..at.len()
            invariant
                all == self@.bundle.spec.endpoints,
                positions == visible(self@),
                at@.len() == positions.len(),
                forall|k: int|
                    0 <= k < at@.len() ==> #[trigger] at@[k] == positions[k] && at@[k] < all.len(),
                items@.len() == i,
                forall|k: int|
                    0 <= k < i ==> (#[trigger] items@[k])@ == item_spans(all[positions[k]]),
        {
            let e = &self.bundle.spec.endpoints[at[i]];
            assert(all[positions[i as int]] == e@);
            let mut line = Line::new().with(method_badge(e.method.as_str())).with(
                Span::raw(" "),
            ).with(
                Span::styled(pad(e.path.as_str(), 36), bold(theme::text())),
            ).with(
                Span::styled(
                    match &e.summary {
                        Some(text) => text.clone(),
                        None => e.id.clone(),
                    },
                    theme::dim(),
                ),
            );
            if e.auth_required {
                line = line.with(Span::styled(owned("  ⚿"), Style::on(YELLOW)));
            }
            if e.deprecated {
                line = line.with(
                    Span::styled(owned("  deprecated"), Style::on(RED).crossed_out()),
                );
            }
            assert(line@ =~= item_spans(e@));
            items.push(line);
        }
        assert(items.deep_view() =~= Seq::new(
            positions.len(),
            |i: int| item_spans(all[positions[i]]),
        ));
        let docs = if self.selected < at.len() {
            assert(all[positions[self.selected as int]]
                == self.bundle.spec.endpoints@[at@[self.selected as int] as int]@);
            endpoint_docs(&self.bundle.spec.endpoints[at[self.selected]])
        } else {
            let none: Vec<Line> = Vec::new();
            assert(none.deep_view() =~= Seq::empty());
            none
        };
        let r = Drawing {
            bar,
            body: Body::List {
                items,
                selected: self.selected,
                marker: Span::styled(owned("▌"), accent()),
                highlight: selected_row(),
            },
            info: Vec::new(),
            docs,
        };
        assert(r@.info =~= Seq::empty());
        r
    }
}

// ---------------------------------------------------------------- laws

/// Every endpoint that is shown passes the tag and the filter.
pub proof fn law_shown_endpoints_pass(s: EndpointListShape, k: int)
    requires
        0 <= k < visible(s).len(),
    ensures
        0 <= visible(s)[k] < s.bundle.spec.endpoints.len(),
        shown(s.bundle.spec.endpoints[visible(s)[k]], s.tag, s.filter),
{
    lemma_visible(s.bundle.spec.endpoints, s.tag, s.filter, 0);
}

proof fn lemma_shown(
    endpoints: Seq<EndpointShape>,
    tag: Option<Seq<char>>,
    filter: Seq<char>,
    i: int,
    p: int,
)
    requires
        0 <= i <= p < endpoints.len(),
        shown(endpoints[p], tag, filter),
    ensures
        visible_from(endpoints, tag, filter, i).contains(p),
    decreases p - i,
{
    let here = visible_from(endpoints, tag, filter, i);
    if i == p {
        assert(here[0] == p);
    } else {
        lemma_shown(endpoints, tag, filter, i + 1, p);
        let rest = visible_from(endpoints, tag, filter, i + 1);
        let k = choose|k: int| 0 <= k < rest.len() && rest[k] == p;
        if shown(endpoints[i], tag, filter) {
            assert(here[k + 1] == p);
        } else {
            assert(here[k] == p);
        }
    }
}

/// Every endpoint that passes the tag and the filter is shown.
pub proof fn law_passing_endpoints_are_shown(s: EndpointListShape, p: int)
    requires
        0 <= p < s.bundle.spec.endpoints.len(),
        shown(s.bundle.spec.endpoints[p], s.tag, s.filter),
    ensures
        visible(s).contains(p),
{
    lemma_shown(s.bundle.spec.endpoints, s.tag, s.filter, 0, p);
}

} // verus!
