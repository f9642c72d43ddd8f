//! Interactive TUI: the screen stack and what happens to it on a key, a
//! result of work in the background, or the return of an external editor.
//!
//! The caller draws, waits for the next event, hands it in, and carries out
//! the effects that pile up in the context.

pub mod appearance;
pub mod form;
pub mod laws;
pub mod screens;
pub mod theme;
pub mod widgets;

use crate::config::ProjectsConfig;
use crate::http::response::{ApiResponse, ApiResponseShape};
use crate::http::{ArgsShape, RequestArgs};
use crate::model::{ApiShape, ApiSpec, Endpoint, EndpointShape};
use crate::names::{entry, entry_position, names_of, placed, slot, without, NameMap};
use crate::spec::load::SpecOrigin;
use crate::text::{cat3, owned, same, trim, trimmed, without_last, words, words_of};
use form::shallow::spec_fits;
use screens::projects::{ProjectList, ProjectListShape};
use screens::tags::{TagList, TagListShape};
use screens::{
    action_wf, editor_step, key_step, msg_step, Action, ActionShape, KeyCode, KeyEvent, Screen,
    ScreenShape,
};
use std::sync::Arc;
use vstd::prelude::*;
use vstd::string::*;

verus! {

/// A loaded, shareable spec bundle.
#[derive(Debug)]
pub struct SpecBundle {
    pub project: String,
    pub spec: ApiSpec,
    pub origin: SpecOrigin,
}

/// Results of work in the background, sent back into the event loop.
#[allow(inconsistent_fields)]
#[derive(Debug)]
pub enum AppMsg {
    SpecLoaded { project: String, result: Result<Arc<SpecBundle>, String> },
    Response { request_seq: u64, result: Result<ApiResponse, String> },
    Error(String),
    /// Something worth a line in the footer.
    Notice(String),
    /// A provider asks the human for input.
    Prompt { label: String, secret: bool },
}

/// Work that a screen asks to be done in the background.
#[derive(Debug)]
pub enum Effect {
    /// Load a project's spec; the result arrives as `SpecLoaded`.
    LoadSpec(String),
    /// Send a request; the result arrives as `Response`.
    Send { seq: u64, project: String, endpoint: Endpoint, args: RequestArgs },
    Login(String),
    Logout(String),
    /// Hand the answer to the prompt at the front; `None` where it was declined.
    Answer(Option<String>),
}

#[derive(Debug)]
pub struct Modal {
    pub title: String,
    pub body: String,
}

/// An open question to the human.
#[derive(Debug)]
pub struct Prompt {
    pub label: String,
    pub secret: bool,
    /// What was typed so far.
    pub text: String,
}

/// Shared context handed to screens.
#[derive(Debug)]
pub struct AppCtx {
    pub config: Arc<ProjectsConfig>,
    pub specs: NameMap<Arc<SpecBundle>>,
    pub modal: Option<Modal>,
    /// Open questions; the first one is on the screen.
    pub prompts: Vec<Prompt>,
    pub status: Option<String>,
    /// Monotonic id matching in-flight requests to Response messages.
    pub request_seq: u64,
    /// Counts the frames of animations.
    pub frame: u64,
    /// Work to be done in the background, in order.
    pub effects: Vec<Effect>,
}

/// The whole TUI.
#[derive(Debug)]
pub struct App {
    pub stack: Vec<Screen>,
    pub ctx: AppCtx,
}

/// How the event loop goes on.
#[derive(Debug)]
pub enum Flow {
    Continue,
    Quit,
    /// Suspend the TUI, run $EDITOR on the text, and hand the result to `edited`.
    Edit(String),
}

// ---------------------------------------------------------------- model

pub struct BundleShape {
    pub project: Seq<char>,
    pub spec: ApiShape,
    pub origin: SpecOrigin,
}

#[allow(inconsistent_fields)]
pub enum AppMsgShape {
    SpecLoaded { project: Seq<char>, result: Result<BundleShape, Seq<char>> },
    Response { request_seq: u64, result: Result<ApiResponseShape, Seq<char>> },
    Error(Seq<char>),
    Notice(Seq<char>),
    Prompt { label: Seq<char>, secret: bool },
}

pub enum EffectShape {
    LoadSpec(Seq<char>),
    Send { seq: u64, project: Seq<char>, endpoint: EndpointShape, args: ArgsShape },
    Login(Seq<char>),
    Logout(Seq<char>),
    Answer(Option<Seq<char>>),
}

pub struct ModalShape {
    pub title: Seq<char>,
    pub body: Seq<char>,
}

pub struct PromptShape {
    pub label: Seq<char>,
    pub secret: bool,
    pub text: Seq<char>,
}

pub struct CtxShape {
    pub config: ProjectsConfig,
    pub specs: Seq<(Seq<char>, Arc<SpecBundle>)>,
    pub modal: Option<ModalShape>,
    pub prompts: Seq<PromptShape>,
    pub status: Option<Seq<char>>,
    pub request_seq: u64,
    pub frame: u64,
    pub effects: Seq<EffectShape>,
}

pub struct AppShape {
    pub stack: Seq<ScreenShape>,
    pub ctx: CtxShape,
}

pub enum FlowShape {
    Continue,
    Quit,
    Edit(Seq<char>),
}

impl View for SpecBundle {
    type V = BundleShape;

    open spec fn view(&self) -> BundleShape {
        BundleShape { project: self.project@, spec: self.spec@, origin: self.origin }
    }
}

impl View for AppMsg {
    type V = AppMsgShape;

    open spec fn view(&self) -> AppMsgShape {
        match self {
            AppMsg::SpecLoaded { project, result } => AppMsgShape::SpecLoaded {
                project: project@,
                result: match result {
                    Ok(bundle) => Ok(bundle@),
                    Err(message) => Err(message@),
                },
            },
            AppMsg::Response { request_seq, result } => AppMsgShape::Response {
                request_seq: *request_seq,
                result: match result {
                    Ok(response) => Ok(response@),
                    Err(message) => Err(message@),
                },
            },
            AppMsg::Error(message) => AppMsgShape::Error(message@),
            AppMsg::Notice(message) => AppMsgShape::Notice(message@),
            AppMsg::Prompt { label, secret } => AppMsgShape::Prompt {
                label: label@,
                secret: *secret,
            },
        }
    }
}

impl View for Effect {
    type V = EffectShape;

    open spec fn view(&self) -> EffectShape {
        match self {
            Effect::LoadSpec(project) => EffectShape::LoadSpec(project@),
            Effect::Send { seq, project, endpoint, args } => EffectShape::Send {
                seq: *seq,
                project: project@,
                endpoint: endpoint@,
                args: args@,
            },
            Effect::Login(project) => EffectShape::Login(project@),
            Effect::Logout(project) => EffectShape::Logout(project@),
            Effect::Answer(text) => EffectShape::Answer(text.deep_view()),
        }
    }
}

impl DeepView for Effect {
    type V = EffectShape;

    open spec fn deep_view(&self) -> EffectShape {
        self.view()
    }
}

impl View for Modal {
    type V = ModalShape;

    open spec fn view(&self) -> ModalShape {
        ModalShape { title: self.title@, body: self.body@ }
    }
}

impl DeepView for Modal {
    type V = ModalShape;

    open spec fn deep_view(&self) -> ModalShape {
        self.view()
    }
}

impl View for Prompt {
    type V = PromptShape;

    open spec fn view(&self) -> PromptShape {
        PromptShape { label: self.label@, secret: self.secret, text: self.text@ }
    }
}

impl DeepView for Prompt {
    type V = PromptShape;

    open spec fn deep_view(&self) -> PromptShape {
        self.view()
    }
}

impl View for AppCtx {
    type V = CtxShape;

    open spec fn view(&self) -> CtxShape {
        CtxShape {
            config: *self.config,
            specs: self.specs@,
            modal: self.modal.deep_view(),
            prompts: self.prompts.deep_view(),
            status: self.status.deep_view(),
            request_seq: self.request_seq,
            frame: self.frame,
            effects: self.effects.deep_view(),
        }
    }
}

impl View for App {
    type V = AppShape;

    open spec fn view(&self) -> AppShape {
        AppShape { stack: self.stack.deep_view(), ctx: self.ctx@ }
    }
}

impl View for Flow {
    type V = FlowShape;

    open spec fn view(&self) -> FlowShape {
        match self {
            Flow::Continue => FlowShape::Continue,
            Flow::Quit => FlowShape::Quit,
            Flow::Edit(seed) => FlowShape::Edit(seed@),
        }
    }
}

impl CtxShape {
    /// Every spec at hand fits a form.
    pub open spec fn wf(self) -> bool {
        forall|i: int| 0 <= i < self.specs.len() ==> spec_fits((#[trigger] self.specs[i]).1@.spec)
    }
}

impl AppMsgShape {
    /// A loaded spec fits a form.
    pub open spec fn wf(self) -> bool {
        self matches AppMsgShape::SpecLoaded { result: Ok(bundle), .. } ==> spec_fits(bundle.spec)
    }
}

impl AppShape {
    /// The stack is never empty, and everything on it is in order.
    pub open spec fn wf(self) -> bool {
        &&& self.stack.len() > 0
        &&& forall|i: int| 0 <= i < self.stack.len() ==> (#[trigger] self.stack[i]).wf()
        &&& self.ctx.wf()
    }
}

pub open spec fn error_modal(message: Seq<char>) -> ModalShape {
    ModalShape { title: "error"@, body: message }
}

/// What a key does while a question is open.
pub open spec fn prompt_step(ctx: CtxShape, code: KeyCode) -> CtxShape {
    let first = ctx.prompts[0];
    match code {
        KeyCode::Enter => CtxShape {
            prompts: ctx.prompts.skip(1),
            effects: ctx.effects.push(EffectShape::Answer(Some(first.text))),
            ..ctx
        },
        KeyCode::Esc => CtxShape {
            prompts: ctx.prompts.skip(1),
            effects: ctx.effects.push(EffectShape::Answer(None)),
            ..ctx
        },
        KeyCode::Backspace => CtxShape {
            prompts: ctx.prompts.update(
                0,
                PromptShape {
                    text: if first.text.len() > 0 {
                        first.text.drop_last()
                    } else {
                        first.text
                    },
                    ..first
                },
            ),
            ..ctx
        },
        KeyCode::Char(c) => CtxShape {
            prompts: ctx.prompts.update(0, PromptShape { text: first.text.push(c), ..first }),
            ..ctx
        },
        _ => ctx,
    }
}

/// What becomes of the stack when its top screen asks for something.
pub open spec fn settled(app: AppShape, action: ActionShape) -> (AppShape, FlowShape) {
    match action {
        ActionShape::Stay => (app, FlowShape::Continue),
        ActionShape::Push(screen) => (
            AppShape { stack: app.stack.push(screen), ..app },
            FlowShape::Continue,
        ),
        // Leaving the last screen ends the program.
        ActionShape::Pop => if app.stack.len() == 1 {
            (app, FlowShape::Quit)
        } else {
            (AppShape { stack: app.stack.drop_last(), ..app }, FlowShape::Continue)
        },
        ActionShape::Quit => (app, FlowShape::Quit),
        ActionShape::RunEditor(seed) => (app, FlowShape::Edit(seed)),
    }
}

/// The stack with another top screen, and another context.
pub open spec fn topped(app: AppShape, top: ScreenShape, ctx: CtxShape) -> AppShape {
    AppShape { stack: app.stack.drop_last().push(top), ctx }
}

/// What a key does.
pub open spec fn key_handled(app: AppShape, key: KeyEvent) -> (AppShape, FlowShape) {
    let ctx = CtxShape { status: None, ..app.ctx };
    if ctx.modal is Some {
        // The modal swallows the key.
        (AppShape { ctx: CtxShape { modal: None, ..ctx }, ..app }, FlowShape::Continue)
    } else if ctx.prompts.len() > 0 {
        (AppShape { ctx: prompt_step(ctx, key.code), ..app }, FlowShape::Continue)
    } else {
        let (top, action, after) = key_step(app.stack.last(), key, ctx);
        let app = topped(app, top, after);
        if action is Stay && key.code == KeyCode::Char('q') && app.stack.len() == 1 {
            // 'q' quits from the root screen unless the screen took it.
            (app, FlowShape::Quit)
        } else {
            settled(app, action)
        }
    }
}

/// What a result of work in the background does.
pub open spec fn msg_handled(app: AppShape, msg: AppMsg) -> (AppShape, FlowShape) {
    match msg {
        AppMsg::Error(message) => (
            AppShape { ctx: CtxShape { modal: Some(error_modal(message@)), ..app.ctx }, ..app },
            FlowShape::Continue,
        ),
        AppMsg::Notice(message) => (
            AppShape { ctx: CtxShape { status: Some(message@), ..app.ctx }, ..app },
            FlowShape::Continue,
        ),
        AppMsg::Prompt { label, secret } => (
            AppShape {
                ctx: CtxShape {
                    prompts: app.ctx.prompts.push(
                        PromptShape { label: label@, secret, text: Seq::empty() },
                    ),
                    ..app.ctx
                },
                ..app
            },
            FlowShape::Continue,
        ),
        _ => {
            let ctx = match msg {
                AppMsg::SpecLoaded { project, result: Ok(bundle) } => CtxShape {
                    specs: placed(app.ctx.specs, project@, bundle),
                    ..app.ctx
                },
                _ => app.ctx,
            };
            let (top, action, after) = msg_step(app.stack.last(), msg@, ctx);
            settled(topped(app, top, after), action)
        },
    }
}

/// The text of the external editor can be taken: no row is being edited inline.
pub open spec fn awaits_text(app: AppShape) -> bool {
    app.stack.last() matches ScreenShape::Form(s) ==> s.editor is None
}

/// What the return of the external editor does.
pub open spec fn edit_handled(app: AppShape, text: Option<Seq<char>>) -> AppShape {
    let (top, after) = editor_step(app.stack.last(), text, app.ctx);
    topped(app, top, after)
}

/// The TUI as it starts; a named project is opened right away.
pub open spec fn started(config: ProjectsConfig, initial: Option<Seq<char>>) -> AppShape {
    let root = ScreenShape::Projects(
        ProjectListShape { names: names_of(config.projects@), selected: 0 },
    );
    let ctx = CtxShape {
        config,
        specs: Seq::empty(),
        modal: None,
        prompts: Seq::empty(),
        status: None,
        request_seq: 0,
        frame: 0,
        effects: Seq::empty(),
    };
    match initial {
        None => AppShape { stack: seq![root], ctx },
        Some(name) => if entry(config.projects@, name) is Some {
            AppShape {
                stack: seq![
                    root,
                    ScreenShape::Tags(TagListShape { project: name, bundle: None, selected: 0 }),
                ],
                ctx: CtxShape { effects: seq![EffectShape::LoadSpec(name)], ..ctx },
            }
        } else {
            AppShape {
                stack: seq![root],
                ctx: CtxShape {
                    modal: Some(error_modal("unknown project '"@ + name + "'"@)),
                    ..ctx
                },
            }
        },
    }
}

// ---------------------------------------------------------------- context

/// `Arc::clone`: a second handle on the same value.
#[verifier::external_body]
pub(crate) fn share(bundle: &Arc<SpecBundle>) -> (r: Arc<SpecBundle>)
    ensures
        r == *bundle,
{
    bundle.clone()
}

proof fn lemma_entry_position<T>(m: Seq<(Seq<char>, T)>, name: Seq<char>, i: int)
    requires
        0 <= i,
    ensures
        entry_position(m, name, i) matches Some(p) ==> i <= p < m.len(),
    decreases m.len() - i,
{
    if i < m.len() {
        lemma_entry_position(m, name, i + 1);
    }
}

/// A spec that is at hand fits a form.
pub proof fn lemma_known_spec_fits(ctx: CtxShape, project: Seq<char>)
    requires
        ctx.wf(),
    ensures
        entry(ctx.specs, project) matches Some(bundle) ==> spec_fits(bundle@.spec),
{
    lemma_entry_position(ctx.specs, project, 0);
}

proof fn lemma_slot_in_range<T>(m: Seq<(Seq<char>, T)>, name: Seq<char>, i: int)
    requires
        0 <= i <= m.len(),
    ensures
        i <= slot(m, name, i) <= m.len(),
    decreases m.len() - i,
{
    if i < m.len() {
        lemma_slot_in_range(m, name, i + 1);
    }
}

impl AppCtx {
    pub fn show_error(&mut self, message: String)
        ensures
            final(self)@ == (CtxShape { modal: Some(error_modal(message@)), ..old(self)@ }),
    {
        self.modal = Some(Modal { title: owned("error"), body: message });
    }

    pub fn set_status(&mut self, message: String)
        ensures
            final(self)@ == (CtxShape { status: Some(message@), ..old(self)@ }),
    {
        self.status = Some(message);
    }

    /// Asks for work in the background.
    pub fn request(&mut self, effect: Effect)
        ensures
            final(self)@ == (CtxShape { effects: old(self)@.effects.push(effect@), ..old(self)@ }),
    {
        let ghost before = self.effects.deep_view();
        let ghost added = effect@;
        self.effects.push(effect);
        assert(self.effects.deep_view() =~= before.push(added));
    }

    /// Drops a spec that is at hand.
    pub fn forget_spec(&mut self, project: &str)
        requires
            old(self)@.wf(),
        ensures
            final(self)@ == (CtxShape { specs: without(old(self)@.specs, project@), ..old(self)@ }),
            final(self)@.wf(),
    {
        let ghost before = self@.specs;
        proof {
            lemma_entry_position(before, project@, 0);
        }
        let _ = self.specs.remove(project);
        assert forall|i: int| 0 <= i < self@.specs.len() implies spec_fits(
            (#[trigger] self@.specs[i]).1@.spec,
        ) by {
            match entry_position(before, project@, 0) {
                Some(p) => {
                    if i < p {
                        assert(self@.specs[i] == before[i]);
                    } else {
                        assert(self@.specs[i] == before[i + 1]);
                    }
                },
                None => {
                    assert(self@.specs[i] == before[i]);
                },
            }
        }
    }

    /// Keeps a loaded spec at hand.
    pub fn keep_spec(&mut self, project: String, bundle: Arc<SpecBundle>)
        requires
            old(self)@.wf(),
            spec_fits(bundle@.spec),
        ensures
            final(self)@ == (CtxShape {
                specs: placed(old(self)@.specs, project@, bundle),
                ..old(self)@
            }),
            final(self)@.wf(),
    {
        let ghost before = self@.specs;
        proof {
            lemma_slot_in_range(before, project@, 0);
        }
        self.specs.insert(project, bundle);
        assert forall|i: int| 0 <= i < self@.specs.len() implies spec_fits(
            (#[trigger] self@.specs[i]).1@.spec,
        ) by {
            let p = slot(before, project@, 0);
            if i < p {
                assert(self@.specs[i] == before[i]);
            } else if i > p {
                if p < before.len() && before[p].0 == project@ {
                    assert(self@.specs[i] == before[i]);
                } else {
                    assert(self@.specs[i] == before[i - 1]);
                }
            }
        }
    }

    fn handle_prompt_key(&mut self, code: KeyCode)
        requires
            old(self)@.prompts.len() > 0,
        ensures
            final(self)@ == prompt_step(old(self)@, code),
    {
        let ghost before = self@;
        match code {
            KeyCode::Enter => {
                let first = self.prompts.remove(0);
                assert(before.prompts[0] == first@);
                assert(self.prompts.deep_view() =~= before.prompts.skip(1));
                self.request(Effect::Answer(Some(first.text)));
            },
            KeyCode::Esc => {
                let _ = self.prompts.remove(0);
                assert(self.prompts.deep_view() =~= before.prompts.skip(1));
                self.request(Effect::Answer(None));
            },
            KeyCode::Backspace => {
                let first = &self.prompts[0];
                assert(before.prompts[0] == first@);
                let shorter = Prompt {
                    label: first.label.clone(),
                    secret: first.secret,
                    text: without_last(first.text.as_str()),
                };
                let ghost shown = shorter@;
                self.prompts.set(0, shorter);
                assert(self.prompts.deep_view() =~= before.prompts.update(0, shown));
            },
            KeyCode::Char(c) => {
                let first = &self.prompts[0];
                assert(before.prompts[0] == first@);
                let mut text = first.text.clone();
                text.push(c);
                let longer = Prompt { label: first.label.clone(), secret: first.secret, text };
                let ghost shown = longer@;
                self.prompts.set(0, longer);
                assert(self.prompts.deep_view() =~= before.prompts.update(0, shown));
            },
            _ => {},
        }
    }
}

/// What is shown of a typed answer: secrets are masked.
pub open spec fn shown_answer(prompt: PromptShape) -> Seq<char> {
    if prompt.secret {
        Seq::new(prompt.text.len(), |i: int| '•')
    } else {
        prompt.text
    }
}

impl Prompt {
    /// What is shown of the typed answer.
    pub fn shown(&self) -> (r: String)
        ensures
            r@ == shown_answer(self@),
    {
        if self.secret {
            let count: usize = crate::text::chars_of(self.text.as_str()).len();
            let mut out = String::new();
            for i in 0..count
                invariant
                    out@ == Seq::new(i as nat, |k: int| '•'),
            {
                out.push('•');
                assert(out@ =~= Seq::new((i + 1) as nat, |k: int| '•'));
            }
            assert(out@ =~= shown_answer(self@));
            out
        } else {
            self.text.clone()
        }
    }
}

/// The command of the external editor: what was configured first, else `vi`.
pub fn editor_command(visual: Option<String>, editor: Option<String>) -> (r: Vec<String>)
    ensures
        r.deep_view() == command_words(
            match visual {
                Some(text) => text@,
                None => match editor {
                    Some(text) => text@,
                    None => "vi"@,
                },
            },
        ),
        r@.len() > 0,
{
    let command = match visual {
        Some(text) => text,
        None => match editor {
            Some(text) => text,
            None => owned("vi"),
        },
    };
    let mut parts = words(command.as_str());
    if parts.len() == 0 {
        parts.push(owned("vi"));
        assert(parts.deep_view() =~= seq!["vi"@]);
    }
    parts
}

/// A program and its arguments ("code -w"); an empty command is `vi`.
pub open spec fn command_words(command: Seq<char>) -> Seq<Seq<char>> {
    if words_of(command).len() == 0 {
        seq!["vi"@]
    } else {
        words_of(command)
    }
}

/// The text that comes back from the external editor; nothing where it is
/// the same but for white space at its ends.
pub fn editor_outcome(seed: &str, text: String) -> (r: Option<String>)
    ensures
        match r {
            Some(changed) => changed == text && trimmed(text@) != trimmed(seed@),
            None => trimmed(text@) == trimmed(seed@),
        },
{
    let after = trim(text.as_str());
    let before = trim(seed);
    if same(after.as_str(), before.as_str()) {
        None
    } else {
        Some(text)
    }
}

// ---------------------------------------------------------------- the loop

impl App {
    /// The TUI as it starts.
    pub fn start(config: Arc<ProjectsConfig>, initial_project: Option<String>) -> (r: App)
        ensures
            r@ == started(*config, initial_project.deep_view()),
            r@.wf(),
    {
        let root = Screen::Projects(ProjectList::new(&config));
        let mut ctx = AppCtx {
            config,
            specs: NameMap::new(),
            modal: None,
            prompts: Vec::new(),
            status: None,
            request_seq: 0,
            frame: 0,
            effects: Vec::new(),
        };
        assert(ctx@.specs =~= Seq::empty());
        assert(ctx@.prompts =~= Seq::empty());
        assert(ctx@.effects =~= Seq::empty());
        let mut stack: Vec<Screen> = Vec::new();
        stack.push(root);
        assert(stack.deep_view() =~= seq![root@]);
        match initial_project {
            Some(name) => {
                if ctx.config.projects.contains_key(name.as_str()) {
                    ctx.request(Effect::LoadSpec(name.clone()));
                    assert(ctx@.effects =~= seq![EffectShape::LoadSpec(name@)]);
                    let opened = Screen::Tags(TagList::loading(name));
                    let ghost shown = opened@;
                    stack.push(opened);
                    assert(stack.deep_view() =~= seq![root@, shown]);
                } else {
                    ctx.show_error(cat3("unknown project '", name.as_str(), "'"));
                }
            },
            None => {},
        }
        App { stack, ctx }
    }

    fn settle(&mut self, action: Action) -> (r: Flow)
        requires
            old(self)@.wf(),
            action_wf(action@),
        ensures
            (final(self)@, r@) == settled(old(self)@, action@),
            final(self)@.wf(),
    {
        let ghost before = self@.stack;
        match action {
            Action::Stay => Flow::Continue,
            Action::Push(screen) => {
                let ghost shown = screen@;
                self.stack.push(screen);
                assert(self.stack.deep_view() =~= before.push(shown));
                Flow::Continue
            },
            Action::Pop => {
                if self.stack.len() == 1 {
                    Flow::Quit
                } else {
                    let _ = self.stack.pop();
                    assert(self.stack.deep_view() =~= before.drop_last());
                    Flow::Continue
                }
            },
            Action::Quit => Flow::Quit,
            Action::RunEditor { seed } => Flow::Edit(seed),
        }
    }

    /// Handles a key.
    pub fn handle_key(&mut self, key: KeyEvent) -> (r: Flow)
        requires
            old(self)@.wf(),
            old(self).ctx.request_seq < u64::MAX,
        ensures
            (final(self)@, r@) == key_handled(old(self)@, key),
            final(self)@.wf(),
            r is Edit ==> awaits_text(final(self)@),
    {
        let ghost before = self@;
        self.ctx.status = None;
        if self.ctx.modal.is_some() {
            self.ctx.modal = None;
            return Flow::Continue;
        }
        if self.ctx.prompts.len() > 0 {
            self.ctx.handle_prompt_key(key.code);
            return Flow::Continue;
        }
        let mut top = match self.stack.pop() {
            Some(top) => top,
            None => {
                return Flow::Quit;
            },
        };
        assert(top@ == before.stack.last());
        let action = top.handle_key(key, &mut self.ctx);
        let ghost shown = top@;
        self.stack.push(top);
        assert(self.stack.deep_view() =~= before.stack.drop_last().push(shown));
        let idle = match action {
            Action::Stay => true,
            _ => false,
        };
        if idle && self.stack.len() == 1 {
            match key.code {
                KeyCode::Char('q') => {
                    return Flow::Quit;
                },
                _ => {},
            }
        }
        self.settle(action)
    }

    /// Handles a result of work in the background.
    pub fn handle_msg(&mut self, msg: AppMsg) -> (r: Flow)
        requires
            old(self)@.wf(),
            msg@.wf(),
        ensures
            (final(self)@, r@) == msg_handled(old(self)@, msg),
            final(self)@.wf(),
            r is Edit ==> awaits_text(final(self)@),
    {
        let ghost before = self@;
        match msg {
            AppMsg::Error(message) => {
                self.ctx.show_error(message);
                return Flow::Continue;
            },
            AppMsg::Notice(message) => {
                self.ctx.set_status(message);
                return Flow::Continue;
            },
            AppMsg::Prompt { label, secret } => {
                let asked = Prompt { label, secret, text: String::new() };
                assert(asked.text@ =~= Seq::empty());
                let ghost shown = asked@;
                self.ctx.prompts.push(asked);
                assert(self.ctx.prompts.deep_view() =~= before.ctx.prompts.push(shown));
                return Flow::Continue;
            },
            other => {
                match &other {
                    AppMsg::SpecLoaded { project, result: Ok(bundle) } => {
                        self.ctx.keep_spec(project.clone(), share(bundle));
                    },
                    _ => {},
                }
                let mut top = match self.stack.pop() {
                    Some(top) => top,
                    None => {
                        return Flow::Quit;
                    },
                };
                assert(top@ == before.stack.last());
                let action = top.handle_msg(other, &mut self.ctx);
                let ghost shown = top@;
                self.stack.push(top);
                assert(self.stack.deep_view() =~= before.stack.drop_last().push(shown));
                self.settle(action)
            },
        }
    }

    /// Takes the text that comes back from the external editor.
    pub fn edited(&mut self, text: Option<String>)
        requires
            old(self)@.wf(),
            awaits_text(old(self)@),
        ensures
            final(self)@ == edit_handled(old(self)@, text.deep_view()),
            final(self)@.wf(),
    {
        let ghost before = self@;
        if let Some(mut top) = self.stack.pop() {
            assert(top@ == before.stack.last());
            top.handle_editor_result(text, &mut self.ctx);
            let ghost shown = top@;
            self.stack.push(top);
            assert(self.stack.deep_view() =~= before.stack.drop_last().push(shown));
        }
    }
}

// ---------------------------------------------------------------- laws

/// The program ends only on purpose: a key that quits is `q` on the root
/// screen or one that leaves it.
pub proof fn law_quitting_is_deliberate(app: AppShape, key: KeyEvent)
    requires
        app.stack.len() > 0,
        key_handled(app, key).1 is Quit,
    ensures
        app.stack.len() == 1 || key_step(
            app.stack.last(),
            key,
            CtxShape { status: None, ..app.ctx },
        ).1 is Quit,
        app.ctx.modal is None,
        app.ctx.prompts.len() == 0,
{
}

/// While a modal is open no key reaches a screen.
pub proof fn law_modal_swallows_keys(app: AppShape, key: KeyEvent)
    requires
        app.ctx.modal is Some,
    ensures
        key_handled(app, key).0.stack == app.stack,
        key_handled(app, key).0.ctx.modal is None,
        key_handled(app, key).0.ctx.effects == app.ctx.effects,
{
}

/// Leaving a screen uncovers the one below it as it was.
pub proof fn law_popping_uncovers(app: AppShape, screen: ScreenShape)
    requires
        app.stack.len() > 0,
    ensures
        settled(settled(app, ActionShape::Push(screen)).0, ActionShape::Pop) == (
            app,
            FlowShape::Continue,
        ),
{
    assert(app.stack.push(screen).drop_last() =~= app.stack);
}

} // verus!
