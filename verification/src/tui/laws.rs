//! What keys and messages do, said across screens: what is opened, what is sent,
//! and what stays as it was.

use super::form::arrays::{appended_rows, deleted};
use super::form::cursor::moved;
use super::form::edit::{cycled, reincluded, seed_text, toggled, typed};
use super::form::init::{hydrated, opened};
use super::form::sent::{body_starts_at, law_rows_before_the_body_are_sent, texts_in};
use super::form::{KindShape, RowShape, Section};
use super::screens::endpoints::{shown, visible, visible_from, EndpointListShape};
use super::screens::form::RequestFormShape;
use super::screens::projects::ProjectListShape;
use super::screens::response::{ProgressShape, ResponseViewShape};
use super::screens::tags::TagListShape;
use super::screens::{
    self, endpoints, form, projects, response, stepped, tags, ActionShape, KeyCode, KeyEvent,
    ScreenShape,
};
use super::{
    command_words, key_handled, msg_handled, settled, shown_answer, started, AppMsg, AppMsgShape,
    AppShape, CtxShape, EffectShape, FlowShape, PromptShape,
};
use crate::cli::laws::meets;
use crate::config::ProjectsConfig;
use crate::http::response::{ApiResponse, ApiResponseShape};
use crate::json::parse::parsed;
use crate::model::EndpointShape;
use crate::names::{
    ascending, entry, law_entry_after_placed, law_no_entry_after_without, law_placed_keeps_others,
    law_without_keeps_others, placed, without,
};
use crate::pairs::settles;
use crate::text::laws::{law_words, solid};
use crate::text::{contains_text, lower, occurs_at};
use vstd::prelude::*;
use vstd::string::*;

verus! {

// ---------------------------------------------------------------- sending

/// Ctrl+S sends what the rows hold: one request, under the next number, to the
/// endpoint of the form, with headers, query and path from their own sections and
/// the body of the form. The view that opens waits for that number. A form that is
/// held back sends nothing and says why.
pub proof fn law_submitting_sends_the_rows(
    s: RequestFormShape,
    key: KeyEvent,
    ctx: CtxShape,
    n: int,
)
    requires
        s.editor is None,
        key.control,
        key.code == KeyCode::Char('s'),
        ctx.request_seq < u64::MAX,
        body_starts_at(s.form.rows, n),
    ensures
        ({
            let (after, action, then) = form::key_step(s, key, ctx);
            match s.form.sent() {
                Ok(sent) => {
                    let rows = s.form.rows.take(n);
                    &&& after == s
                    &&& then.effects.len() == ctx.effects.len() + 1
                    &&& then.effects.take(ctx.effects.len() as int) == ctx.effects
                    &&& then.effects.last() matches EffectShape::Send {
                        seq,
                        project,
                        endpoint,
                        args,
                    } && {
                        &&& seq == ctx.request_seq + 1
                        &&& project == s.bundle.project
                        &&& endpoint == s.endpoint
                        &&& args.headers == texts_in(rows, Section::Header)
                        &&& args.query_params == texts_in(rows, Section::Query)
                        &&& settles(texts_in(rows, Section::Path), args.path_params)
                        &&& args.body == sent.body
                        &&& !args.no_auth
                        &&& action matches ActionShape::Push(ScreenShape::Response(view))
                            && view.seq == seq && view.method == s.endpoint.method && view.path
                            == s.endpoint.path && view.state is Loading
                    }
                    &&& then.request_seq == ctx.request_seq + 1
                },
                Err(blocked) => {
                    &&& action is Stay
                    &&& then.effects == ctx.effects
                    &&& then.status == Some(blocked.message)
                    &&& after.form.rows == s.form.rows
                    &&& after.form.cursor == blocked.row as nat
                },
            }
        }),
{
    law_rows_before_the_body_are_sent(s.form, n);
    let (after, action, then) = form::key_step(s, key, ctx);
    if s.form.sent() is Ok {
        assert(then.effects.take(ctx.effects.len() as int) =~= ctx.effects);
    }
}

// ---------------------------------------------------------------- rows

/// While a row is edited, keys change the text; Enter takes it into that row where
/// it means something, and Esc forgets it.
pub proof fn law_inline_editing(
    s: RequestFormShape,
    key: KeyEvent,
    ctx: CtxShape,
    row: nat,
    text: Seq<char>,
    c: char,
)
    requires
        s.editor == Some((row, text)),
        row < s.form.rows.len(),
    ensures
        ({
            let (after, action, then) = form::key_step(s, key, ctx);
            let old = s.form.rows[row as int];
            &&& action is Stay
            &&& then.effects == ctx.effects
            &&& key.code == KeyCode::Char(c) ==> after.editor == Some((row, text.push(c)))
                && after.form == s.form
            &&& key.code == KeyCode::Backspace && text.len() > 0 ==> after.editor == Some(
                (row, text.drop_last()),
            ) && after.form == s.form
            &&& key.code == KeyCode::Esc ==> after.editor is None && after.form == s.form
            &&& key.code == KeyCode::Enter ==> match typed(old, text) {
                Ok(state) => {
                    &&& after.editor is None
                    &&& after.form.rows.len() == s.form.rows.len()
                    &&& after.form.rows[row as int] == (RowShape { state, ..old })
                    &&& forall|k: int|
                        0 <= k < s.form.rows.len() && k != row ==> #[trigger] after.form.rows[k]
                            == s.form.rows[k]
                },
                Err(message) => after == s && then.status == Some(message),
            }
        }),
{
}

/// Keys act on the row under the cursor alone: space toggles it, Shift+X cycles it,
/// `x` includes it again, `a` and `d` grow and shrink arrays, Enter edits values.
/// The arrows move the cursor.
pub proof fn law_keys_act_on_the_row(s: RequestFormShape, key: KeyEvent, ctx: CtxShape)
    requires
        s.editor is None,
        !key.control,
        s.form.cursor < s.form.rows.len(),
    ensures
        ({
            let (after, action, then) = form::key_step(s, key, ctx);
            let i = s.form.cursor as int;
            let row = s.form.rows[i];
            let no_choice = row.kind matches KindShape::Enum(values) && values.len() == 0;
            &&& key.code == KeyCode::Char(' ') && !no_choice ==> after.form.rows
                == s.form.rows.update(i, toggled(row))
            &&& key.code == KeyCode::Char('X') ==> after.form.rows == s.form.rows.update(
                i,
                cycled(row),
            )
            &&& key.code == KeyCode::Char('x') ==> after.form.rows == s.form.rows.update(
                i,
                reincluded(row),
            )
            &&& key.code == KeyCode::Char('a') && row.kind is ArrayHeader ==> after.form.rows
                == appended_rows(s.form.rows, i)
            &&& key.code == KeyCode::Char('a') && !(row.kind is ArrayHeader) ==> after.form
                == s.form
            &&& key.code == KeyCode::Char('d') ==> after.form == deleted(s.form, i)
            &&& key.code == KeyCode::Enter && (row.kind is Scalar || row.kind is RawJson)
                ==> after.editor == Some((i as nat, seed_text(row))) && after.form == s.form
            &&& key.code == KeyCode::Down ==> after.form.cursor == moved(s.form.rows, i, 1) as nat
                && after.form.rows == s.form.rows
            &&& key.code == KeyCode::Up ==> after.form.cursor == moved(s.form.rows, i, -1) as nat
                && after.form.rows == s.form.rows
            &&& key.code == KeyCode::Esc ==> action is Pop && after == s
            &&& then.effects == ctx.effects
            &&& after.endpoint == s.endpoint && after.bundle == s.bundle
        }),
{
}

/// The text of the external editor refills the body where it is JSON, and changes
/// nothing where it is not.
pub proof fn law_edited_body_is_taken(s: RequestFormShape, text: Seq<char>, ctx: CtxShape)
    ensures
        match parsed(text) {
            Ok(value) => {
                &&& form::editor_step(s, Some(text), ctx).0.form == hydrated(
                    s.form,
                    s.endpoint,
                    value,
                )
                &&& form::editor_step(s, Some(text), ctx).1.modal == ctx.modal
            },
            Err(_) => {
                &&& form::editor_step(s, Some(text), ctx).0 == s
                &&& form::editor_step(s, Some(text), ctx).1.modal is Some
            },
        },
        form::editor_step(s, None, ctx) == (s, ctx),
{
}

// ---------------------------------------------------------------- lists

/// A selection moves by one and stops at the ends.
pub proof fn law_selection_stays_in_the_list(selected: nat, len: nat)
    requires
        selected < len,
    ensures
        stepped(selected, len, 1) == (if selected + 1 < len {
            selected + 1
        } else {
            selected
        }),
        stepped(selected, len, -1) == (if selected > 0 {
            selected - 1
        } else {
            0
        }),
{
}

/// The endpoint has the tag; those without any belong to `untagged`.
pub open spec fn belongs(e: EndpointShape, tag: Option<Seq<char>>) -> bool {
    tag matches Some(name) ==> {
        ||| exists|t: int| 0 <= t < e.tags.len() && #[trigger] e.tags[t] == name
        ||| e.tags.len() == 0 && name == "untagged"@
    }
}

proof fn lemma_shown_so(e: EndpointShape, tag: Option<Seq<char>>, filter: Seq<char>)
    ensures
        shown(e, tag, filter) <==> belongs(e, tag) && (filter.len() == 0 || meets(e, Some(filter))),
{
    match tag {
        Some(name) => {
            if e.tags.contains(name) {
                let t = choose|t: int| 0 <= t < e.tags.len() && e.tags[t] == name;
                assert(e.tags[t] == name);
            }
        },
        None => {},
    }
    if filter.len() > 0 && e.summary is None {
        reveal_strlit("");
        let none = Seq::<char>::empty();
        assert(""@ =~= none);
        assert(lower(none) =~= none);
        if contains_text(none, lower(filter)) {
            let i = choose|i: int| occurs_at(none, lower(filter), i);
            assert(lower(filter).len() == 0);
        }
    }
}

proof fn lemma_visible_so(
    all: Seq<EndpointShape>,
    tag: Option<Seq<char>>,
    filter: Seq<char>,
    i: int,
)
    requires
        0 <= i,
    ensures
        ({
            let list = visible_from(all, tag, filter, i);
            &&& forall|k: int|
                0 <= k < list.len() ==> i <= #[trigger] list[k] < all.len() && shown(
                    all[list[k]],
                    tag,
                    filter,
                )
            &&& forall|k: int, l: int|
                0 <= k < l < list.len() ==> #[trigger] list[k] < #[trigger] list[l]
            &&& forall|p: int|
                i <= p < all.len() && shown(#[trigger] all[p], tag, filter) ==> list.contains(p)
        }),
    decreases all.len() - i,
{
    if i < all.len() {
        lemma_visible_so(all, tag, filter, i + 1);
        let rest = visible_from(all, tag, filter, i + 1);
        let list = visible_from(all, tag, filter, i);
        if shown(all[i], tag, filter) {
            assert(list == seq![i] + rest);
            assert forall|k: int| 0 <= k < list.len() implies i <= #[trigger] list[k] < all.len()
                && shown(all[list[k]], tag, filter) by {
                if k > 0 {
                    assert(list[k] == rest[k - 1]);
                }
            }
            assert forall|k: int, l: int| 0 <= k < l < list.len() implies #[trigger] list[k]
                < #[trigger] list[l] by {
                assert(list[l] == rest[l - 1]);
                if k > 0 {
                    assert(list[k] == rest[k - 1]);
                }
            }
            assert forall|p: int|
                i <= p < all.len() && shown(#[trigger] all[p], tag, filter) implies list.contains(
                p,
            ) by {
                if p == i {
                    assert(list[0] == i);
                } else {
                    let k = choose|k: int| 0 <= k < rest.len() && rest[k] == p;
                    assert(list[k + 1] == p);
                }
            }
        }
    }
}

/// The list shows the endpoints that have its tag and meet the filter, each once,
/// in the order of the document.
pub proof fn law_list_shows_what_passes(s: EndpointListShape)
    ensures
        ({
            let all = s.bundle.spec.endpoints;
            let list = visible(s);
            &&& forall|k: int, l: int|
                0 <= k < l < list.len() ==> #[trigger] list[k] < #[trigger] list[l]
            &&& forall|p: int|
                #![trigger all[p]]
                list.contains(p) <==> 0 <= p < all.len() && belongs(all[p], s.tag) && (
                s.filter.len() == 0 || meets(all[p], Some(s.filter)))
        }),
{
    let all = s.bundle.spec.endpoints;
    let list = visible(s);
    lemma_visible_so(all, s.tag, s.filter, 0);
    assert forall|p: int|
        #![trigger all[p]]
        list.contains(p) <==> 0 <= p < all.len() && belongs(all[p], s.tag) && (s.filter.len() == 0
            || meets(all[p], Some(s.filter))) by {
        lemma_shown_so(all[p], s.tag, s.filter);
        if list.contains(p) {
            let k = choose|k: int| 0 <= k < list.len() && list[k] == p;
            assert(0 <= list[k] < all.len());
        }
    }
}

/// Enter opens a fresh form for the endpoint under the selection.
pub proof fn law_enter_opens_the_endpoint(s: EndpointListShape, key: KeyEvent)
    requires
        !s.filtering,
        key.code == KeyCode::Enter,
        s.selected < visible(s).len(),
    ensures
        endpoints::key_step(s, key).1 matches ActionShape::Push(ScreenShape::Form(view)) && {
            &&& view.endpoint == s.bundle.spec.endpoints[visible(s)[s.selected as int]]
            &&& view.form == opened(view.endpoint)
            &&& view.bundle == s.bundle
            &&& view.editor is None
        },
        endpoints::key_step(s, key).0 == s,
{
}

/// Typing a filter changes its text, Enter applies it and Esc clears it; the
/// selection starts over.
pub proof fn law_filter_is_typed(s: EndpointListShape, key: KeyEvent, c: char)
    requires
        s.filtering,
    ensures
        ({
            let (after, action) = endpoints::key_step(s, key);
            &&& action is Stay
            &&& after.selected == 0
            &&& after.bundle == s.bundle && after.tag == s.tag
            &&& key.code == KeyCode::Char(c) ==> after.filter == s.filter.push(c)
                && after.filtering
            &&& key.code == KeyCode::Backspace && s.filter.len() > 0 ==> after.filter
                == s.filter.drop_last() && after.filtering
            &&& key.code == KeyCode::Enter ==> after.filter == s.filter && !after.filtering
            &&& key.code == KeyCode::Esc ==> after.filter.len() == 0 && !after.filtering
        }),
{
}

/// Enter on a tag lists its endpoints; a spec that was loaded is shown, and one
/// that failed to load takes the screen away with an error.
pub proof fn law_tags_open_their_endpoints(
    s: TagListShape,
    key: KeyEvent,
    ctx: CtxShape,
    msg: AppMsgShape,
)
    ensures
        s.bundle is Some && key.code == KeyCode::Enter && s.selected < s.bundle->0.spec.tags.len()
            ==> (tags::key_step(s, key, ctx).1 matches ActionShape::Push(
            ScreenShape::Endpoints(list),
        ) && {
            &&& list.bundle == s.bundle->0
            &&& list.tag == Some(s.bundle->0.spec.tags[s.selected as int].name)
            &&& list.filter.len() == 0 && !list.filtering && list.selected == 0
        }),
        msg matches AppMsgShape::SpecLoaded { project, result } ==> match result {
            Ok(bundle) => project == s.project ==> tags::msg_step(s, msg, ctx).0.bundle == Some(
                bundle,
            ) && tags::msg_step(s, msg, ctx).1 is Stay,
            Err(_) => project == s.project ==> tags::msg_step(s, msg, ctx).1 is Pop
                && tags::msg_step(s, msg, ctx).2.modal is Some,
        },
        msg matches AppMsgShape::SpecLoaded { project, result } ==> project != s.project
            ==> tags::msg_step(s, msg, ctx) == (s, ActionShape::Stay, ctx),
{
}

/// Enter on a project opens its tags, and asks for its spec unless it is at hand;
/// `r` drops the spec, `l` logs in and `L` logs out.
pub proof fn law_project_keys(s: ProjectListShape, key: KeyEvent, ctx: CtxShape)
    requires
        s.selected < s.names.len(),
        ascending(ctx.specs),
    ensures
        ({
            let name = s.names[s.selected as int];
            let (after, action, then) = projects::key_step(s, key, ctx);
            &&& key.code == KeyCode::Enter ==> {
                &&& action matches ActionShape::Push(ScreenShape::Tags(view)) && view.project == name
                    && view.bundle is None
                &&& entry(ctx.specs, name) is Some ==> then == ctx
                &&& entry(ctx.specs, name) is None ==> then.effects == ctx.effects.push(
                    EffectShape::LoadSpec(name),
                )
            }
            &&& key.code == KeyCode::Char('r') ==> {
                &&& entry(then.specs, name) is None
                &&& forall|other: Seq<char>|
                    other != name ==> #[trigger] entry(then.specs, other) == entry(
                        ctx.specs,
                        other,
                    )
                &&& then.effects == ctx.effects
            }
            &&& key.code == KeyCode::Char('l') ==> then.effects == ctx.effects.push(
                EffectShape::Login(name),
            )
            &&& key.code == KeyCode::Char('L') ==> then.effects == ctx.effects.push(
                EffectShape::Logout(name),
            )
        }),
{
    let name = s.names[s.selected as int];
    law_no_entry_after_without(ctx.specs, name);
    assert forall|other: Seq<char>| other != name implies #[trigger] entry(
        without(ctx.specs, name),
        other,
    ) == entry(ctx.specs, other) by {
        law_without_keeps_others(ctx.specs, name, other);
    }
}

// ---------------------------------------------------------------- the response

/// The view takes the answer to its own request, scrolls, and shows headers on
/// demand.
pub proof fn law_response_view(
    s: ResponseViewShape,
    key: KeyEvent,
    result: Result<ApiResponseShape, Seq<char>>,
)
    ensures
        ({
            let after = response::msg_step(
                s,
                AppMsgShape::Response { request_seq: s.seq, result },
            );
            match result {
                Ok(answer) => after.state == ProgressShape::Done(answer),
                Err(message) => after.state == ProgressShape::Failed(message),
            }
        }),
        ({
            let (after, action) = response::key_step(s, key);
            &&& key.code == KeyCode::Char('h') ==> after.show_headers == !s.show_headers
            &&& key.code == KeyCode::Down && s.scroll < u16::MAX ==> after.scroll == s.scroll + 1
            &&& key.code == KeyCode::Up && s.scroll > 0 ==> after.scroll == s.scroll - 1
            &&& key.code == KeyCode::Up && s.scroll == 0 ==> after.scroll == 0
            &&& key.code == KeyCode::Esc ==> action is Pop
            &&& after.state == s.state && after.seq == s.seq
        }),
{
}

// ---------------------------------------------------------------- the app

/// Questions are answered in the order in which they came: keys go to the first
/// one, Enter answers it with what was typed, Esc without an answer.
pub proof fn law_first_question_is_answered(
    app: AppShape,
    key: KeyEvent,
    c: char,
)
    requires
        app.ctx.modal is None,
        app.ctx.prompts.len() > 0,
    ensures
        ({
            let (after, flow) = key_handled(app, key);
            let first = app.ctx.prompts[0];
            &&& after.stack == app.stack
            &&& flow is Continue
            &&& key.code == KeyCode::Enter ==> after.ctx.prompts == app.ctx.prompts.skip(1)
                && after.ctx.effects == app.ctx.effects.push(EffectShape::Answer(Some(first.text)))
            &&& key.code == KeyCode::Esc ==> after.ctx.prompts == app.ctx.prompts.skip(1)
                && after.ctx.effects == app.ctx.effects.push(EffectShape::Answer(None))
            &&& key.code == KeyCode::Char(c) ==> {
                &&& after.ctx.prompts.len() == app.ctx.prompts.len()
                &&& after.ctx.prompts[0].text == first.text.push(c)
                &&& after.ctx.prompts[0].label == first.label
                &&& after.ctx.prompts.skip(1) == app.ctx.prompts.skip(1)
                &&& after.ctx.effects == app.ctx.effects
            }
            &&& key.code == KeyCode::Backspace && first.text.len() > 0
                ==> after.ctx.prompts[0].text == first.text.drop_last()
        }),
{
    let (after, flow) = key_handled(app, key);
    if key.code == KeyCode::Char(c) {
        assert(after.ctx.prompts.skip(1) =~= app.ctx.prompts.skip(1));
    }
}

/// Messages arrive where they belong: errors open a modal, notices go to the status
/// line, questions queue up, and a loaded spec is kept under its project.
pub proof fn law_messages_arrive(app: AppShape, msg: AppMsg)
    requires
        app.stack.len() > 0,
        ascending(app.ctx.specs),
    ensures
        ({
            let (after, flow) = msg_handled(app, msg);
            &&& msg matches AppMsg::Error(message) ==> after.ctx.modal is Some
                && after.ctx.modal->0.body == message@ && after.stack == app.stack
            &&& msg matches AppMsg::Notice(message) ==> after.ctx.status == Some(message@)
                && after.stack == app.stack
            &&& msg matches AppMsg::Prompt { label, secret } ==> {
                &&& after.stack == app.stack
                &&& after.ctx.prompts.len() == app.ctx.prompts.len() + 1
                &&& after.ctx.prompts.take(app.ctx.prompts.len() as int) == app.ctx.prompts
                &&& after.ctx.prompts.last() == (PromptShape {
                    label: label@,
                    secret,
                    text: Seq::empty(),
                })
            }
            &&& msg matches AppMsg::SpecLoaded { project, result: Ok(bundle) } ==> {
                &&& entry(after.ctx.specs, project@) == Some(bundle)
                &&& forall|other: Seq<char>|
                    other != project@ ==> #[trigger] entry(after.ctx.specs, other) == entry(
                        app.ctx.specs,
                        other,
                    )
            }
        }),
{
    match msg {
        AppMsg::Prompt { label, secret } => {
            let (after, flow) = msg_handled(app, msg);
            assert(after.ctx.prompts.take(app.ctx.prompts.len() as int) =~= app.ctx.prompts);
        },
        AppMsg::SpecLoaded { project, result: Ok(bundle) } => {
            law_entry_after_placed(app.ctx.specs, project@, bundle);
            assert forall|other: Seq<char>| other != project@ implies #[trigger] entry(
                placed(app.ctx.specs, project@, bundle),
                other,
            ) == entry(app.ctx.specs, other) by {
                law_placed_keeps_others(app.ctx.specs, project@, bundle, other);
            }
        },
        _ => {},
    }
}

/// A screen that asks for another gets it on top; leaving the last one ends the
/// program, and an editor gets its text.
pub proof fn law_screens_stack_up(app: AppShape, screen: ScreenShape, seed: Seq<char>)
    requires
        app.stack.len() > 0,
    ensures
        settled(app, ActionShape::Push(screen)).0.stack == app.stack.push(screen),
        app.stack.len() > 1 ==> settled(app, ActionShape::Pop).0.stack == app.stack.drop_last()
            && settled(app, ActionShape::Pop).1 is Continue,
        app.stack.len() == 1 ==> settled(app, ActionShape::Pop).1 is Quit,
        settled(app, ActionShape::Quit).1 is Quit,
        settled(app, ActionShape::RunEditor(seed)) == (app, FlowShape::Edit(seed)),
        settled(app, ActionShape::Stay) == (app, FlowShape::Continue),
{
}

/// The TUI starts with the projects in the order of their names; a known project
/// named at the start is opened and loaded, an unknown one is an error.
pub proof fn law_start(config: ProjectsConfig, name: Seq<char>)
    ensures
        started(config, None).stack.len() == 1,
        started(config, None).ctx.effects.len() == 0 && started(config, None).ctx.modal is None,
        started(config, None).stack[0] matches ScreenShape::Projects(list) && list.names.len()
            == config.projects@.len() && forall|k: int|
            0 <= k < list.names.len() ==> #[trigger] list.names[k] == config.projects@[k].0,
        entry(config.projects@, name) is Some ==> {
            &&& started(config, Some(name)).stack.len() == 2
            &&& started(config, Some(name)).stack[1] matches ScreenShape::Tags(view)
                && view.project == name
            &&& started(config, Some(name)).ctx.effects == seq![EffectShape::LoadSpec(name)]
        },
        entry(config.projects@, name) is None ==> {
            &&& started(config, Some(name)).stack.len() == 1
            &&& started(config, Some(name)).ctx.modal is Some
            &&& started(config, Some(name)).ctx.effects.len() == 0
        },
{
}

/// A secret answer is shown as one mark per character, any other as it is.
pub proof fn law_secrets_are_masked(prompt: PromptShape)
    ensures
        shown_answer(prompt).len() == prompt.text.len(),
        prompt.secret ==> forall|k: int|
            0 <= k < prompt.text.len() ==> #[trigger] shown_answer(prompt)[k] == '•',
        !prompt.secret ==> shown_answer(prompt) == prompt.text,
{
}

/// An editor command is its words; without any it is `vi`.
pub proof fn law_editor_command(word: Seq<char>, rest: Seq<char>)
    requires
        solid(word),
    ensures
        command_words(word + seq![' '] + rest)[0] == word,
        command_words(word) == seq![word],
        command_words(Seq::empty()) == seq!["vi"@],
{
    law_words(word, ' ', rest);
}

/// A tag list without its spec takes the one that was loaded meanwhile; one that has
/// it keeps it.
pub proof fn law_loaded_spec_is_picked_up(s: TagListShape, key: KeyEvent, ctx: CtxShape)
    ensures
        s.bundle is Some ==> tags::picked_up(s, ctx) == s,
        s.bundle is None ==> match entry(ctx.specs, s.project) {
            Some(bundle) => {
                &&& tags::picked_up(s, ctx).bundle == Some(bundle@)
                &&& tags::key_step(s, key, ctx).0.bundle == Some(bundle@)
            },
            None => {
                &&& tags::key_step(s, key, ctx).0 == s
                &&& tags::key_step(s, key, ctx).1 is Pop <==> key.code == KeyCode::Esc
                &&& tags::key_step(s, key, ctx).1 is Pop || tags::key_step(s, key, ctx).1 is Stay
            },
        },
        tags::picked_up(s, ctx).project == s.project,
        tags::picked_up(s, ctx).selected == s.selected,
{
}

// ---------------------------------------------------------------- keys

/// `k` and `j` do what the arrows do, wherever no text is typed.
pub proof fn law_letters_move_too(
    f: RequestFormShape,
    list: EndpointListShape,
    tag: TagListShape,
    project: ProjectListShape,
    answer: ResponseViewShape,
    control: bool,
    ctx: CtxShape,
)
    requires
        f.editor is None,
        !list.filtering,
    ensures
        ({
            let up = KeyEvent { code: KeyCode::Up, control };
            let k = KeyEvent { code: KeyCode::Char('k'), control };
            let down = KeyEvent { code: KeyCode::Down, control };
            let j = KeyEvent { code: KeyCode::Char('j'), control };
            &&& form::key_step(f, k, ctx) == form::key_step(f, up, ctx)
            &&& form::key_step(f, j, ctx) == form::key_step(f, down, ctx)
            &&& endpoints::key_step(list, k) == endpoints::key_step(list, up)
            &&& endpoints::key_step(list, j) == endpoints::key_step(list, down)
            &&& tags::key_step(tag, k, ctx) == tags::key_step(tag, up, ctx)
            &&& tags::key_step(tag, j, ctx) == tags::key_step(tag, down, ctx)
            &&& projects::key_step(project, k, ctx) == projects::key_step(project, up, ctx)
            &&& projects::key_step(project, j, ctx) == projects::key_step(project, down, ctx)
            &&& response::key_step(answer, k) == response::key_step(answer, up)
            &&& response::key_step(answer, j) == response::key_step(answer, down)
        }),
{
}

/// In lists the arrows move the selection by one within what is shown, and nothing
/// else.
pub proof fn law_arrows_select(
    list: EndpointListShape,
    tag: TagListShape,
    project: ProjectListShape,
    ctx: CtxShape,
    control: bool,
)
    requires
        !list.filtering,
        tag.bundle is Some,
    ensures
        ({
            let down = KeyEvent { code: KeyCode::Down, control };
            let up = KeyEvent { code: KeyCode::Up, control };
            let shown = visible(list).len();
            let named = tag.bundle->0.spec.tags.len();
            &&& list.selected + 1 < shown ==> endpoints::key_step(list, down).0
                == (EndpointListShape { selected: list.selected + 1, ..list })
            &&& 0 < list.selected < shown ==> endpoints::key_step(list, up).0
                == (EndpointListShape { selected: (list.selected - 1) as nat, ..list })
            &&& tag.selected + 1 < named ==> tags::key_step(tag, down, ctx).0 == (TagListShape {
                selected: tag.selected + 1,
                ..tag
            })
            &&& 0 < tag.selected < named ==> tags::key_step(tag, up, ctx).0 == (TagListShape {
                selected: (tag.selected - 1) as nat,
                ..tag
            })
            &&& project.selected + 1 < project.names.len() ==> projects::key_step(
                project,
                down,
                ctx,
            ).0 == (ProjectListShape { selected: project.selected + 1, ..project })
            &&& 0 < project.selected < project.names.len() ==> projects::key_step(
                project,
                up,
                ctx,
            ).0 == (ProjectListShape { selected: (project.selected - 1) as nat, ..project })
        }),
{
}

/// Esc leaves every screen, and `/` starts a filter.
pub proof fn law_leaving(
    list: EndpointListShape,
    tag: TagListShape,
    project: ProjectListShape,
    answer: ResponseViewShape,
    key: KeyEvent,
    ctx: CtxShape,
)
    requires
        !list.filtering,
    ensures
        key.code == KeyCode::Esc ==> {
            &&& endpoints::key_step(list, key) == (list, ActionShape::Pop)
            &&& tags::key_step(tag, key, ctx).1 is Pop
            &&& projects::key_step(project, key, ctx) == (project, ActionShape::Pop, ctx)
            &&& response::key_step(answer, key) == (answer, ActionShape::Pop)
        },
        key.code == KeyCode::Char('/') ==> endpoints::key_step(list, key).0 == (
        EndpointListShape { filtering: true, ..list }),
        key.code == KeyCode::Char('r') || key.code == KeyCode::Char('q') ==> response::key_step(
            answer,
            key,
        ) == (answer, ActionShape::Pop),
{
}

/// Space and Tab do the same on a form, and so does Enter on rows that are not
/// typed; the arrows to the sides step through listed values.
pub proof fn law_other_toggles(s: RequestFormShape, control: bool, ctx: CtxShape)
    requires
        s.editor is None,
        s.form.cursor < s.form.rows.len(),
    ensures
        ({
            let kind = s.form.rows[s.form.cursor as int].kind;
            let space = form::key_step(s, KeyEvent { code: KeyCode::Char(' '), control }, ctx);
            &&& form::key_step(s, KeyEvent { code: KeyCode::Tab, control }, ctx) == space
            &&& kind is Bool || kind is Enum || kind is ObjectHeader || kind is ArrayHeader
                ==> form::key_step(s, KeyEvent { code: KeyCode::Enter, control }, ctx) == space
            &&& kind is Enum ==> {
                &&& form::key_step(s, KeyEvent { code: KeyCode::Left, control }, ctx) == space
                &&& form::key_step(s, KeyEvent { code: KeyCode::Right, control }, ctx) == space
            }
            &&& !(kind is Enum) ==> form::key_step(
                s,
                KeyEvent { code: KeyCode::Right, control },
                ctx,
            ).0 == s
        }),
{
}

/// Where nothing is in front of it, the screen on top takes the keys; the screens
/// below stay as they are. `q` ends the program on the last screen that has no use
/// for it.
pub proof fn law_keys_reach_the_top(app: AppShape, key: KeyEvent)
    requires
        app.ctx.modal is None,
        app.ctx.prompts.len() == 0,
        app.stack.len() > 0,
    ensures
        ({
            let ctx = CtxShape { status: None, ..app.ctx };
            let (top, action, then) = screens::key_step(app.stack.last(), key, ctx);
            let (after, flow) = key_handled(app, key);
            &&& after.ctx == then
            &&& action is Stay ==> after.stack.len() == app.stack.len() && after.stack.last()
                == top && after.stack.drop_last() == app.stack.drop_last()
            &&& action is Stay && key.code == KeyCode::Char('q') && app.stack.len() == 1
                ==> flow is Quit
            &&& action is Stay && key.code != KeyCode::Char('q') ==> flow is Continue
            &&& action is Push ==> after.stack.len() == app.stack.len() + 1
                && after.stack.drop_last().last() == top
        }),
{
    let ctx = CtxShape { status: None, ..app.ctx };
    let (top, action, then) = screens::key_step(app.stack.last(), key, ctx);
    let (after, flow) = key_handled(app, key);
    if action is Stay {
        assert(after.stack.drop_last() =~= app.stack.drop_last());
    }
    if action is Push {
        assert(after.stack.drop_last() =~= app.stack.drop_last().push(top));
    }
}

/// An answer reaches the view on top that waits for it, and no other.
pub proof fn law_answers_reach_their_view(
    app: AppShape,
    view: ResponseViewShape,
    seq: u64,
    result: Result<ApiResponse, String>,
)
    requires
        app.stack.len() > 0,
        app.stack.last() == ScreenShape::Response(view),
    ensures
        ({
            let (after, flow) = msg_handled(app, AppMsg::Response { request_seq: seq, result });
            &&& flow is Continue
            &&& after.ctx == app.ctx
            &&& after.stack.drop_last() == app.stack.drop_last()
            &&& after.stack.last() matches ScreenShape::Response(shown) && (seq == view.seq
                ==> shown.state == (match result {
                Ok(answer) => ProgressShape::Done(answer@),
                Err(message) => ProgressShape::Failed(message@),
            })) && (seq != view.seq ==> shown == view)
        }),
{
    let (after, flow) = msg_handled(app, AppMsg::Response { request_seq: seq, result });
    assert(after.stack.drop_last() =~= app.stack.drop_last());
}

/// Each kind of screen stays what it is and follows its own keys.
pub proof fn law_screens_follow_their_keys(
    f: RequestFormShape,
    list: EndpointListShape,
    tag: TagListShape,
    project: ProjectListShape,
    answer: ResponseViewShape,
    key: KeyEvent,
    ctx: CtxShape,
)
    ensures
        screens::key_step(ScreenShape::Form(f), key, ctx).0 == ScreenShape::Form(
            form::key_step(f, key, ctx).0,
        ),
        screens::key_step(ScreenShape::Form(f), key, ctx).1 == form::key_step(f, key, ctx).1,
        screens::key_step(ScreenShape::Form(f), key, ctx).2 == form::key_step(f, key, ctx).2,
        screens::key_step(ScreenShape::Endpoints(list), key, ctx) == (
            ScreenShape::Endpoints(endpoints::key_step(list, key).0),
            endpoints::key_step(list, key).1,
            ctx,
        ),
        screens::key_step(ScreenShape::Tags(tag), key, ctx) == (
            ScreenShape::Tags(tags::key_step(tag, key, ctx).0),
            tags::key_step(tag, key, ctx).1,
            ctx,
        ),
        screens::key_step(ScreenShape::Projects(project), key, ctx).0 == ScreenShape::Projects(
            projects::key_step(project, key, ctx).0,
        ),
        screens::key_step(ScreenShape::Projects(project), key, ctx).2 == projects::key_step(
            project,
            key,
            ctx,
        ).2,
        screens::key_step(ScreenShape::Response(answer), key, ctx) == (
            ScreenShape::Response(response::key_step(answer, key).0),
            response::key_step(answer, key).1,
            ctx,
        ),
{
}

} // verus!
