//! The conversations of the program, and what becomes of them.

use vstd::prelude::*;
use vstd::string::*;

use crate::agent::{tool_views, ToolSpec};
use crate::app_model::{
    first_label, followed_up, index_of_tab, lemma_index_of_tab, target_index, target_text,
    AfterStart, AppModel, EffectModel, PurposeModel,
};
use crate::command_palette::{CommandPaletteState, TabTarget};
use crate::history::{HistoryEntry, Mode, ModelLoadStatus, TurnModel};
use crate::replay::{lemma_due_count_fits, replay_range};
use crate::request::{build_request_for_turn, request_for, TurnRequest};
use crate::runtime::{config_ids, RuntimeRegistry};
use crate::text::{decimal_text, joined, same_text, texts};
use crate::thread::{
    find_history_index, set_loading_status, tab_labels, thread_models, turn_changed, ComposeTarget,
    ThreadJob, ThreadModel, ThreadState,
};

verus! {

/// The state of the program.
#[derive(Debug)]
pub struct AppState {
    pub threads: Vec<ThreadState>,
    pub active_thread_idx: usize,
    pub mode: Mode,
    pub command_palette: CommandPaletteState,
    pub next_history_id: u64,
    pub next_tab_id: usize,
    pub command_edit_target: Option<u64>,
    pub inline_command_placeholder: Option<(u64, usize)>,
    pub delete_target_id: Option<u64>,
}

impl View for AppState {
    type V = AppModel;

    open spec fn view(&self) -> AppModel {
        AppModel {
            threads: thread_models(self.threads@),
            active: self.active_thread_idx,
            mode: self.mode,
            palette: self.command_palette.model(),
            next_history_id: self.next_history_id,
            next_tab_id: self.next_tab_id,
            command_edit_target: self.command_edit_target,
            inline_command_placeholder: self.inline_command_placeholder,
            delete_target_id: self.delete_target_id,
        }
    }
}

/// Why a connection is opened.
#[derive(Debug)]
pub enum OpenPurpose {
    SwitchModel,
    NewTab,
    RunJob { job: ThreadJob, turn: TurnRequest, after: AfterStart },
}

impl View for OpenPurpose {
    type V = PurposeModel;

    open spec fn view(&self) -> PurposeModel {
        match *self {
            OpenPurpose::SwitchModel => PurposeModel::SwitchModel,
            OpenPurpose::NewTab => PurposeModel::NewTab,
            OpenPurpose::RunJob { job, turn, after } => PurposeModel::RunJob {
                job,
                turn: turn@,
                after,
            },
        }
    }
}

/// What has to be done outside.
#[derive(Debug)]
pub enum Effect {
    /// Nothing.
    Continue,
    /// The program ends.
    Quit,
    /// The program ends with an error.
    Fail(String),
    /// A connection to a model is opened for a conversation.
    OpenConnection { thread_index: usize, model_id: String, purpose: OpenPurpose },
    /// A model is asked for a turn.
    StartStream { thread_index: usize, job: ThreadJob, turn: TurnRequest },
    /// A request that runs is interrupted.
    Interrupt { thread_index: usize, model_id: String, sequence_number: u64 },
    /// A text goes to the clipboard.
    CopyText(String),
    /// The connections of a conversation that is gone are closed.
    CloseConnections { tab_id: usize },
    /// A turn is reported to have failed.
    ReportError { tab_id: usize, assistant_entry_id: u64, error: String },
}

impl View for Effect {
    type V = EffectModel;

    open spec fn view(&self) -> EffectModel {
        match *self {
            Effect::Continue => EffectModel::Continue,
            Effect::Quit => EffectModel::Quit,
            Effect::Fail(message) => EffectModel::Fail(message@),
            Effect::OpenConnection { thread_index, model_id, purpose } =>
            EffectModel::OpenConnection { thread_index, model_id: model_id@, purpose: purpose@ },
            Effect::StartStream { thread_index, job, turn } => EffectModel::StartStream {
                thread_index,
                job,
                turn: turn@,
            },
            Effect::Interrupt { thread_index, model_id, sequence_number } =>
            EffectModel::Interrupt { thread_index, model_id: model_id@, sequence_number },
            Effect::CopyText(text) => EffectModel::CopyText(text@),
            Effect::CloseConnections { tab_id } => EffectModel::CloseConnections { tab_id },
            Effect::ReportError { tab_id, assistant_entry_id, error } => EffectModel::ReportError {
                tab_id,
                assistant_entry_id,
                error: error@,
            },
        }
    }
}

impl AppState {
    /// Something is shown, and all parts are in order.
    pub open spec fn wf(&self) -> bool {
        &&& self@.wf()
        &&& forall|i: int| 0 <= i < self.threads@.len() ==> (#[trigger] self.threads@[i]).wf()
    }

    /// The program at its start: one conversation, in which writing begins.
    pub fn new(registry: &RuntimeRegistry, model_id: &str, tools_enabled: bool) -> (app: Self)
        ensures
            app.wf(),
            app@ == AppModel::started(config_ids(registry@), model_id@, tools_enabled),
            app@.settled(),
            app@.has_room(),
    {
        let threads = vec![ThreadState::new(1, model_id, tools_enabled)];
        let app = AppState {
            threads,
            active_thread_idx: 0,
            mode: Mode::Insert,
            command_palette: CommandPaletteState::new(registry.ids()),
            next_history_id: 1,
            next_tab_id: 2,
            command_edit_target: None,
            inline_command_placeholder: None,
            delete_target_id: None,
        };
        assert(app@ =~= AppModel::started(config_ids(registry@), model_id@, tools_enabled));
        app
    }

    /// Whether there are numbers left for what one event can add.
    pub fn has_room(&self) -> (yes: bool)
        ensures
            yes == self@.has_room(),
    {
        if self.next_tab_id == usize::MAX || self.threads.len() == usize::MAX {
            return false;
        }
        let mut i: usize = 0;
        while i < self.threads.len()
            invariant
                i <= self.threads@.len(),
                forall|k: int|
                    0 <= k < i ==> self.next_history_id + (
                    #[trigger] self@.threads[k]).history.len() + 4 <= u64::MAX,
            decreases self.threads@.len() - i,
        {
            let len: usize = self.threads[i].history.len();
            assert(self@.threads[i as int].history.len() == len);
            if self.next_history_id as u128 + len as u128 + 4 > u64::MAX as u128 {
                return false;
            }
            i = i + 1;
        }
        true
    }
}

/// The conversation that is shown.
pub fn active_thread(app: &AppState) -> (thread: &ThreadState)
    requires
        app.wf(),
    ensures
        thread@ == app@.thread(),
        thread.wf(),
        *thread == app.threads@[app.active_thread_idx as int],
{
    &app.threads[app.active_thread_idx]
}

/// Finds the conversation with a tab number.
pub fn thread_index_by_tab_id(app: &AppState, tab_id: usize) -> (index: Option<usize>)
    ensures
        app@.index_of_tab(tab_id) == (match index {
            Some(at) => Some(at as int),
            None => None::<int>,
        }),
        index matches Some(at) ==> at < app.threads@.len(),
{
    find_tab(&app.threads, tab_id)
}

/// Finds the conversation with a tab number.
fn find_tab(threads: &Vec<ThreadState>, tab_id: usize) -> (index: Option<usize>)
    ensures
        index_of_tab(thread_models(threads@), tab_id) == (match index {
            Some(at) => Some(at as int),
            None => None::<int>,
        }),
        index matches Some(at) ==> at < threads@.len(),
{
    let ghost all = thread_models(threads@);
    let mut at: usize = 0;
    while at < threads.len()
        invariant
            at <= threads@.len(),
            all == thread_models(threads@),
            forall|k: int| 0 <= k < at ==> (#[trigger] all[k]).tab_id != tab_id,
        decreases threads@.len() - at,
    {
        assert(all[at as int].tab_id == threads@[at as int].tab_id);
        if threads[at].tab_id == tab_id {
            proof {
                lemma_index_of_tab(all, tab_id);
                let found = index_of_tab(all, tab_id).unwrap();
                if found < at {
                    assert(all[found].tab_id != tab_id);
                }
                if at < found {
                    assert(all[at as int].tab_id != tab_id);
                }
            }
            return Some(at);
        }
        at = at + 1;
    }
    proof {
        lemma_index_of_tab(all, tab_id);
    }
    None
}

/// Finds a label.
fn find_label(labels: &Vec<String>, name: &str) -> (index: Option<usize>)
    ensures
        first_label(texts(labels@), name@) == (match index {
            Some(at) => Some(at as int),
            None => None::<int>,
        }),
        index matches Some(at) ==> at < labels@.len(),
{
    let ghost all = texts(labels@);
    let mut at: usize = 0;
    assert(all.skip(0) =~= all);
    while at < labels.len()
        invariant
            at <= labels@.len(),
            all == texts(labels@),
            first_label(all, name@) == (match first_label(all.skip(at as int), name@) {
                Some(k) => Some(at + k),
                None => None::<int>,
            }),
        decreases labels@.len() - at,
    {
        assert(all.skip(at as int)[0] == labels@[at as int]@);
        if same_text(labels[at].as_str(), name) {
            return Some(at);
        }
        assert(all.skip(at as int).drop_first() =~= all.skip(at + 1));
        at = at + 1;
    }
    None
}

/// A target in words.
pub fn render_tab_target(target: &TabTarget) -> (text: String)
    ensures
        text@ == target_text(target@),
{
    match target {
        TabTarget::Id(id) => decimal_text(*id as u64),
        TabTarget::Name(name) => name.clone(),
    }
}

/// Finds the conversation that a target names.
pub fn resolve_tab_target(threads: &Vec<ThreadState>, target: &TabTarget) -> (index: Option<usize>)
    ensures
        target_index(thread_models(threads@), target@) == (match index {
            Some(at) => Some(at as int),
            None => None::<int>,
        }),
        index matches Some(at) ==> at < threads@.len(),
{
    match target {
        TabTarget::Id(id) => find_tab(threads, *id),
        TabTarget::Name(name) => {
            let labels = tab_labels(threads);
            assert(labels@.len() == texts(labels@).len());
            find_label(&labels, name.as_str())
        },
    }
}

/// A number for a new entry.
pub fn next_history_id(app: &mut AppState) -> (id: u64)
    requires
        old(app).wf(),
        old(app)@.next_history_id < u64::MAX,
    ensures
        final(app).wf(),
        id == old(app)@.next_history_id,
        final(app)@ == old(app)@.ids_taken(1),
{
    let id: u64 = app.next_history_id;
    app.next_history_id = id + 1;
    id
}

/// Begins writing at the end of the conversation.
pub fn open_footer_compose(app: &mut AppState)
    requires
        old(app).wf(),
    ensures
        final(app).wf(),
        final(app)@ == old(app)@.footer_opened(),
{
    let at: usize = app.active_thread_idx;
    app.threads[at].selected_chat_entry = None;
    app.threads[at].compose_target = ComposeTarget::AppendBottom;
    app.threads[at].draft = String::new();
    app.mode = Mode::Insert;
    assert(app.threads@[at as int].draft@ =~= Seq::<char>::empty());
    assert(app@.threads =~= old(app)@.footer_opened().threads);
}

/// Shows the conversation at a place.
pub fn activate_thread_index(app: &mut AppState, index: usize)
    requires
        old(app).wf(),
    ensures
        final(app).wf(),
        final(app)@ == old(app)@.activated(index as int),
{
    let count: usize = app.threads.len();
    let at: usize = if index < count {
        index
    } else {
        count - 1
    };
    app.active_thread_idx = at;
    app.threads[at].has_unseen_changes = false;
    assert(app@.threads =~= old(app)@.activated(index as int).threads);
}

/// Shows a conversation further on or back.
pub fn cycle_active_tab_relative(app: &mut AppState, delta: isize)
    requires
        old(app).wf(),
    ensures
        final(app).wf(),
        final(app)@ == old(app)@.cycled(delta as int),
{
    let count: usize = app.threads.len();
    let at: usize = app.active_thread_idx;
    let wide: u128 = count as u128;
    let next: u128 = if delta >= 0 {
        let steps: u128 = (delta as u128) % wide;
        let sum: u128 = at as u128 + steps;
        proof {
            vstd::arithmetic::div_mod::lemma_add_mod_noop_right(
                at as int,
                delta as int,
                count as int,
            );
            lemma_wrap(sum as int, count as int);
        }
        if sum >= wide {
            sum - wide
        } else {
            sum
        }
    } else {
        let back: u128 = ((-(delta as i128)) as u128) % wide;
        let sum: u128 = at as u128 + wide - back;
        proof {
            vstd::arithmetic::div_mod::lemma_sub_mod_noop_right(
                at as int,
                -(delta as int),
                count as int,
            );
            vstd::arithmetic::div_mod::lemma_mod_add_multiples_vanish(
                at - back,
                count as int,
            );
            lemma_wrap(sum as int, count as int);
        }
        if sum >= wide {
            sum - wide
        } else {
            sum
        }
    };
    activate_thread_index(app, next as usize);
}

proof fn lemma_wrap(sum: int, count: int)
    requires
        0 < count,
        0 <= sum < 2 * count,
    ensures
        sum % count == if sum >= count {
            sum - count
        } else {
            sum
        },
{
    if sum >= count {
        vstd::arithmetic::div_mod::lemma_mod_add_multiples_vanish(sum - count, count);
        vstd::arithmetic::div_mod::lemma_small_mod((sum - count) as nat, count as nat);
    } else {
        vstd::arithmetic::div_mod::lemma_small_mod(sum as nat, count as nat);
    }
}

/// Shows the next conversation.
pub fn cycle_active_tab(app: &mut AppState)
    requires
        old(app).wf(),
    ensures
        final(app).wf(),
        final(app)@ == old(app)@.cycled(1),
{
    cycle_active_tab_relative(app, 1);
}

/// Ends commands, and begins writing.
pub fn close_command_mode(app: &mut AppState)
    requires
        old(app).wf(),
    ensures
        final(app).wf(),
        final(app)@ == old(app)@.command_mode_closed(),
{
    app.command_palette.close();
    app.command_edit_target = None;
    app.inline_command_placeholder = None;
    open_footer_compose(app);
}

/// Hands the first turn that waits in a conversation to its model.
pub fn start_next_job_for_thread(
    app: &mut AppState,
    thread_index: usize,
    tools: &[ToolSpec],
    now: u64,
) -> (effect: Effect)
    requires
        old(app).wf(),
        thread_index < old(app)@.threads.len(),
    ensures
        final(app).wf(),
        (final(app)@, effect@) == old(app)@.job_started(
            thread_index as int,
            tool_views(tools@),
            now,
        ),
{
    let ghost was = app@;
    let ghost at = thread_index as int;
    assert(was.threads[at] == app.threads@[at]@);
    if app.threads[thread_index].running_job {
        return Effect::Continue;
    }
    let job = match app.threads[thread_index].queue.pop_front() {
        Some(job) => job,
        None => {
            assert(app@.threads =~= was.threads);
            return Effect::Continue;
        },
    };
    let ghost taken = was.with_thread(
        at,
        ThreadModel { queue: was.threads[at].queue.drop_first(), ..was.threads[at] },
    );
    assert(app.threads@[at].queue@ =~= was.threads[at].queue.drop_first());
    assert(app@.threads =~= taken.threads);
    assert(request_for(app.threads@[at]@, job.assistant_entry_id, tool_views(tools@))
        == request_for(was.threads[at], job.assistant_entry_id, tool_views(tools@)));
    let turn = match build_request_for_turn(
        &app.threads[thread_index],
        job.assistant_entry_id,
        tools,
    ) {
        Ok(turn) => turn,
        Err(message) => return Effect::Fail(message),
    };
    if app.threads[thread_index].connections.contains(turn.config.model_id.as_str()) {
        prepare_stream(app, thread_index, turn.config.model_id.as_str(), now);
        Effect::StartStream { thread_index, job, turn }
    } else {
        Effect::OpenConnection {
            thread_index,
            model_id: turn.config.model_id.clone(),
            purpose: OpenPurpose::RunJob { job, turn, after: AfterStart::Nothing },
        }
    }
}

/// Notes that the loading of a model begins, where it is not loaded.
fn prepare_stream(app: &mut AppState, thread_index: usize, model_id: &str, now: u64)
    requires
        old(app).wf(),
        thread_index < old(app)@.threads.len(),
    ensures
        final(app).wf(),
        final(app)@ == old(app)@.stream_prepared(thread_index as int, model_id@, now),
{
    if !app.threads[thread_index].loaded_models.contains(model_id) {
        set_loading_status(
            &mut app.threads[thread_index],
            model_id,
            ModelLoadStatus::Loading { started_at: now },
        );
        assert(app@.threads =~= old(app)@.stream_prepared(
            thread_index as int,
            model_id@,
            now,
        ).threads);
    }
}

/// Hands the first turn that waits in the conversation that is shown to its
/// model.
pub fn maybe_start_next_job(app: &mut AppState, tools: &[ToolSpec], now: u64) -> (effect: Effect)
    requires
        old(app).wf(),
    ensures
        final(app).wf(),
        (final(app)@, effect@) == old(app)@.active_job_started(tool_views(tools@), now),
{
    let tab_id: usize = app.threads[app.active_thread_idx].tab_id;
    match thread_index_by_tab_id(app, tab_id) {
        Some(thread_index) => start_next_job_for_thread(app, thread_index, tools, now),
        None => Effect::Continue,
    }
}

/// Goes on writing at the end of the conversation.
fn write_on(app: &mut AppState)
    requires
        old(app).wf(),
    ensures
        final(app).wf(),
        final(app)@ == old(app)@.writing_on(),
{
    let active: usize = app.active_thread_idx;
    app.threads[active].compose_target = ComposeTarget::AppendBottom;
    app.mode = Mode::Insert;
    assert(app@ =~= old(app)@.writing_on());
}

/// Does what happens after a turn was sent.
fn follow_start(app: &mut AppState, after: AfterStart)
    requires
        old(app).wf(),
    ensures
        final(app).wf(),
        final(app)@ == old(app)@.followed(after),
{
    match after {
        AfterStart::Nothing => {},
        AfterStart::CloseCommand => close_command_mode(app),
        AfterStart::WriteOn => write_on(app),
        AfterStart::EndDeletion => {
            app.mode = Mode::Normal;
        },
    }
}

/// Does what happens after a turn was sent, at once or once its connection is open;
/// does not where the turn could not be sent.
pub fn follow_up(app: &mut AppState, effect: Effect, after: AfterStart) -> (next: Effect)
    requires
        old(app).wf(),
    ensures
        final(app).wf(),
        (final(app)@, next@) == followed_up((old(app)@, effect@), after),
{
    match effect {
        Effect::Fail(message) => Effect::Fail(message),
        Effect::OpenConnection {
            thread_index,
            model_id,
            purpose: OpenPurpose::RunJob { job, turn, .. },
        } => Effect::OpenConnection {
            thread_index,
            model_id,
            purpose: OpenPurpose::RunJob { job, turn, after },
        },
        effect => {
            follow_start(app, after);
            effect
        },
    }
}

/// Goes on with a turn once the connection to its model is open, or could not be
/// had.
pub fn resume_job(
    app: &mut AppState,
    thread_index: usize,
    job: ThreadJob,
    turn: TurnRequest,
    after: AfterStart,
    opened: Result<(), String>,
    now: u64,
) -> (effect: Effect)
    requires
        old(app).wf(),
        thread_index < old(app)@.threads.len(),
    ensures
        final(app).wf(),
        (final(app)@, effect@) == old(app)@.job_resumed(
            thread_index as int,
            job,
            turn@,
            after,
            match opened {
                Ok(()) => Ok(()),
                Err(message) => Err(message@),
            },
            now,
        ),
{
    match opened {
        Ok(()) => {
            note_connection(app, thread_index, turn.config.model_id.as_str());
            prepare_stream(app, thread_index, turn.config.model_id.as_str(), now);
            follow_start(app, after);
            Effect::StartStream { thread_index, job, turn }
        },
        Err(message) => Effect::Fail(message),
    }
}

/// Notes that a connection is open in a conversation.
pub(crate) fn note_connection(app: &mut AppState, thread_index: usize, model_id: &str)
    requires
        old(app).wf(),
        thread_index < old(app)@.threads.len(),
    ensures
        final(app).wf(),
        final(app)@ == old(app)@.connected(thread_index as int, model_id@),
{
    let _ = app.threads[thread_index].connections.insert(model_id);
    assert(app@.threads =~= old(app)@.connected(thread_index as int, model_id@).threads);
}

/// Notes that a model answers a turn, or that the stream could not be had.
pub fn resume_stream(
    app: &mut AppState,
    thread_index: usize,
    job: ThreadJob,
    answer: Result<u64, String>,
) -> (effect: Effect)
    requires
        old(app).wf(),
        thread_index < old(app)@.threads.len(),
    ensures
        final(app).wf(),
        (final(app)@, effect@) == old(app)@.stream_answered(
            thread_index as int,
            job,
            match answer {
                Ok(sequence_number) => Ok(sequence_number),
                Err(message) => Err(message@),
            },
        ),
{
    let ghost was = app@;
    let ghost at = thread_index as int;
    assert(was.threads[at] == app.threads@[at]@);
    match answer {
        Err(message) => {
            app.threads[thread_index].running_job = false;
            app.threads[thread_index].running_assistant_id = None;
            app.threads[thread_index].queue.push_front(job);
            let ghost expected = was.stream_answered(at, job, Err(message@)).0;
            assert(app.threads@[at].queue@ =~= seq![job] + was.threads[at].queue);
            assert(app@.threads =~= expected.threads);
            Effect::ReportError {
                tab_id: app.threads[thread_index].tab_id,
                assistant_entry_id: job.assistant_entry_id,
                error: joined("runtime error: ", message.as_str()),
            }
        },
        Ok(sequence_number) => {
            app.threads[thread_index].running_job = true;
            app.threads[thread_index].running_assistant_id = Some(job.assistant_entry_id);
            let ghost expected = was.stream_answered(at, job, Ok(sequence_number)).0;
            let ghost change = |turn: TurnModel|
                TurnModel { sequence_number: Some(sequence_number), ..turn };
            let found = find_history_index(&app.threads[thread_index], job.assistant_entry_id);
            if let Some(index) = found {
                if let HistoryEntry::Assistant { sequence_number: entry_sequence, .. } =
                    &mut app.threads[thread_index].history[index].entry {
                    *entry_sequence = Some(sequence_number);
                }
            }
            assert(app.threads@[at]@.history =~= turn_changed(
                was.threads[at].history,
                job.assistant_entry_id,
                change,
            ));
            assert(app@.threads =~= expected.threads);
            Effect::Continue
        },
    }
}

/// Queues the turns of a range of the conversation that is shown, to be answered
/// anew.
pub fn enqueue_replay_from_index(app: &mut AppState, start: usize, end: usize, now: u64)
    requires
        old(app).wf(),
        end <= old(app)@.thread().history.len(),
        old(app)@.next_history_id + old(app)@.thread().history.len() <= u64::MAX,
    ensures
        final(app).wf(),
        final(app)@ == old(app)@.replay_queued(start as int, end as int, now),
{
    let at: usize = app.active_thread_idx;
    let first_id: u64 = app.next_history_id;
    assert(app@.thread() == app.threads@[at as int]@);
    let used: u64 = replay_range(&mut app.threads[at], start, end, first_id, now);
    proof {
        let thread = old(app)@.thread();
        lemma_due_count_fits(
            thread.history,
            thread.loaded_models,
            start as int,
            end as int,
        );
    }
    app.next_history_id = first_id + used;
    assert(app@.threads =~= old(app)@.replay_queued(start as int, end as int, now).threads);
}

} // verus!
