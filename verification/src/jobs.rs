//! Turns that models answer: what is heard of them, and what that does.

use vstd::prelude::*;
use vstd::string::*;

use crate::agent::{
    call_views, callouts_for, calls_in, parsed_tool_callouts, tool_names, tool_views, ToolFormat,
    ToolSpec, ToolView,
};
use crate::app_model::{AppModel, EffectModel};
use crate::history::{
    block_models, blocks_to_raw_text, raw_text, AssistantStatus, BlockModel, EntryModel,
    HistoryEntry, HistoryMeta, ItemModel, MarkdownBlock, MetaModel, ModelLoadStatus, TurnModel,
};
use crate::runtime::{ErrorView, RuntimeError, RuntimeStatus, StatusView};
use crate::session::{
    next_history_id, start_next_job_for_thread, thread_index_by_tab_id, AppState, Effect,
};
use crate::text::{joined, texts};
use crate::thread::{
    answered, answering, finalize_assistant, finalize_interrupted_assistant, find_history_index,
    index_of_id, interrupted, loading_set, merge_tool_call_callout, push_history_entry,
    replace_assistant_blocks, set_assistant_status, set_assistant_tool_callout, set_loading_status,
    tool_noted, turn_changed, with_history, ThreadModel,
};

verus! {

/// An answer as far as it is there, and whether it calls a tool.
#[derive(Debug, PartialEq, Eq)]
pub struct ParsedMarkdown {
    pub blocks: Vec<MarkdownBlock>,
    pub tool_call_detected: bool,
}

/// An answer by its contents.
pub struct MarkdownModel {
    pub blocks: Seq<BlockModel>,
    pub tool_call_detected: bool,
}

impl View for ParsedMarkdown {
    type V = MarkdownModel;

    open spec fn view(&self) -> MarkdownModel {
        MarkdownModel {
            blocks: block_models(self.blocks@),
            tool_call_detected: self.tool_call_detected,
        }
    }
}

/// An answer of blocks, and whether a call of a tool can be read in its text.
pub open spec fn answer_of(blocks: Seq<BlockModel>, format: ToolFormat) -> MarkdownModel {
    MarkdownModel { blocks, tool_call_detected: calls_in(format, raw_text(blocks)).len() > 0 }
}

/// An answer of blocks. It calls a tool where a call can be read in its text.
pub fn parsed_markdown(blocks: Vec<MarkdownBlock>, format: ToolFormat) -> (markdown: ParsedMarkdown)
    ensures
        markdown@ == answer_of(block_models(blocks@), format),
{
    let raw = blocks_to_raw_text(&blocks);
    let calls = format.parse(raw.as_str());
    assert(call_views(calls@).len() == calls@.len());
    ParsedMarkdown { blocks, tool_call_detected: calls.len() > 0 }
}

/// What is heard of a turn.
#[derive(Debug, PartialEq, Eq)]
pub enum JobEvent {
    Status { tab_id: usize, assistant_entry_id: u64, status: RuntimeStatus },
    Chunk { tab_id: usize, assistant_entry_id: u64, markdown: ParsedMarkdown },
    Complete {
        tab_id: usize,
        assistant_entry_id: u64,
        markdown: ParsedMarkdown,
        callouts: Vec<String>,
    },
    Interrupted { tab_id: usize, assistant_entry_id: u64, markdown: ParsedMarkdown },
    Error { tab_id: usize, assistant_entry_id: u64, error: String },
}

/// What is heard of a turn, by its contents.
pub enum JobModel {
    Status { tab_id: usize, assistant_entry_id: u64, status: StatusView },
    Chunk { tab_id: usize, assistant_entry_id: u64, markdown: MarkdownModel },
    Complete {
        tab_id: usize,
        assistant_entry_id: u64,
        markdown: MarkdownModel,
        callouts: Seq<Seq<char>>,
    },
    Interrupted { tab_id: usize, assistant_entry_id: u64, markdown: MarkdownModel },
    Error { tab_id: usize, assistant_entry_id: u64, error: Seq<char> },
}

impl View for JobEvent {
    type V = JobModel;

    open spec fn view(&self) -> JobModel {
        match *self {
            JobEvent::Status { tab_id, assistant_entry_id, status } => JobModel::Status {
                tab_id,
                assistant_entry_id,
                status: status@,
            },
            JobEvent::Chunk { tab_id, assistant_entry_id, markdown } => JobModel::Chunk {
                tab_id,
                assistant_entry_id,
                markdown: markdown@,
            },
            JobEvent::Complete { tab_id, assistant_entry_id, markdown, callouts } =>
            JobModel::Complete {
                tab_id,
                assistant_entry_id,
                markdown: markdown@,
                callouts: texts(callouts@),
            },
            JobEvent::Interrupted { tab_id, assistant_entry_id, markdown } =>
            JobModel::Interrupted { tab_id, assistant_entry_id, markdown: markdown@ },
            JobEvent::Error { tab_id, assistant_entry_id, error } => JobModel::Error {
                tab_id,
                assistant_entry_id,
                error: error@,
            },
        }
    }
}

impl JobModel {
    /// The conversation that the turn belongs to.
    pub open spec fn tab_id(self) -> usize {
        match self {
            JobModel::Status { tab_id, .. } => tab_id,
            JobModel::Chunk { tab_id, .. } => tab_id,
            JobModel::Complete { tab_id, .. } => tab_id,
            JobModel::Interrupted { tab_id, .. } => tab_id,
            JobModel::Error { tab_id, .. } => tab_id,
        }
    }

    /// The turn.
    pub open spec fn turn_id(self) -> u64 {
        match self {
            JobModel::Status { assistant_entry_id, .. } => assistant_entry_id,
            JobModel::Chunk { assistant_entry_id, .. } => assistant_entry_id,
            JobModel::Complete { assistant_entry_id, .. } => assistant_entry_id,
            JobModel::Interrupted { assistant_entry_id, .. } => assistant_entry_id,
            JobModel::Error { assistant_entry_id, .. } => assistant_entry_id,
        }
    }
}

impl JobEvent {
    /// The conversation that the turn belongs to.
    pub fn tab_id(&self) -> (tab_id: usize)
        ensures
            tab_id == self@.tab_id(),
    {
        match self {
            JobEvent::Status { tab_id, .. } => *tab_id,
            JobEvent::Chunk { tab_id, .. } => *tab_id,
            JobEvent::Complete { tab_id, .. } => *tab_id,
            JobEvent::Interrupted { tab_id, .. } => *tab_id,
            JobEvent::Error { tab_id, .. } => *tab_id,
        }
    }
}

/// What comes out of the stream of a turn.
#[derive(Debug, PartialEq, Eq)]
pub enum StreamItem {
    Chunk,
    Complete,
    Interrupted,
    Error(RuntimeError),
    /// The stream ended without an end.
    Closed,
}

/// What comes out of the stream, by its contents.
pub enum ItemView {
    Chunk,
    Complete,
    Interrupted,
    Error(ErrorView),
    Closed,
}

impl View for StreamItem {
    type V = ItemView;

    open spec fn view(&self) -> ItemView {
        match *self {
            StreamItem::Chunk => ItemView::Chunk,
            StreamItem::Complete => ItemView::Complete,
            StreamItem::Interrupted => ItemView::Interrupted,
            StreamItem::Error(error) => ItemView::Error(error@),
            StreamItem::Closed => ItemView::Closed,
        }
    }
}

/// What a piece of the stream says of its turn, given the answer up to there.
/// The tool calls of a complete answer are shown where tools are enabled.
pub open spec fn heard(
    tab_id: usize,
    assistant_entry_id: u64,
    item: ItemView,
    markdown: MarkdownModel,
    tools_enabled: bool,
    format: ToolFormat,
    tools: Seq<ToolView>,
) -> JobModel {
    match item {
        ItemView::Chunk => JobModel::Chunk { tab_id, assistant_entry_id, markdown },
        ItemView::Complete => JobModel::Complete {
            tab_id,
            assistant_entry_id,
            markdown,
            callouts: if tools_enabled {
                callouts_for(calls_in(format, raw_text(markdown.blocks)), tool_names(tools))
            } else {
                Seq::empty()
            },
        },
        ItemView::Interrupted => JobModel::Interrupted { tab_id, assistant_entry_id, markdown },
        ItemView::Error(error) => JobModel::Error {
            tab_id,
            assistant_entry_id,
            error: "runtime error: "@ + error.message(),
        },
        ItemView::Closed => JobModel::Error {
            tab_id,
            assistant_entry_id,
            error: "runtime stream closed"@,
        },
    }
}

/// Whether a piece of the stream is its last.
pub fn ends_stream(item: &StreamItem) -> (ends: bool)
    ensures
        ends == !(item@ is Chunk),
{
    match item {
        StreamItem::Chunk => false,
        _ => true,
    }
}

/// Decides what a piece of the stream says of its turn.
pub fn job_event_for(
    tab_id: usize,
    assistant_entry_id: u64,
    item: StreamItem,
    markdown: ParsedMarkdown,
    tools_enabled: bool,
    tool_format: ToolFormat,
    tools: &[ToolSpec],
) -> (event: JobEvent)
    ensures
        event@ == heard(
            tab_id,
            assistant_entry_id,
            item@,
            markdown@,
            tools_enabled,
            tool_format,
            tool_views(tools@),
        ),
{
    match item {
        StreamItem::Chunk => JobEvent::Chunk { tab_id, assistant_entry_id, markdown },
        StreamItem::Complete => {
            let callouts = if tools_enabled {
                let raw = blocks_to_raw_text(&markdown.blocks);
                parsed_tool_callouts(&tool_format.parse(raw.as_str()), tools)
            } else {
                Vec::new()
            };
            assert(!tools_enabled ==> texts(callouts@) =~= Seq::<Seq<char>>::empty());
            JobEvent::Complete { tab_id, assistant_entry_id, markdown, callouts }
        },
        StreamItem::Interrupted => JobEvent::Interrupted { tab_id, assistant_entry_id, markdown },
        StreamItem::Error(error) => JobEvent::Error {
            tab_id,
            assistant_entry_id,
            error: joined("runtime error: ", error.message().as_str()),
        },
        StreamItem::Closed => JobEvent::Error {
            tab_id,
            assistant_entry_id,
            error: "runtime stream closed".to_string(),
        },
    }
}

/// The model of the turn with a number.
pub open spec fn turn_model_id(history: Seq<ItemModel>, id: u64) -> Option<Seq<char>> {
    match index_of_id(history, id) {
        Some(at) => match history[at].entry {
            EntryModel::Assistant(turn) => Some(turn.model_id),
            _ => None,
        },
        None => None,
    }
}

/// The entries with what a model is doing with a turn.
pub open spec fn status_set(history: Seq<ItemModel>, id: u64, status: AssistantStatus) -> Seq<
    ItemModel,
> {
    turn_changed(history, id, |turn: TurnModel| TurnModel { status: Some(status), ..turn })
}

/// The entries with the note on tools of a turn.
pub open spec fn tool_note_set(history: Seq<ItemModel>, id: u64, detected: bool) -> Seq<ItemModel> {
    turn_changed(
        history,
        id,
        |turn: TurnModel| TurnModel { callouts: tool_noted(turn.callouts, detected), ..turn },
    )
}

impl AppModel {
    /// Something is new in a conversation; where it is not shown, that is marked.
    pub open spec fn marked(self, at: int) -> AppModel {
        if at == self.active {
            self
        } else {
            self.with_thread(at, ThreadModel { has_unseen_changes: true, ..self.threads[at] })
        }
    }

    /// The entries of a conversation are replaced.
    pub open spec fn with_entries(self, at: int, history: Seq<ItemModel>) -> AppModel {
        self.with_thread(at, with_history(self.threads[at], history))
    }

    /// No turn of a conversation runs.
    pub open spec fn idle(self, at: int) -> AppModel {
        self.with_thread(
            at,
            ThreadModel { running_job: false, running_assistant_id: None, ..self.threads[at] },
        )
    }

    /// The next turn goes to its model; where it cannot be asked, nothing more
    /// happens.
    pub open spec fn next_started(self, at: int, tools: Seq<ToolView>, now: u64) -> (
        AppModel,
        EffectModel,
    ) {
        let (app, effect) = self.job_started(at, tools, now);
        (
            app,
            match effect {
                EffectModel::Fail(_) => EffectModel::Continue,
                other => other,
            },
        )
    }

    /// The runtime says what it does for a turn.
    pub open spec fn status_heard(self, at: int, id: u64, status: StatusView, now: u64) -> AppModel {
        let app = self.marked(at);
        let thread = app.threads[at];
        match turn_model_id(thread.history, id) {
            None => app,
            Some(model_id) => match status {
                StatusView::Queued { .. } => app.with_entries(
                    at,
                    status_set(
                        thread.history,
                        id,
                        AssistantStatus::Queued { started_at: now },
                    ),
                ),
                StatusView::Loading { .. } => app.with_entries(
                    at,
                    status_set(
                        loading_set(
                            thread.history,
                            model_id,
                            ModelLoadStatus::Loading { started_at: now },
                        ),
                        id,
                        AssistantStatus::Loading { started_at: now },
                    ),
                ),
                StatusView::Generating { .. } => app.with_thread(
                    at,
                    ThreadModel {
                        loaded_models: thread.loaded_models.insert(model_id),
                        history: status_set(
                            loading_set(thread.history, model_id, ModelLoadStatus::Loaded),
                            id,
                            AssistantStatus::Generating { started_at: now },
                        ),
                        ..thread
                    },
                ),
            },
        }
    }

    /// Something is heard of a turn.
    pub open spec fn job_heard(self, event: JobModel, tools: Seq<ToolView>, now: u64) -> (
        AppModel,
        EffectModel,
    ) {
        match self.index_of_tab(event.tab_id()) {
            None => (self, EffectModel::Continue),
            Some(at) => {
                let history = self.threads[at].history;
                match event {
                    JobModel::Status { assistant_entry_id, status, .. } => (
                        self.status_heard(at, assistant_entry_id, status, now),
                        EffectModel::Continue,
                    ),
                    JobModel::Chunk { assistant_entry_id: id, markdown, .. } => (
                        self.marked(at).with_entries(
                            at,
                            tool_note_set(
                                turn_changed(
                                    history,
                                    id,
                                    |turn: TurnModel| answering(turn, markdown.blocks),
                                ),
                                id,
                                markdown.tool_call_detected,
                            ),
                        ),
                        EffectModel::Continue,
                    ),
                    JobModel::Complete { assistant_entry_id: id, markdown, callouts, .. } => {
                        let noted = if markdown.tool_call_detected {
                            seq!["tool called"@] + callouts
                        } else {
                            callouts
                        };
                        self.marked(at).with_entries(
                            at,
                            turn_changed(
                                history,
                                id,
                                |turn: TurnModel| answered(turn, markdown.blocks, noted),
                            ),
                        ).idle(at).next_started(at, tools, now)
                    },
                    JobModel::Interrupted { assistant_entry_id: id, markdown, .. } => {
                        self.marked(at).with_entries(
                            at,
                            tool_note_set(
                                interrupted(history, id, markdown.blocks),
                                id,
                                markdown.tool_call_detected,
                            ),
                        ).idle(at).next_started(at, tools, now)
                    },
                    JobModel::Error { assistant_entry_id: id, error, .. } => {
                        self.marked(at).with_entries(
                            at,
                            turn_changed(
                                history,
                                id,
                                |turn: TurnModel| answered(turn, Seq::empty(), Seq::empty()),
                            ).push(
                                ItemModel {
                                    id: self.next_history_id,
                                    entry: EntryModel::SystemNotice(error),
                                    meta: MetaModel::Plain,
                                },
                            ),
                        ).ids_taken(1).idle(at).next_started(at, tools, now)
                    },
                }
            },
        }
    }
}

/// Marks that something is new in a conversation that is not shown.
fn mark_thread_changed(app: &mut AppState, thread_index: usize)
    requires
        old(app).wf(),
        thread_index < old(app)@.threads.len(),
    ensures
        final(app).wf(),
        final(app)@ == old(app)@.marked(thread_index as int),
{
    if thread_index != app.active_thread_idx {
        app.threads[thread_index].has_unseen_changes = true;
        assert(app@ =~= old(app)@.marked(thread_index as int));
    }
}

/// Notes that no turn of a conversation runs, and hands on the next one.
fn finish_job(app: &mut AppState, thread_index: usize, tools: &[ToolSpec], now: u64) -> (effect:
    Effect)
    requires
        old(app).wf(),
        thread_index < old(app)@.threads.len(),
    ensures
        final(app).wf(),
        (final(app)@, effect@) == old(app)@.idle(thread_index as int).next_started(
            thread_index as int,
            tool_views(tools@),
            now,
        ),
{
    app.threads[thread_index].running_job = false;
    app.threads[thread_index].running_assistant_id = None;
    assert(app@ =~= old(app)@.idle(thread_index as int));
    match start_next_job_for_thread(app, thread_index, tools, now) {
        Effect::Fail(_) => Effect::Continue,
        effect => effect,
    }
}

/// Notes what the runtime does for a turn.
fn hear_status(
    app: &mut AppState,
    thread_index: usize,
    assistant_entry_id: u64,
    status: &RuntimeStatus,
    now: u64,
)
    requires
        old(app).wf(),
        thread_index < old(app)@.threads.len(),
    ensures
        final(app).wf(),
        final(app)@ == old(app)@.status_heard(
            thread_index as int,
            assistant_entry_id,
            status@,
            now,
        ),
{
    let ghost was = app@;
    let ghost at = thread_index as int;
    mark_thread_changed(app, thread_index);
    let ghost thread = app@.threads[at];
    assert(thread == app.threads@[at]@);
    let index: usize = match find_history_index(&app.threads[thread_index], assistant_entry_id) {
        Some(index) => index,
        None => return,
    };
    assert(thread.history[index as int] == app.threads@[at].history@[index as int]@);
    let model_id = match &app.threads[thread_index].history[index].entry {
        HistoryEntry::Assistant { model_id, .. } => model_id.clone(),
        _ => return,
    };
    match status {
        RuntimeStatus::Queued { .. } => {
            set_assistant_status(
                &mut app.threads[thread_index],
                assistant_entry_id,
                AssistantStatus::Queued { started_at: now },
            );
        },
        RuntimeStatus::Loading { .. } => {
            set_loading_status(
                &mut app.threads[thread_index],
                model_id.as_str(),
                ModelLoadStatus::Loading { started_at: now },
            );
            set_assistant_status(
                &mut app.threads[thread_index],
                assistant_entry_id,
                AssistantStatus::Loading { started_at: now },
            );
        },
        RuntimeStatus::Generating { .. } => {
            let _ = app.threads[thread_index].loaded_models.insert(model_id.as_str());
            set_loading_status(
                &mut app.threads[thread_index],
                model_id.as_str(),
                ModelLoadStatus::Loaded,
            );
            set_assistant_status(
                &mut app.threads[thread_index],
                assistant_entry_id,
                AssistantStatus::Generating { started_at: now },
            );
        },
    }
    assert(app@ =~= was.status_heard(at, assistant_entry_id, status@, now));
}

/// Takes what is heard of a turn.
pub fn handle_job_event(event: JobEvent, app: &mut AppState, tools: &[ToolSpec], now: u64) -> (effect:
    Effect)
    requires
        old(app).wf(),
        old(app)@.next_history_id < u64::MAX,
    ensures
        final(app).wf(),
        (final(app)@, effect@) == old(app)@.job_heard(event@, tool_views(tools@), now),
{
    let ghost was = app@;
    let thread_index: usize = match thread_index_by_tab_id(app, event.tab_id()) {
        Some(thread_index) => thread_index,
        None => return Effect::Continue,
    };
    let ghost at = thread_index as int;
    let ghost history = was.threads[at].history;
    match event {
        JobEvent::Status { assistant_entry_id, status, .. } => {
            hear_status(app, thread_index, assistant_entry_id, &status, now);
            Effect::Continue
        },
        JobEvent::Chunk { assistant_entry_id, markdown, .. } => {
            mark_thread_changed(app, thread_index);
            replace_assistant_blocks(
                &mut app.threads[thread_index],
                assistant_entry_id,
                markdown.blocks,
            );
            set_assistant_tool_callout(
                &mut app.threads[thread_index],
                assistant_entry_id,
                markdown.tool_call_detected,
            );
            assert(app@ =~= was.job_heard(event@, tool_views(tools@), now).0);
            Effect::Continue
        },
        JobEvent::Complete { assistant_entry_id, markdown, callouts, .. } => {
            mark_thread_changed(app, thread_index);
            let noted = merge_tool_call_callout(markdown.tool_call_detected, callouts);
            finalize_assistant(
                &mut app.threads[thread_index],
                assistant_entry_id,
                markdown.blocks,
                noted,
            );
            assert(app@ =~= was.marked(at).with_entries(
                at,
                turn_changed(
                    history,
                    assistant_entry_id,
                    |turn: TurnModel| answered(turn, markdown@.blocks, texts(noted@)),
                ),
            ));
            finish_job(app, thread_index, tools, now)
        },
        JobEvent::Interrupted { assistant_entry_id, markdown, .. } => {
            mark_thread_changed(app, thread_index);
            finalize_interrupted_assistant(
                &mut app.threads[thread_index],
                assistant_entry_id,
                markdown.blocks,
            );
            set_assistant_tool_callout(
                &mut app.threads[thread_index],
                assistant_entry_id,
                markdown.tool_call_detected,
            );
            assert(app@ =~= was.marked(at).with_entries(
                at,
                tool_note_set(
                    interrupted(history, assistant_entry_id, markdown@.blocks),
                    assistant_entry_id,
                    markdown@.tool_call_detected,
                ),
            ));
            finish_job(app, thread_index, tools, now)
        },
        JobEvent::Error { assistant_entry_id, error, .. } => {
            mark_thread_changed(app, thread_index);
            let ghost marked = app@;
            let no_blocks: Vec<MarkdownBlock> = Vec::new();
            let no_callouts: Vec<String> = Vec::new();
            assert(block_models(no_blocks@) =~= Seq::empty());
            assert(texts(no_callouts@) =~= Seq::empty());
            let notice_id: u64 = next_history_id(app);
            assert(app@.threads[at] == app.threads@[at]@);
            finalize_assistant(
                &mut app.threads[thread_index],
                assistant_entry_id,
                no_blocks,
                no_callouts,
            );
            let ghost ended = turn_changed(
                history,
                assistant_entry_id,
                |turn: TurnModel| answered(turn, Seq::empty(), Seq::empty()),
            );
            push_history_entry(
                &mut app.threads[thread_index],
                notice_id,
                HistoryEntry::SystemNotice(error),
                HistoryMeta::Plain,
            );
            let ghost notice = ItemModel {
                id: notice_id,
                entry: EntryModel::SystemNotice(error@),
                meta: MetaModel::Plain,
            };
            assert(app.threads@[at]@ =~= with_history(marked.threads[at], ended.push(notice)));
            assert(app@.threads =~= marked.with_entries(at, ended.push(notice)).threads);
            assert(app@ =~= marked.with_entries(at, ended.push(notice)).ids_taken(1));
            finish_job(app, thread_index, tools, now)
        },
    }
}

} // verus!
