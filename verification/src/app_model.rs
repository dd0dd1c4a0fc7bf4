//! What the program does, as a function of its state.
//!
//! The functions here say what every event does to the conversations and what
//! has to be done outside. The code in `session` is held to them.

use vstd::prelude::*;

use crate::agent::ToolView;
use crate::command_palette::{suggestions_for, PaletteModel, TargetView};
use crate::history::{EntryModel, ItemModel, MetaModel, Mode, ModelLoadStatus, TurnModel};
use crate::replay::{due_count, replayed};
use crate::request::{request_for, TurnRequestModel};
use crate::text::decimal;
use crate::thread::{
    fresh_thread, labels_of, loading_set, turn_changed, with_history, ComposeTarget, ConfigModel,
    ThreadJob, ThreadModel,
};

verus! {

/// The state of the program by its contents.
#[verifier::ext_equal]
pub struct AppModel {
    pub threads: Seq<ThreadModel>,
    pub active: usize,
    pub mode: Mode,
    pub palette: PaletteModel,
    pub next_history_id: u64,
    pub next_tab_id: usize,
    pub command_edit_target: Option<u64>,
    pub inline_command_placeholder: Option<(u64, usize)>,
    pub delete_target_id: Option<u64>,
}

/// What happens once a turn is on its way, or nothing is to be sent. It does not
/// happen where the turn cannot be sent.
#[derive(Debug, Clone, Copy, PartialEq, Eq, Structural)]
pub enum AfterStart {
    /// Nothing.
    Nothing,
    /// Commands are over.
    CloseCommand,
    /// Writing goes on.
    WriteOn,
    /// The deletion is over.
    EndDeletion,
}

/// Why a connection is opened.
pub enum PurposeModel {
    SwitchModel,
    NewTab,
    RunJob { job: ThreadJob, turn: TurnRequestModel, after: AfterStart },
}

/// What has to be done outside.
#[allow(inconsistent_fields)]
pub enum EffectModel {
    /// Nothing.
    Continue,
    /// The program ends.
    Quit,
    /// The program ends with an error.
    Fail(Seq<char>),
    /// A connection to a model is opened for a conversation.
    OpenConnection { thread_index: usize, model_id: Seq<char>, purpose: PurposeModel },
    /// A model is asked for a turn.
    StartStream { thread_index: usize, job: ThreadJob, turn: TurnRequestModel },
    /// A request that runs is interrupted.
    Interrupt { thread_index: usize, model_id: Seq<char>, sequence_number: u64 },
    /// A text goes to the clipboard.
    CopyText(Seq<char>),
    /// The connections of a conversation that is gone are closed.
    CloseConnections { tab_id: usize },
    /// A turn is reported to have failed.
    ReportError { tab_id: usize, assistant_entry_id: u64, error: Seq<char> },
}

impl AppModel {
    /// The program at its start: one conversation, in which writing begins.
    pub open spec fn started(
        model_ids: Seq<Seq<char>>,
        model_id: Seq<char>,
        tools_enabled: bool,
    ) -> AppModel {
        AppModel {
            threads: seq![fresh_thread(1, ConfigModel { model_id, tools_enabled })],
            active: 0,
            mode: Mode::Insert,
            palette: PaletteModel {
                draft: Seq::empty(),
                highlighted: None,
                suggestions: suggestions_for(Seq::empty(), model_ids),
                model_ids,
                error: None,
            },
            next_history_id: 1,
            next_tab_id: 2,
            command_edit_target: None,
            inline_command_placeholder: None,
            delete_target_id: None,
        }
    }

    /// The conversation that is shown.
    pub open spec fn thread(self) -> ThreadModel {
        self.threads[self.active as int]
    }

    /// The state with one conversation replaced.
    pub open spec fn with_thread(self, at: int, thread: ThreadModel) -> AppModel {
        AppModel { threads: self.threads.update(at, thread), ..self }
    }

    /// The state with the conversation that is shown replaced.
    pub open spec fn with_active(self, thread: ThreadModel) -> AppModel {
        self.with_thread(self.active as int, thread)
    }

    /// The state after `count` numbers were given to entries.
    pub open spec fn ids_taken(self, count: nat) -> AppModel {
        AppModel { next_history_id: (self.next_history_id + count) as u64, ..self }
    }

    /// Something is shown, and the palette is in order.
    pub open spec fn wf(self) -> bool {
        &&& self.active < self.threads.len()
        &&& self.threads.len() <= usize::MAX
        &&& self.palette.wf()
    }

    /// The selection in the conversation that is shown points at an entry.
    pub open spec fn settled(self) -> bool {
        self.thread().selected matches Some(at) ==> at < self.thread().history.len()
    }

    /// Something can be put before the selected entry: the selection points at an
    /// entry, or right behind the last one.
    pub open spec fn opens_before(self) -> bool {
        self.thread().selected matches Some(at) ==> at <= self.thread().history.len()
    }

    /// There are numbers left for all entries that one event can add, and for a
    /// new conversation.
    pub open spec fn has_room(self) -> bool {
        &&& forall|i: int|
            0 <= i < self.threads.len() ==> self.next_history_id + (
            #[trigger] self.threads[i]).history.len() + 4 <= u64::MAX
        &&& self.next_tab_id < usize::MAX
        &&& self.threads.len() < usize::MAX
    }

    /// Writing at the end of the conversation begins.
    pub open spec fn footer_opened(self) -> AppModel {
        AppModel {
            mode: Mode::Insert,
            ..self.with_active(
                ThreadModel {
                    selected: None,
                    compose_target: ComposeTarget::AppendBottom,
                    draft: Seq::empty(),
                    ..self.thread()
                },
            )
        }
    }

    /// Writing at the end of the conversation goes on.
    pub open spec fn writing_on(self) -> AppModel {
        AppModel {
            mode: Mode::Insert,
            ..self.with_active(
                ThreadModel { compose_target: ComposeTarget::AppendBottom, ..self.thread() },
            )
        }
    }

    /// The conversation at a place is shown, or the last one; what is new in it
    /// counts as seen.
    pub open spec fn activated(self, index: int) -> AppModel {
        let shown = if index < self.threads.len() {
            index
        } else {
            self.threads.len() - 1
        };
        AppModel {
            active: shown as usize,
            ..self.with_thread(
                shown,
                ThreadModel { has_unseen_changes: false, ..self.threads[shown] },
            )
        }
    }

    /// A conversation further on or back is shown; after the last comes the
    /// first.
    pub open spec fn cycled(self, delta: int) -> AppModel {
        self.activated((self.active + delta) % (self.threads.len() as int))
    }

    /// Commands are over, and writing begins.
    pub open spec fn command_mode_closed(self) -> AppModel {
        AppModel {
            palette: self.palette.closed(),
            command_edit_target: None,
            inline_command_placeholder: None,
            ..self
        }.footer_opened()
    }

    /// An error is shown with the command line.
    pub open spec fn command_failed(self, message: Seq<char>) -> AppModel {
        AppModel { palette: self.palette.failing(message), ..self }
    }

    /// The command line is opened.
    pub open spec fn command_opened(self) -> AppModel {
        AppModel { mode: Mode::Command, palette: self.palette.drafted(Seq::empty()), ..self }
    }

    /// The conversation with a tab number.
    pub open spec fn index_of_tab(self, tab_id: usize) -> Option<int> {
        index_of_tab(self.threads, tab_id)
    }

    /// An entry is added to the conversation that is shown.
    pub open spec fn entry_added(self, entry: EntryModel, meta: MetaModel) -> AppModel {
        self.with_active(
            with_history(
                self.thread(),
                self.thread().history.push(ItemModel { id: self.next_history_id, entry, meta }),
            ),
        ).ids_taken(1)
    }

    /// The turns of a range of the conversation that is shown are queued again.
    pub open spec fn replay_queued(self, start: int, end: int, now: u64) -> AppModel {
        self.with_active(
            replayed(self.thread(), start, end, self.next_history_id, now),
        ).ids_taken(
            due_count(self.thread().history, self.thread().loaded_models, start, end),
        )
    }

    /// What comes before a model is asked for a turn: where the model is not
    /// loaded yet, its loading begins.
    pub open spec fn stream_prepared(self, at: int, model_id: Seq<char>, now: u64) -> AppModel {
        let thread = self.threads[at];
        if thread.loaded_models.contains(model_id) {
            self
        } else {
            self.with_thread(
                at,
                with_history(
                    thread,
                    loading_set(
                        thread.history,
                        model_id,
                        ModelLoadStatus::Loading { started_at: now },
                    ),
                ),
            )
        }
    }

    /// The first turn that waits in a conversation goes to its model, unless
    /// another one runs.
    pub open spec fn job_started(self, at: int, tools: Seq<ToolView>, now: u64) -> (
        AppModel,
        EffectModel,
    ) {
        let thread = self.threads[at];
        if thread.queue.len() == 0 || thread.running_job {
            (self, EffectModel::Continue)
        } else {
            let job = thread.queue[0];
            let taken = self.with_thread(
                at,
                ThreadModel { queue: thread.queue.drop_first(), ..thread },
            );
            match request_for(thread, job.assistant_entry_id, tools) {
                Err(message) => (taken, EffectModel::Fail(message)),
                Ok(turn) => if thread.connections.contains(turn.config.model_id) {
                    (
                        taken.stream_prepared(at, turn.config.model_id, now),
                        EffectModel::StartStream { thread_index: at as usize, job, turn },
                    )
                } else {
                    (
                        taken,
                        EffectModel::OpenConnection {
                            thread_index: at as usize,
                            model_id: turn.config.model_id,
                            purpose: PurposeModel::RunJob {
                                job,
                                turn,
                                after: AfterStart::Nothing,
                            },
                        },
                    )
                },
            }
        }
    }

    /// The first turn that waits in the conversation that is shown goes to its
    /// model.
    pub open spec fn active_job_started(self, tools: Seq<ToolView>, now: u64) -> (
        AppModel,
        EffectModel,
    ) {
        match self.index_of_tab(self.thread().tab_id) {
            Some(at) => self.job_started(at, tools, now),
            None => (self, EffectModel::Continue),
        }
    }

    /// What happens after a turn was sent has happened.
    pub open spec fn followed(self, after: AfterStart) -> AppModel {
        match after {
            AfterStart::Nothing => self,
            AfterStart::CloseCommand => self.command_mode_closed(),
            AfterStart::WriteOn => self.writing_on(),
            AfterStart::EndDeletion => AppModel { mode: Mode::Normal, ..self },
        }
    }

    /// A connection to a model is open in a conversation.
    pub open spec fn connected(self, at: int, model_id: Seq<char>) -> AppModel {
        self.with_thread(
            at,
            ThreadModel {
                connections: self.threads[at].connections.insert(model_id),
                ..self.threads[at]
            },
        )
    }

    /// A turn goes on once the connection to its model is open, or could not be
    /// had.
    pub open spec fn job_resumed(
        self,
        at: int,
        job: ThreadJob,
        turn: TurnRequestModel,
        after: AfterStart,
        opened: Result<(), Seq<char>>,
        now: u64,
    ) -> (AppModel, EffectModel) {
        match opened {
            Ok(()) => (
                self.connected(at, turn.config.model_id).stream_prepared(
                    at,
                    turn.config.model_id,
                    now,
                ).followed(after),
                EffectModel::StartStream { thread_index: at as usize, job, turn },
            ),
            Err(message) => (self, EffectModel::Fail(message)),
        }
    }

    /// A model answers a turn, or the stream could not be had. In the second case
    /// the turn waits again and the error is reported.
    pub open spec fn stream_answered(
        self,
        at: int,
        job: ThreadJob,
        answer: Result<u64, Seq<char>>,
    ) -> (AppModel, EffectModel) {
        let thread = self.threads[at];
        match answer {
            Ok(sequence_number) => (
                self.with_thread(
                    at,
                    ThreadModel {
                        running_job: true,
                        running_assistant_id: Some(job.assistant_entry_id),
                        history: turn_changed(
                            thread.history,
                            job.assistant_entry_id,
                            |turn: TurnModel|
                                TurnModel { sequence_number: Some(sequence_number), ..turn },
                        ),
                        ..thread
                    },
                ),
                EffectModel::Continue,
            ),
            Err(message) => (
                self.with_thread(
                    at,
                    ThreadModel {
                        running_job: false,
                        running_assistant_id: None,
                        queue: seq![job] + thread.queue,
                        ..thread
                    },
                ),
                EffectModel::ReportError {
                    tab_id: thread.tab_id,
                    assistant_entry_id: job.assistant_entry_id,
                    error: "runtime error: "@ + message,
                },
            ),
        }
    }
}

/// The place of the conversation with a tab number.
pub open spec fn index_of_tab(threads: Seq<ThreadModel>, tab_id: usize) -> Option<int>
    decreases threads.len(),
{
    if threads.len() == 0 {
        None
    } else if threads[0].tab_id == tab_id {
        Some(0)
    } else {
        match index_of_tab(threads.drop_first(), tab_id) {
            Some(at) => Some(at + 1),
            None => None,
        }
    }
}

/// The place found is that of the first conversation with the tab number, and
/// where none is found none has it.
pub(crate) proof fn lemma_index_of_tab(threads: Seq<ThreadModel>, tab_id: usize)
    ensures
        match index_of_tab(threads, tab_id) {
            Some(at) => 0 <= at < threads.len() && threads[at].tab_id == tab_id && forall|i: int|
                0 <= i < at ==> (#[trigger] threads[i]).tab_id != tab_id,
            None => forall|i: int|
                0 <= i < threads.len() ==> (#[trigger] threads[i]).tab_id != tab_id,
        },
    decreases threads.len(),
{
    if threads.len() > 0 && threads[0].tab_id != tab_id {
        let rest = threads.drop_first();
        lemma_index_of_tab(rest, tab_id);
        assert forall|i: int| 0 < i < threads.len() implies #[trigger] threads[i] == rest[i
            - 1] by {}
    }
}

/// What comes of trying to send a turn: where it could not be sent, the program ends
/// as it is; where its connection is opened first, the rest waits for that; else it
/// happens at once.
pub open spec fn followed_up(
    started: (AppModel, EffectModel),
    after: AfterStart,
) -> (AppModel, EffectModel) {
    let (app, effect) = started;
    match effect {
        EffectModel::Fail(_) => started,
        EffectModel::OpenConnection {
            thread_index,
            model_id,
            purpose: PurposeModel::RunJob { job, turn, .. },
        } => (
            app,
            EffectModel::OpenConnection {
                thread_index,
                model_id,
                purpose: PurposeModel::RunJob { job, turn, after },
            },
        ),
        _ => (app.followed(after), effect),
    }
}

/// The conversation that a target names: by its tab number, or by what it is
/// called.
pub open spec fn target_index(threads: Seq<ThreadModel>, target: TargetView) -> Option<int> {
    match target {
        TargetView::Id(id) => index_of_tab(threads, id),
        TargetView::Name(name) => first_label(labels_of(threads), name),
    }
}

/// The place of a label.
pub open spec fn first_label(labels: Seq<Seq<char>>, name: Seq<char>) -> Option<int>
    decreases labels.len(),
{
    if labels.len() == 0 {
        None
    } else if labels[0] == name {
        Some(0)
    } else {
        match first_label(labels.drop_first(), name) {
            Some(at) => Some(at + 1),
            None => None,
        }
    }
}

/// A target in words.
pub open spec fn target_text(target: TargetView) -> Seq<char> {
    match target {
        TargetView::Id(id) => decimal(id as nat),
        TargetView::Name(name) => name,
    }
}

} // verus!
