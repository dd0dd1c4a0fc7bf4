//! What keys and the mouse do.

use std::collections::VecDeque;

use vstd::prelude::*;
use vstd::string::*;

use crate::agent::{tool_views, ToolSpec, ToolView};
use crate::app_model::{followed_up, AfterStart, AppModel, EffectModel};
use crate::command_palette::{
    CommandCommit, CommandPaletteState, CommandParseError, CommitView, ParseErrorView,
};
use crate::commands::{execute_command_dispatch, InlinePosition};
use crate::history::{
    block_models, clipboard_text, copied_text, edit_of, entry_models, selected_of,
    selected_transcript_index, selection_edit_action, AssistantStatus, EditModel, EntryModel,
    HistoryEntry, HistoryMeta, ItemModel, MetaModel, Mode, ModelLoadStatus, ScrollAnchor,
    SelectionEditAction, TurnModel,
};
use crate::replay::turn_waiting;
use crate::runtime::{config_ids, ConfigView, RuntimeRegistry};
use crate::session::{
    cycle_active_tab, cycle_active_tab_relative, enqueue_replay_from_index, follow_up,
    maybe_start_next_job, next_history_id, open_footer_compose, AppState, Effect,
};
use crate::text::{joined, texts, trim, trimmed};
use crate::thread::{
    exit_insert_mode, find_history_index, history_entries, index_of_id, insert_assistant_turn_at,
    insert_pending_assistant_turn, lemma_index_of_id, loading_inserted, loading_set,
    maybe_insert_loading_entry, move_selection, moved_selection, new_turn, normalize_selection,
    normalized, normalizing_settles_the_selection, push_history_entry, recompute_thread_config,
    reconfigured, remove_history_entry, set_loading_status, turn_changed, with_history, without_id,
    writing_given_up, ComposeTarget, ThreadJob, ThreadModel,
};

verus! {

/// A key.
#[derive(Debug, Clone, Copy, PartialEq, Eq, Structural)]
pub enum Key {
    Enter,
    Esc,
    Backspace,
    Tab,
    Left,
    Right,
    Up,
    Down,
    Char(char),
    Other,
}

/// A key with the modifiers held.
#[derive(Debug, Clone, Copy, PartialEq, Eq, Structural)]
pub struct KeyPress {
    pub key: Key,
    pub control: bool,
    pub alt: bool,
    pub command: bool,
}

impl KeyPress {
    /// Whether the key writes a character.
    pub open spec fn writes(self) -> bool {
        !self.control && !self.alt && !self.command
    }

    /// Whether the key may put something before the selected entry: by itself, or
    /// by the command that it ends.
    pub open spec fn may_open_before(self, mode: Mode) -> bool {
        ||| mode == Mode::Normal && self.key == Key::Char('O')
        ||| mode == Mode::Command && self.key == Key::Enter
    }
}

/// What the mouse did.
#[derive(Debug, Clone, Copy, PartialEq, Eq, Structural)]
pub enum MouseMotion {
    ScrollUp,
    ScrollDown,
    Other,
}

/// What the user did.
#[derive(Debug, Clone, Copy, PartialEq, Eq, Structural)]
pub enum InputEvent {
    Key(KeyPress),
    Mouse(MouseMotion),
    Other,
}

impl AppModel {
    /// A turn that was added waits for its model. Where the model is not loaded,
    /// an entry on its loading goes before the turn. `None` where there is no
    /// such turn.
    pub open spec fn turn_queued(self, id: u64, now: u64) -> Option<AppModel> {
        let thread = self.thread();
        match index_of_id(thread.history, id) {
            None => None,
            Some(at) => match thread.history[at].entry {
                EntryModel::Assistant(turn) => Some(
                    self.with_active(
                        ThreadModel {
                            history: if thread.loaded_models.contains(turn.model_id) {
                                thread.history
                            } else {
                                loading_set(
                                    loading_inserted(
                                        thread.history,
                                        thread.loaded_models,
                                        at,
                                        self.next_history_id,
                                        now,
                                    ),
                                    turn.model_id,
                                    ModelLoadStatus::Loading { started_at: now },
                                )
                            },
                            queue: thread.queue.push(ThreadJob { assistant_entry_id: id }),
                            ..thread
                        },
                    ).ids_taken(1),
                ),
                _ => None,
            },
        }
    }

    /// A prompt replaces the one of an entry, and it and all turns after it are
    /// answered anew. `None` where there is no such entry.
    pub open spec fn prompt_edited(self, id: u64, prompt: Seq<char>, now: u64) -> Option<AppModel> {
        let thread = self.thread();
        match index_of_id(thread.history, id) {
            None => None,
            Some(at) => Some(
                self.with_active(
                    ThreadModel {
                        history: turn_changed(
                            thread.history,
                            id,
                            |turn: TurnModel| TurnModel { prompt, ..turn_waiting(turn, now) },
                        ),
                        selected: Some(at as usize),
                        queue: Seq::empty(),
                        ..thread
                    },
                ).replay_queued(at, thread.history.len() as int, now),
            ),
        }
    }

    /// A prompt is added at the end of the conversation.
    pub open spec fn prompt_added(self, prompt: Seq<char>, now: u64) -> AppModel {
        let thread = self.thread();
        self.with_active(
            ThreadModel {
                history: thread.history.push(
                    new_turn(
                        self.next_history_id,
                        thread.current_config.model_id,
                        prompt,
                        Some(AssistantStatus::Queued { started_at: now }),
                    ),
                ),
                selected: None,
                ..thread
            },
        ).ids_taken(1)
    }

    /// A prompt is sent: in place of the one that is edited, or as a new turn.
    pub open spec fn prompt_sent(self, prompt: Seq<char>, tools: Seq<ToolView>, now: u64) -> (
        AppModel,
        EffectModel,
    ) {
        match self.thread().compose_target {
            ComposeTarget::EditEntry(id) => match self.prompt_edited(id, prompt, now) {
                Some(app) => followed_up(app.active_job_started(tools, now), AfterStart::WriteOn),
                None => (self.writing_on(), EffectModel::Continue),
            },
            ComposeTarget::AppendBottom => {
                let added = self.prompt_added(prompt, now);
                match added.turn_queued(self.next_history_id, now) {
                    Some(app) => followed_up(
                        app.active_job_started(tools, now),
                        AfterStart::WriteOn,
                    ),
                    None => (added.writing_on(), EffectModel::Continue),
                }
            },
        }
    }

    /// What a key does while something is written.
    pub open spec fn insert_key(self, press: KeyPress, tools: Seq<ToolView>, now: u64) -> (
        AppModel,
        EffectModel,
    ) {
        let thread = self.thread();
        match press.key {
            Key::Esc => (
                AppModel { mode: Mode::Normal, ..self.with_active(writing_given_up(thread)) },
                EffectModel::Continue,
            ),
            Key::Enter => {
                let prompt = trimmed(thread.draft);
                let cleared = self.with_active(ThreadModel { draft: Seq::empty(), ..thread });
                if prompt.len() == 0 {
                    (cleared, EffectModel::Continue)
                } else {
                    cleared.prompt_sent(prompt, tools, now)
                }
            },
            Key::Backspace => (
                self.with_active(
                    ThreadModel {
                        draft: if thread.draft.len() == 0 {
                            thread.draft
                        } else {
                            thread.draft.drop_last()
                        },
                        ..thread
                    },
                ),
                EffectModel::Continue,
            ),
            Key::Char(ch) => if press.writes() {
                (
                    self.with_active(ThreadModel { draft: thread.draft.push(ch), ..thread }),
                    EffectModel::Continue,
                )
            } else {
                (self, EffectModel::Continue)
            },
            _ => (self, EffectModel::Continue),
        }
    }

    /// The selection moves, and that end of the entry comes into view.
    pub open spec fn selection_moved(self, delta: int) -> AppModel {
        let thread = self.thread();
        self.with_active(
            ThreadModel {
                scroll_anchor: if delta > 0 {
                    ScrollAnchor::Bottom
                } else {
                    ScrollAnchor::Top
                },
                selected: moved_selection(thread.history.len(), thread.selected, delta),
                ..thread
            },
        )
    }

    /// Writing begins before or after the selected entry; after the last one that
    /// is at the end.
    pub open spec fn inline_compose_opened(self, position: InlinePosition) -> AppModel {
        let thread = self.thread();
        match thread.selected {
            None => self.footer_opened(),
            Some(selected) => {
                let at = match position {
                    InlinePosition::Before => selected as int,
                    InlinePosition::After => selected + 1,
                };
                if position == InlinePosition::After && at >= thread.history.len() {
                    self.footer_opened()
                } else {
                    let id = self.next_history_id;
                    AppModel {
                        mode: Mode::Insert,
                        ..self.with_active(
                            ThreadModel {
                                history: thread.history.insert(
                                    at,
                                    new_turn(
                                        id,
                                        thread.current_config.model_id,
                                        Seq::empty(),
                                        None,
                                    ),
                                ),
                                selected: Some(at as usize),
                                compose_target: ComposeTarget::EditEntry(id),
                                draft: Seq::empty(),
                                ..thread
                            },
                        ).ids_taken(1)
                    }
                }
            },
        }
    }

    /// The selected entry is edited: its prompt where it is a turn, its command
    /// where it is one.
    pub open spec fn selection_edited(self) -> AppModel {
        let thread = self.thread();
        match selected_of(thread.history.len(), thread.selected) {
            None => self,
            Some(at) => {
                let item = thread.history[at as int];
                match edit_of(item.entry) {
                    None => self,
                    Some(EditModel::Prompt(draft)) => AppModel {
                        mode: Mode::Insert,
                        ..self.with_active(
                            ThreadModel {
                                selected: Some(at),
                                compose_target: ComposeTarget::EditEntry(item.id),
                                draft,
                                ..thread
                            },
                        )
                    },
                    Some(EditModel::Command(draft)) => AppModel {
                        mode: Mode::Command,
                        command_edit_target: Some(item.id),
                        palette: self.palette.drafted(draft),
                        ..self
                    },
                }
            },
        }
    }

    /// What a key does while nothing is written.
    pub open spec fn normal_key(self, press: KeyPress) -> (AppModel, EffectModel) {
        let thread = self.thread();
        let selected = selected_of(thread.history.len(), thread.selected);
        match press.key {
            Key::Enter => (self.footer_opened(), EffectModel::Continue),
            Key::Char(':') => (
                AppModel { command_edit_target: None, ..self }.command_opened(),
                EffectModel::Continue,
            ),
            Key::Char('i') => (self.selection_edited(), EffectModel::Continue),
            Key::Char('o') => (
                self.inline_compose_opened(InlinePosition::After),
                EffectModel::Continue,
            ),
            Key::Char('O') => (
                self.inline_compose_opened(InlinePosition::Before),
                EffectModel::Continue,
            ),
            Key::Char('j') => (self.selection_moved(1), EffectModel::Continue),
            Key::Down => (self.selection_moved(1), EffectModel::Continue),
            Key::Char('k') => (self.selection_moved(-1), EffectModel::Continue),
            Key::Up => (self.selection_moved(-1), EffectModel::Continue),
            Key::Char('y') => (
                self,
                match selected {
                    Some(at) => EffectModel::CopyText(copied_text(thread.history[at as int].entry)),
                    None => EffectModel::Continue,
                },
            ),
            Key::Char('d') => (
                match selected {
                    Some(at) => AppModel {
                        delete_target_id: Some(thread.history[at as int].id),
                        mode: Mode::ConfirmDelete,
                        ..self
                    },
                    None => self,
                },
                EffectModel::Continue,
            ),
            Key::Left => (self.cycled(-1), EffectModel::Continue),
            Key::Right => (self.cycled(1), EffectModel::Continue),
            Key::Tab => (self.cycled(1), EffectModel::Continue),
            _ => (self, EffectModel::Continue),
        }
    }

    /// The empty command that held the place of one that is not entered after all
    /// is gone, and the selection is where it was.
    pub open spec fn inline_command_cancelled(self) -> AppModel {
        match self.inline_command_placeholder {
            None => self,
            Some((id, anchor)) => {
                let app = AppModel { inline_command_placeholder: None, ..self };
                let thread = self.thread();
                match index_of_id(thread.history, id) {
                    None => app,
                    Some(at) => {
                        let shorter = reconfigured(
                            with_history(thread, thread.history.remove(at)),
                        );
                        app.with_active(
                            ThreadModel {
                                selected: if shorter.history.len() == 0 {
                                    None
                                } else if anchor < shorter.history.len() {
                                    Some(anchor)
                                } else {
                                    Some((shorter.history.len() - 1) as usize)
                                },
                                ..shorter
                            },
                        )
                    },
                }
            },
        }
    }

    /// What a key does on the command line.
    pub open spec fn command_key(
        self,
        press: KeyPress,
        configs: Seq<ConfigView>,
        tools: Seq<ToolView>,
        now: u64,
    ) -> (AppModel, EffectModel) {
        match press.key {
            Key::Esc => {
                let app = self.inline_command_cancelled();
                (
                    AppModel {
                        palette: app.palette.closed(),
                        command_edit_target: None,
                        mode: Mode::Normal,
                        ..app
                    },
                    EffectModel::Continue,
                )
            },
            Key::Tab => (
                AppModel { palette: self.palette.cycled(), ..self },
                EffectModel::Continue,
            ),
            Key::Enter => {
                let (palette, committed) = self.palette.committed();
                let app = AppModel { palette, ..self };
                match committed {
                    Ok(CommitView::StayOpen) => (app, EffectModel::Continue),
                    Ok(CommitView::Execute(dispatch)) => app.executed(
                        dispatch,
                        configs,
                        tools,
                        now,
                    ),
                    Err(ParseErrorView::Empty) => (app, EffectModel::Continue),
                    Err(ParseErrorView::Incomplete(message)) => (
                        app.command_failed(message),
                        EffectModel::Continue,
                    ),
                    Err(ParseErrorView::Invalid(message)) => (
                        app.command_failed(message),
                        EffectModel::Continue,
                    ),
                }
            },
            Key::Backspace => (
                AppModel { palette: self.palette.taken_back(), ..self },
                EffectModel::Continue,
            ),
            Key::Char(ch) => if press.writes() {
                (AppModel { palette: self.palette.typed(ch), ..self }, EffectModel::Continue)
            } else {
                (self, EffectModel::Continue)
            },
            _ => (self, EffectModel::Continue),
        }
    }

    /// An entry is deleted, with the entry on loading a model that follows it.
    /// The turns from there on are answered anew where the entry counted for
    /// them.
    pub open spec fn entry_deleted(self, id: u64, tools: Seq<ToolView>, now: u64) -> (
        AppModel,
        EffectModel,
    ) {
        let thread = self.thread();
        match index_of_id(thread.history, id) {
            None => (self, EffectModel::Continue),
            Some(at) => {
                let without_loading = if at + 1 < thread.history.len() && thread.history[at
                    + 1].entry is LoadingModel {
                    thread.history.remove(at + 1)
                } else {
                    thread.history
                };
                let shorter = reconfigured(with_history(thread, without_loading.remove(at)));
                let app = self.with_active(shorter);
                match thread.history[at].entry {
                    EntryModel::LoadingModel { .. } => (app, EffectModel::Continue),
                    EntryModel::SystemNotice(_) => (app, EffectModel::Continue),
                    _ => app.replay_queued(
                        at,
                        shorter.history.len() as int,
                        now,
                    ).active_job_started(tools, now),
                }
            },
        }
    }

    /// What a key does while a deletion waits to be confirmed.
    pub open spec fn confirm_key(self, press: KeyPress, tools: Seq<ToolView>, now: u64) -> (
        AppModel,
        EffectModel,
    ) {
        let given_up = AppModel { delete_target_id: None, mode: Mode::Normal, ..self };
        match press.key {
            Key::Char('n') => (given_up, EffectModel::Continue),
            Key::Esc => (given_up, EffectModel::Continue),
            Key::Char('y') => match self.delete_target_id {
                Some(id) => followed_up(
                    AppModel { delete_target_id: None, ..self }.entry_deleted(id, tools, now),
                    AfterStart::EndDeletion,
                ),
                None => (given_up, EffectModel::Continue),
            },
            _ => (self, EffectModel::Continue),
        }
    }

    /// What the mouse does: scrolling moves the selection, and scrolling up ends
    /// writing.
    pub open spec fn mouse_moved(self, motion: MouseMotion) -> AppModel {
        if self.mode == Mode::Command || self.mode == Mode::ConfirmDelete {
            self
        } else {
            match motion {
                MouseMotion::ScrollUp => AppModel {
                    mode: Mode::Normal,
                    ..self.selection_moved(-1)
                },
                MouseMotion::ScrollDown => self.selection_moved(1),
                MouseMotion::Other => self,
            }
        }
    }

    /// The turn that an interrupt is for, with the number of its request: the
    /// selected one, where it waits or runs, and else the one that runs.
    pub open spec fn interrupt_target(self) -> Option<(u64, Option<u64>)> {
        let thread = self.thread();
        let chosen = match selected_of(thread.history.len(), thread.selected) {
            Some(at) => match thread.history[at as int].entry {
                EntryModel::Assistant(turn) => if turn.status is Some {
                    Some((thread.history[at as int].id, turn.sequence_number))
                } else {
                    None
                },
                _ => None,
            },
            None => None,
        };
        match chosen {
            Some(target) => Some(target),
            None => match thread.running_assistant_id {
                Some(id) => Some((id, sequence_of(thread.history, id))),
                None => None,
            },
        }
    }

    /// A turn that waits is given up.
    pub open spec fn turn_cancelled(self, id: u64) -> AppModel {
        let thread = self.thread();
        self.with_active(
            ThreadModel {
                queue: thread.queue.filter(|job: ThreadJob| job.assistant_entry_id != id),
                history: without_id(thread.history, id),
                ..thread
            },
        )
    }

    /// An interrupt ends the turn that it is for: a request that was sent is
    /// interrupted, and a turn that only waits is given up. Where there is no
    /// such turn, the program ends.
    pub open spec fn interrupt_asked(self) -> (AppModel, EffectModel) {
        let thread = self.thread();
        let model_id = thread.current_config.model_id;
        match self.interrupt_target() {
            None => (self, EffectModel::Quit),
            Some((id, sequence_number)) => if !thread.connections.contains(model_id) {
                (self, EffectModel::Continue)
            } else {
                match sequence_number {
                    Some(sequence_number) => (
                        self,
                        EffectModel::Interrupt {
                            thread_index: self.active,
                            model_id,
                            sequence_number,
                        },
                    ),
                    None => (self.turn_cancelled(id), EffectModel::Continue),
                }
            },
        }
    }

    /// What a key does.
    pub open spec fn key_pressed(
        self,
        press: KeyPress,
        configs: Seq<ConfigView>,
        tools: Seq<ToolView>,
        now: u64,
    ) -> (AppModel, EffectModel) {
        let typing = self.mode == Mode::Command || self.mode == Mode::ConfirmDelete;
        if press.key == Key::Char('c') && press.control {
            self.interrupt_asked()
        } else if press.key == Key::Left && !typing {
            (self.cycled(-1), EffectModel::Continue)
        } else if press.key == Key::Right && !typing {
            (self.cycled(1), EffectModel::Continue)
        } else {
            match self.mode {
                Mode::Insert => self.insert_key(press, tools, now),
                Mode::Normal => self.normal_key(press),
                Mode::Command => self.command_key(press, configs, tools, now),
                Mode::ConfirmDelete => self.confirm_key(press, tools, now),
            }
        }
    }

    /// What the user does.
    pub open spec fn input_taken(
        self,
        event: InputEvent,
        configs: Seq<ConfigView>,
        tools: Seq<ToolView>,
        now: u64,
    ) -> (AppModel, EffectModel) {
        let app = AppModel { palette: self.palette.completing(config_ids(configs)), ..self };
        match event {
            InputEvent::Key(press) => app.key_pressed(press, configs, tools, now),
            InputEvent::Mouse(motion) => (app.mouse_moved(motion), EffectModel::Continue),
            InputEvent::Other => (app, EffectModel::Continue),
        }
    }
}

/// The number of the request for a turn.
pub open spec fn sequence_of(history: Seq<ItemModel>, id: u64) -> Option<u64> {
    match index_of_id(history, id) {
        Some(at) => match history[at].entry {
            EntryModel::Assistant(turn) => turn.sequence_number,
            _ => None,
        },
        None => None,
    }
}

/// Queues a turn that was added; says whether there was one.
fn queue_generation_for_turn(app: &mut AppState, assistant_id: u64, now: u64) -> (queued: bool)
    requires
        old(app).wf(),
        old(app)@.next_history_id < u64::MAX,
    ensures
        final(app).wf(),
        match old(app)@.turn_queued(assistant_id, now) {
            Some(expected) => queued && final(app)@ == expected,
            None => !queued && final(app)@ == old(app)@,
        },
{
    let active: usize = app.active_thread_idx;
    let ghost was = app@;
    let ghost thread = was.thread();
    assert(thread == app.threads@[active as int]@);
    let at: usize = match find_history_index(&app.threads[active], assistant_id) {
        Some(at) => at,
        None => return false,
    };
    assert(thread.history[at as int] == app.threads@[active as int].history@[at as int]@);
    let model_id = match &app.threads[active].history[at].entry {
        HistoryEntry::Assistant { model_id, .. } => model_id.clone(),
        _ => return false,
    };
    let loading_id: u64 = next_history_id(app);
    if !app.threads[active].loaded_models.contains(model_id.as_str()) {
        maybe_insert_loading_entry(&mut app.threads[active], at, loading_id, now);
        set_loading_status(
            &mut app.threads[active],
            model_id.as_str(),
            ModelLoadStatus::Loading { started_at: now },
        );
    }
    app.threads[active].queue.push_back(ThreadJob { assistant_entry_id: assistant_id });
    assert(app.threads@[active as int].queue@ =~= thread.queue.push(
        ThreadJob { assistant_entry_id: assistant_id },
    ));
    assert(app@ =~= was.turn_queued(assistant_id, now).unwrap());
    true
}

/// Replaces a prompt; says whether there was one.
fn edit_prompt(app: &mut AppState, entry_id: u64, input: String, now: u64) -> (edited: bool)
    requires
        old(app).wf(),
        old(app)@.next_history_id + old(app)@.thread().history.len() <= u64::MAX,
    ensures
        final(app).wf(),
        match old(app)@.prompt_edited(entry_id, input@, now) {
            Some(expected) => edited && final(app)@ == expected,
            None => !edited && final(app)@ == old(app)@,
        },
{
    let active: usize = app.active_thread_idx;
    let ghost was = app@;
    let ghost thread = was.thread();
    let ghost change = |turn: TurnModel| TurnModel { prompt: input@, ..turn_waiting(turn, now) };
    assert(thread == app.threads@[active as int]@);
    let at: usize = match find_history_index(&app.threads[active], entry_id) {
        Some(at) => at,
        None => return false,
    };
    let count: usize = app.threads[active].history.len();
    if let HistoryEntry::Assistant { prompt, blocks, callouts, status, sequence_number, .. } =
        &mut app.threads[active].history[at].entry {
        *prompt = input;
        *blocks = Vec::new();
        *callouts = Vec::new();
        *status = Some(AssistantStatus::Queued { started_at: now });
        *sequence_number = None;
        assert(block_models(blocks@) =~= Seq::empty());
        assert(texts(callouts@) =~= Seq::empty());
    }
    app.threads[active].selected_chat_entry = Some(at);
    app.threads[active].queue = VecDeque::new();
    let ghost edited = ThreadModel {
        history: turn_changed(thread.history, entry_id, change),
        selected: Some(at),
        queue: Seq::empty(),
        ..thread
    };
    assert(app.threads@[active as int]@.history =~= edited.history);
    assert(app.threads@[active as int].queue@ =~= Seq::empty());
    assert(app@ =~= was.with_active(edited));
    assert(edited.history.len() == count) by {
        lemma_index_of_id(thread.history, entry_id);
    }
    enqueue_replay_from_index(app, at, count, now);
    true
}

/// Sends a prompt.
pub fn submit_chat_turn(app: &mut AppState, input: String, tools: &[ToolSpec], now: u64) -> (effect:
    Effect)
    requires
        old(app).wf(),
        old(app)@.next_history_id + old(app)@.thread().history.len() + 1 < u64::MAX,
    ensures
        final(app).wf(),
        (final(app)@, effect@) == old(app)@.prompt_sent(input@, tool_views(tools@), now),
{
    let active: usize = app.active_thread_idx;
    let ghost was = app@;
    let ghost thread = was.thread();
    assert(thread == app.threads@[active as int]@);
    let queued = match app.threads[active].compose_target {
        ComposeTarget::EditEntry(entry_id) => edit_prompt(app, entry_id, input, now),
        ComposeTarget::AppendBottom => {
            let id: u64 = next_history_id(app);
            let model_id = app.threads[active].current_config.model_id.clone();
            insert_pending_assistant_turn(&mut app.threads[active], id, model_id, input, now);
            app.threads[active].selected_chat_entry = None;
            assert(app@ =~= was.prompt_added(input@, now));
            queue_generation_for_turn(app, id, now)
        },
    };
    let effect = if queued {
        maybe_start_next_job(app, tools, now)
    } else {
        Effect::Continue
    };
    follow_up(app, effect, AfterStart::WriteOn)
}

/// Takes a key while something is written.
pub fn handle_insert_key_event(press: KeyPress, app: &mut AppState, tools: &[ToolSpec], now: u64) -> (
    effect: Effect)
    requires
        old(app).wf(),
        old(app)@.next_history_id + old(app)@.thread().history.len() + 1 < u64::MAX,
    ensures
        final(app).wf(),
        (final(app)@, effect@) == old(app)@.insert_key(press, tool_views(tools@), now),
{
    let active: usize = app.active_thread_idx;
    let ghost was = app@;
    let ghost thread = was.thread();
    assert(thread == app.threads@[active as int]@);
    match press.key {
        Key::Esc => {
            exit_insert_mode(&mut app.threads[active]);
            app.mode = Mode::Normal;
            assert(app@ =~= was.insert_key(press, tool_views(tools@), now).0);
        },
        Key::Enter => {
            let input = trim(app.threads[active].draft.as_str()).to_string();
            app.threads[active].draft = String::new();
            assert(app.threads@[active as int].draft@ =~= Seq::<char>::empty());
            assert(app@ =~= was.with_active(ThreadModel { draft: Seq::empty(), ..thread }));
            if input.as_str().is_empty() {
                return Effect::Continue;
            }
            return submit_chat_turn(app, input, tools, now);
        },
        Key::Backspace => {
            let _ = app.threads[active].draft.pop();
            assert(app@ =~= was.insert_key(press, tool_views(tools@), now).0);
        },
        Key::Char(ch) => {
            if !press.control && !press.alt && !press.command {
                app.threads[active].draft.push(ch);
                assert(app@ =~= was.insert_key(press, tool_views(tools@), now).0);
            }
        },
        _ => {},
    }
    Effect::Continue
}

/// Moves the selection by one.
fn select_neighbour(app: &mut AppState, down: bool)
    requires
        old(app).wf(),
    ensures
        final(app).wf(),
        final(app)@ == old(app)@.selection_moved(
            if down {
                1
            } else {
                -1
            },
        ),
{
    let active: usize = app.active_thread_idx;
    assert(app@.thread() == app.threads@[active as int]@);
    let delta: isize = if down {
        1
    } else {
        -1
    };
    app.threads[active].scroll_anchor = if down {
        ScrollAnchor::Bottom
    } else {
        ScrollAnchor::Top
    };
    let selected = move_selection(&app.threads[active], delta);
    app.threads[active].selected_chat_entry = selected;
    assert(app@ =~= old(app)@.selection_moved(delta as int));
}

/// Begins writing before or after the selected entry.
pub fn open_inline_compose_relative(app: &mut AppState, position: InlinePosition)
    requires
        old(app).wf(),
        position == InlinePosition::Before ==> old(app)@.opens_before(),
        old(app)@.next_history_id < u64::MAX,
    ensures
        final(app).wf(),
        final(app)@ == old(app)@.inline_compose_opened(position),
{
    let active: usize = app.active_thread_idx;
    let ghost was = app@;
    let ghost thread = was.thread();
    assert(thread == app.threads@[active as int]@);
    let selected: usize = match app.threads[active].selected_chat_entry {
        Some(selected) => selected,
        None => {
            open_footer_compose(app);
            return;
        },
    };
    let count: usize = app.threads[active].history.len();
    if position == InlinePosition::After && (selected >= count || selected + 1 >= count) {
        open_footer_compose(app);
        return;
    }
    let at: usize = match position {
        InlinePosition::Before => selected,
        InlinePosition::After => selected + 1,
    };
    let id: u64 = next_history_id(app);
    let model_id = app.threads[active].current_config.model_id.clone();
    let prompt = String::new();
    assert(prompt@ =~= Seq::<char>::empty());
    insert_assistant_turn_at(&mut app.threads[active], at, id, model_id, prompt, None);
    app.threads[active].selected_chat_entry = Some(at);
    app.threads[active].compose_target = ComposeTarget::EditEntry(id);
    app.threads[active].draft = String::new();
    app.mode = Mode::Insert;
    assert(app.threads@[active as int].draft@ =~= Seq::<char>::empty());
    assert(app@ =~= was.inline_compose_opened(position));
}

/// The selected entry of the conversation that is shown.
fn selected_entry(app: &AppState) -> (selected: Option<usize>)
    requires
        app.wf(),
    ensures
        selected == selected_of(app@.thread().history.len(), app@.thread().selected),
{
    let thread = &app.threads[app.active_thread_idx];
    let entries = history_entries(thread);
    assert(entries@.len() == app@.thread().history.len()) by {
        assert(entry_models(entries@).len() == entries@.len());
    }
    selected_transcript_index(entries.as_slice(), thread.selected_chat_entry)
}

/// Edits the selected entry.
fn edit_selection(app: &mut AppState)
    requires
        old(app).wf(),
    ensures
        final(app).wf(),
        final(app)@ == old(app)@.selection_edited(),
{
    let active: usize = app.active_thread_idx;
    let ghost was = app@;
    let ghost thread = was.thread();
    assert(thread == app.threads@[active as int]@);
    if let Some(at) = selected_entry(app) {
        assert(thread.history[at as int] == app.threads@[active as int].history@[at as int]@);
        let entry_id: u64 = app.threads[active].history[at].id;
        match selection_edit_action(&app.threads[active].history[at].entry) {
            Some(SelectionEditAction::Prompt(draft)) => {
                app.threads[active].selected_chat_entry = Some(at);
                app.threads[active].compose_target = ComposeTarget::EditEntry(entry_id);
                app.threads[active].draft = draft;
                app.mode = Mode::Insert;
                assert(app@ =~= was.selection_edited());
            },
            Some(SelectionEditAction::Command(draft)) => {
                app.mode = Mode::Command;
                app.command_edit_target = Some(entry_id);
                app.command_palette.open_with_draft(draft.as_str());
            },
            None => {},
        }
    }
}

/// Takes a key while nothing is written.
pub fn handle_normal_key_event(press: KeyPress, app: &mut AppState) -> (effect: Effect)
    requires
        old(app).wf(),
        press.key == Key::Char('O') ==> old(app)@.opens_before(),
        old(app)@.next_history_id < u64::MAX,
    ensures
        final(app).wf(),
        (final(app)@, effect@) == old(app)@.normal_key(press),
{
    let active: usize = app.active_thread_idx;
    let ghost thread = app@.thread();
    assert(thread == app.threads@[active as int]@);
    match press.key {
        Key::Enter => open_footer_compose(app),
        Key::Char(':') => {
            app.mode = Mode::Command;
            app.command_edit_target = None;
            app.command_palette.open();
        },
        Key::Char('i') => edit_selection(app),
        Key::Char('o') => open_inline_compose_relative(app, InlinePosition::After),
        Key::Char('O') => open_inline_compose_relative(app, InlinePosition::Before),
        Key::Char('j') => select_neighbour(app, true),
        Key::Down => select_neighbour(app, true),
        Key::Char('k') => select_neighbour(app, false),
        Key::Up => select_neighbour(app, false),
        Key::Char('y') => {
            if let Some(at) = selected_entry(app) {
                let entries = history_entries(&app.threads[active]);
                proof {
                    let models = entry_models(entries@);
                    assert(models.len() == thread.history.len());
                    assert(models[at as int] == thread.history[at as int].entry);
                    assert(models[at as int] == entries@[at as int]@);
                }
                return Effect::CopyText(clipboard_text(entries.as_slice(), at));
            }
        },
        Key::Char('d') => {
            if let Some(at) = selected_entry(app) {
                assert(thread.history[at as int]
                    == app.threads@[active as int].history@[at as int]@);
                app.delete_target_id = Some(app.threads[active].history[at].id);
                app.mode = Mode::ConfirmDelete;
            }
        },
        Key::Left => cycle_active_tab_relative(app, -1),
        Key::Right => cycle_active_tab_relative(app, 1),
        Key::Tab => cycle_active_tab(app),
        _ => {},
    }
    Effect::Continue
}

/// Takes back the empty command that held the place of one.
pub fn cancel_inline_command_insert(app: &mut AppState)
    requires
        old(app).wf(),
    ensures
        final(app).wf(),
        final(app)@ == old(app)@.inline_command_cancelled(),
{
    let (id, anchor): (u64, usize) = match app.inline_command_placeholder {
        Some((id, anchor)) => (id, anchor),
        None => return,
    };
    let active: usize = app.active_thread_idx;
    let ghost was = app@;
    let ghost thread = was.thread();
    assert(thread == app.threads@[active as int]@);
    app.inline_command_placeholder = None;
    if let Some(at) = find_history_index(&app.threads[active], id) {
        let _ = app.threads[active].history.remove(at);
        let ghost shorter = reconfigured(with_history(thread, thread.history.remove(at as int)));
        assert(app.threads@[active as int]@.history =~= shorter.history);
        recompute_thread_config(&mut app.threads[active]);
        assert(app.threads@[active as int]@ == shorter);
        let count: usize = app.threads[active].history.len();
        assert(count == shorter.history.len());
        app.threads[active].selected_chat_entry = if count == 0 {
            None
        } else if anchor < count {
            Some(anchor)
        } else {
            Some(count - 1)
        };
        assert(app@ =~= was.inline_command_cancelled());
    }
}

/// Shows why a line is no command.
pub fn push_command_error(command_palette: &mut CommandPaletteState, error: CommandParseError)
    requires
        old(command_palette).model().wf(),
    ensures
        final(command_palette).model().wf(),
        final(command_palette).model() == (match error@ {
            ParseErrorView::Empty => old(command_palette).model(),
            ParseErrorView::Incomplete(message) => old(command_palette).model().failing(message),
            ParseErrorView::Invalid(message) => old(command_palette).model().failing(message),
        }),
{
    match error {
        CommandParseError::Empty => {},
        CommandParseError::Incomplete(message) => command_palette.set_error(message),
        CommandParseError::Invalid(message) => command_palette.set_error(message),
    }
}

/// Takes a key on the command line.
pub fn handle_command_key_event(
    press: KeyPress,
    app: &mut AppState,
    registry: &RuntimeRegistry,
    tools: &[ToolSpec],
    now: u64,
) -> (effect: Effect)
    requires
        old(app).wf(),
        press.key == Key::Enter ==> old(app)@.opens_before(),
        old(app)@.next_history_id + old(app)@.thread().history.len() < u64::MAX,
    ensures
        final(app).wf(),
        (final(app)@, effect@) == old(app)@.command_key(
            press,
            registry@,
            tool_views(tools@),
            now,
        ),
{
    match press.key {
        Key::Esc => {
            cancel_inline_command_insert(app);
            app.command_palette.close();
            app.command_edit_target = None;
            app.mode = Mode::Normal;
        },
        Key::Tab => {
            let _ = app.command_palette.cycle_selection();
        },
        Key::Enter => match app.command_palette.commit() {
            Ok(CommandCommit::StayOpen) => {},
            Ok(CommandCommit::Execute(dispatch)) => {
                return execute_command_dispatch(dispatch, app, registry, tools, now);
            },
            Err(error) => push_command_error(&mut app.command_palette, error),
        },
        Key::Backspace => app.command_palette.backspace(),
        Key::Char(ch) => {
            if !press.control && !press.alt && !press.command {
                app.command_palette.input_char(ch);
            }
        },
        _ => {},
    }
    Effect::Continue
}

/// Deletes an entry.
pub fn delete_history_entry(app: &mut AppState, target_id: u64, tools: &[ToolSpec], now: u64) -> (
    effect: Effect)
    requires
        old(app).wf(),
        old(app)@.next_history_id + old(app)@.thread().history.len() <= u64::MAX,
    ensures
        final(app).wf(),
        (final(app)@, effect@) == old(app)@.entry_deleted(target_id, tool_views(tools@), now),
{
    let active: usize = app.active_thread_idx;
    let ghost was = app@;
    let ghost thread = was.thread();
    assert(thread == app.threads@[active as int]@);
    let at: usize = match find_history_index(&app.threads[active], target_id) {
        Some(at) => at,
        None => return Effect::Continue,
    };
    let count: usize = app.threads[active].history.len();
    assert(count == thread.history.len());
    assert(thread.history[at as int] == app.threads@[active as int].history@[at as int]@);
    let replays = match &app.threads[active].history[at].entry {
        HistoryEntry::LoadingModel { .. } => false,
        HistoryEntry::SystemNotice(_) => false,
        _ => true,
    };
    let mut loading_follows = false;
    if at + 1 < count {
        assert(thread.history[at + 1] == app.threads@[active as int].history@[at + 1]@);
        if let HistoryEntry::LoadingModel { .. } = &app.threads[active].history[at + 1].entry {
            loading_follows = true;
        }
    }
    let ghost without_loading = if loading_follows {
        thread.history.remove(at + 1)
    } else {
        thread.history
    };
    if loading_follows {
        let _ = app.threads[active].history.remove(at + 1);
    }
    assert(app.threads@[active as int]@.history =~= without_loading);
    let _ = app.threads[active].history.remove(at);
    assert(app.threads@[active as int]@.history =~= without_loading.remove(at as int));
    recompute_thread_config(&mut app.threads[active]);
    let ghost shorter = reconfigured(with_history(thread, without_loading.remove(at as int)));
    assert(app.threads@[active as int]@ == shorter);
    assert(app@ =~= was.with_active(shorter));
    if replays {
        let left: usize = app.threads[active].history.len();
        assert(left == shorter.history.len());
        enqueue_replay_from_index(app, at, left, now);
        maybe_start_next_job(app, tools, now)
    } else {
        Effect::Continue
    }
}

/// Takes a key while a deletion waits to be confirmed.
pub fn handle_confirm_delete_key_event(
    press: KeyPress,
    app: &mut AppState,
    tools: &[ToolSpec],
    now: u64,
) -> (effect: Effect)
    requires
        old(app).wf(),
        old(app)@.next_history_id + old(app)@.thread().history.len() <= u64::MAX,
    ensures
        final(app).wf(),
        (final(app)@, effect@) == old(app)@.confirm_key(press, tool_views(tools@), now),
{
    match press.key {
        Key::Char('n') => {
            app.delete_target_id = None;
            app.mode = Mode::Normal;
        },
        Key::Esc => {
            app.delete_target_id = None;
            app.mode = Mode::Normal;
        },
        Key::Char('y') => {
            let target = app.delete_target_id;
            app.delete_target_id = None;
            let effect = match target {
                Some(target_id) => delete_history_entry(app, target_id, tools, now),
                None => Effect::Continue,
            };
            return follow_up(app, effect, AfterStart::EndDeletion);
        },
        _ => {},
    }
    Effect::Continue
}

/// Takes what the mouse did.
pub fn handle_mouse_event(motion: MouseMotion, app: &mut AppState)
    requires
        old(app).wf(),
    ensures
        final(app).wf(),
        final(app)@ == old(app)@.mouse_moved(motion),
{
    if app.mode == Mode::Command || app.mode == Mode::ConfirmDelete {
        return;
    }
    match motion {
        MouseMotion::ScrollUp => {
            select_neighbour(app, false);
            app.mode = Mode::Normal;
        },
        MouseMotion::ScrollDown => select_neighbour(app, true),
        MouseMotion::Other => {},
    }
}

/// The turn that an interrupt is for, with the number of its request.
pub fn selected_interrupt_target(app: &AppState) -> (target: Option<(u64, Option<u64>)>)
    requires
        app.wf(),
    ensures
        target == app@.interrupt_target(),
{
    let thread = &app.threads[app.active_thread_idx];
    let ghost model = app@.thread();
    if let Some(at) = selected_entry(app) {
        assert(model.history[at as int] == thread.history@[at as int]@);
        if let HistoryEntry::Assistant { status, sequence_number, .. } = &thread.history[at].entry {
            if status.is_some() {
                return Some((thread.history[at].id, *sequence_number));
            }
        }
    }
    match thread.running_assistant_id {
        Some(id) => {
            let mut sequence: Option<u64> = None;
            if let Some(at) = find_history_index(thread, id) {
                assert(model.history[at as int] == thread.history@[at as int]@);
                if let HistoryEntry::Assistant { sequence_number, .. } = &thread.history[at].entry {
                    sequence = *sequence_number;
                }
            }
            Some((id, sequence))
        },
        None => None,
    }
}

/// The turns that wait, without one.
fn other_jobs(queue: &VecDeque<ThreadJob>, id: u64) -> (others: VecDeque<ThreadJob>)
    ensures
        others@ == queue@.filter(|job: ThreadJob| job.assistant_entry_id != id),
{
    let ghost keep = |job: ThreadJob| job.assistant_entry_id != id;
    let mut others: VecDeque<ThreadJob> = VecDeque::new();
    let mut i: usize = 0;
    proof {
        reveal(Seq::filter);
    }
    assert(others@ =~= queue@.take(0).filter(keep));
    while i < queue.len()
        invariant
            i <= queue@.len(),
            keep == |job: ThreadJob| job.assistant_entry_id != id,
            others@ == queue@.take(i as int).filter(keep),
        decreases queue@.len() - i,
    {
        proof {
            reveal(Seq::filter);
            assert(queue@.take(i + 1).drop_last() =~= queue@.take(i as int));
            assert(queue@.take(i + 1).last() == queue@[i as int]);
        }
        if queue[i].assistant_entry_id != id {
            others.push_back(queue[i]);
        }
        i = i + 1;
    }
    assert(queue@.take(queue@.len() as int) =~= queue@);
    others
}

/// Gives up a turn that waits.
pub fn cancel_queued_assistant(app: &mut AppState, assistant_id: u64)
    requires
        old(app).wf(),
    ensures
        final(app).wf(),
        final(app)@ == old(app)@.turn_cancelled(assistant_id),
{
    let active: usize = app.active_thread_idx;
    assert(app@.thread() == app.threads@[active as int]@);
    let others = other_jobs(&app.threads[active].queue, assistant_id);
    app.threads[active].queue = others;
    remove_history_entry(&mut app.threads[active], assistant_id);
    assert(app@ =~= old(app)@.turn_cancelled(assistant_id));
}

/// Takes an interrupt.
pub fn handle_ctrl_c(app: &mut AppState) -> (effect: Effect)
    requires
        old(app).wf(),
    ensures
        final(app).wf(),
        (final(app)@, effect@) == old(app)@.interrupt_asked(),
{
    let active: usize = app.active_thread_idx;
    assert(app@.thread() == app.threads@[active as int]@);
    let (id, sequence): (u64, Option<u64>) = match selected_interrupt_target(app) {
        Some((id, sequence)) => (id, sequence),
        None => return Effect::Quit,
    };
    let model_id = app.threads[active].current_config.model_id.clone();
    if !app.threads[active].connections.contains(model_id.as_str()) {
        return Effect::Continue;
    }
    match sequence {
        Some(sequence_number) => Effect::Interrupt {
            thread_index: active,
            model_id,
            sequence_number,
        },
        None => {
            cancel_queued_assistant(app, id);
            Effect::Continue
        },
    }
}

/// Takes a key.
fn handle_key_event(
    press: KeyPress,
    app: &mut AppState,
    registry: &RuntimeRegistry,
    tools: &[ToolSpec],
    now: u64,
) -> (effect: Effect)
    requires
        old(app).wf(),
        press.may_open_before(old(app)@.mode) ==> old(app)@.opens_before(),
        old(app)@.next_history_id + old(app)@.thread().history.len() + 1 < u64::MAX,
    ensures
        final(app).wf(),
        (final(app)@, effect@) == old(app)@.key_pressed(
            press,
            registry@,
            tool_views(tools@),
            now,
        ),
{
    if press.key == Key::Char('c') && press.control {
        return handle_ctrl_c(app);
    }
    let typing = app.mode == Mode::Command || app.mode == Mode::ConfirmDelete;
    if press.key == Key::Left && !typing {
        cycle_active_tab_relative(app, -1);
        return Effect::Continue;
    }
    if press.key == Key::Right && !typing {
        cycle_active_tab_relative(app, 1);
        return Effect::Continue;
    }
    match app.mode {
        Mode::Insert => handle_insert_key_event(press, app, tools, now),
        Mode::Normal => handle_normal_key_event(press, app),
        Mode::Command => handle_command_key_event(press, app, registry, tools, now),
        Mode::ConfirmDelete => handle_confirm_delete_key_event(press, app, tools, now),
    }
}

/// Takes what the user did.
pub fn handle_input_event(
    event: InputEvent,
    app: &mut AppState,
    registry: &RuntimeRegistry,
    tools: &[ToolSpec],
    now: u64,
) -> (effect: Effect)
    requires
        old(app).wf(),
        event matches InputEvent::Key(press) ==> press.may_open_before(old(app)@.mode) ==> old(
            app,
        )@.opens_before(),
        old(app)@.has_room(),
    ensures
        final(app).wf(),
        (final(app)@, effect@) == old(app)@.input_taken(
            event,
            registry@,
            tool_views(tools@),
            now,
        ),
{
    assert(app@.threads[app@.active as int] == app@.thread());
    app.command_palette.set_model_ids(registry.ids());
    match event {
        InputEvent::Key(press) => handle_key_event(press, app, registry, tools, now),
        InputEvent::Mouse(motion) => {
            handle_mouse_event(motion, app);
            Effect::Continue
        },
        InputEvent::Other => Effect::Continue,
    }
}

/// Adds a notice to the conversation that is shown.
pub fn push_notice_current(app: &mut AppState, message: String)
    requires
        old(app).wf(),
        old(app)@.next_history_id < u64::MAX,
    ensures
        final(app).wf(),
        final(app)@ == old(app)@.entry_added(
            EntryModel::SystemNotice(message@),
            MetaModel::Plain,
        ),
{
    let active: usize = app.active_thread_idx;
    let id: u64 = next_history_id(app);
    push_history_entry(
        &mut app.threads[active],
        id,
        HistoryEntry::SystemNotice(message),
        HistoryMeta::Plain,
    );
    assert(app@ =~= old(app)@.entry_added(EntryModel::SystemNotice(message@), MetaModel::Plain));
}

/// Goes on once a text was copied, or could not be.
pub fn resume_copy(app: &mut AppState, copied: Result<(), String>)
    requires
        old(app).wf(),
        old(app)@.next_history_id < u64::MAX,
    ensures
        final(app).wf(),
        final(app)@ == (match copied {
            Ok(()) => old(app)@,
            Err(message) => old(app)@.entry_added(
                EntryModel::SystemNotice("clipboard error: "@ + message@),
                MetaModel::Plain,
            ),
        }),
{
    if let Err(message) = copied {
        push_notice_current(app, joined("clipboard error: ", message.as_str()));
    }
}

/// Brings the conversation that is shown up to date after an event.
pub fn settle(app: &mut AppState)
    requires
        old(app).wf(),
    ensures
        final(app).wf(),
        final(app)@ == old(app)@.with_active(normalized(old(app)@.thread())),
        final(app)@.settled(),
{
    let active: usize = app.active_thread_idx;
    assert(app@.thread() == app.threads@[active as int]@);
    let count: usize = app.threads[active].history.len();
    assert(count == app@.thread().history.len());
    normalize_selection(&mut app.threads[active]);
    proof {
        normalizing_settles_the_selection(old(app)@.thread());
        assert(app@ =~= old(app)@.with_active(normalized(old(app)@.thread())));
    }
}

} // verus!
