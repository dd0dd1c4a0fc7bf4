//! What commands do.

use vstd::prelude::*;
use vstd::string::*;

use crate::agent::{tool_views, ToolSpec, ToolView};
use crate::app_model::{
    followed_up, target_index, target_text, AfterStart, AppModel, EffectModel, PurposeModel,
};
use crate::command_palette::{CommandDispatch, DispatchView, TabTarget, TargetView};
use crate::history::{
    item_models, CommandFamily, CommandKind, EntryModel, HistoryEntry, HistoryItem, HistoryMeta,
    ItemModel, KindModel, MetaModel, Mode,
};
use crate::runtime::{config_ids, config_named, ConfigView, RuntimeRegistry};
use crate::session::{
    activate_thread_index, close_command_mode, enqueue_replay_from_index, follow_up,
    maybe_start_next_job, next_history_id, note_connection, render_tab_target, resolve_tab_target,
    AppState, Effect, OpenPurpose,
};
use crate::text::{join_lines, joined, lines_joined, same_text, texts, trim, trimmed};
use crate::thread::{
    entry_replaced, find_history_index, fresh_thread, index_of_id, labels_of, lemma_index_of_id,
    push_history_entry, recompute_thread_config, reconfigured, replace_history_entry, tab_labels,
    with_history, ConfigModel, ThreadModel, ThreadState,
};

verus! {

/// Whether an entry is put before or after the selected one.
#[derive(Debug, Clone, Copy, PartialEq, Eq, Structural)]
pub enum InlinePosition {
    Before,
    After,
}

/// The first command of a family from a place on.
pub open spec fn next_of_family(
    history: Seq<ItemModel>,
    from: int,
    family: Option<CommandFamily>,
) -> Option<int>
    decreases history.len() - from,
{
    if from >= history.len() || family is None {
        None
    } else if in_family(history[from].meta, family) {
        Some(from)
    } else {
        next_of_family(history, from + 1, family)
    }
}

/// Whether an entry is a command of a family.
pub open spec fn in_family(meta: MetaModel, family: Option<CommandFamily>) -> bool {
    family is Some && (meta matches MetaModel::Command(kind) && kind.family() == family)
}

impl AppModel {
    /// The turns after an edited command are queued again, up to the next command
    /// of its family. Where that one says the same, it goes, and the turns after
    /// it are queued too.
    pub open spec fn command_replayed(self, at: int, kind: KindModel, now: u64) -> AppModel {
        let thread = self.thread();
        match next_of_family(thread.history, at + 1, kind.family()) {
            Some(next) => if thread.history[next].meta == MetaModel::Command(kind) {
                let shorter = reconfigured(with_history(thread, thread.history.remove(next)));
                self.with_active(shorter).replay_queued(
                    at + 1,
                    shorter.history.len() as int,
                    now,
                )
            } else {
                self.with_active(reconfigured(thread)).replay_queued(at + 1, next, now)
            },
            None => self.with_active(reconfigured(thread)).replay_queued(
                at + 1,
                thread.history.len() as int,
                now,
            ),
        }
    }

    /// A command is entered: where one is edited, it is replaced, and the turns
    /// that it counts for are answered anew; else it is added at the end.
    pub open spec fn command_entered(
        self,
        entry: EntryModel,
        kind: KindModel,
        replay_affecting: bool,
        tools: Seq<ToolView>,
        now: u64,
    ) -> (AppModel, EffectModel) {
        let meta = MetaModel::Command(kind);
        match self.command_edit_target {
            Some(id) => {
                let edited = reconfigured(
                    with_history(
                        self.thread(),
                        entry_replaced(self.thread().history, id, entry, meta),
                    ),
                );
                let app = AppModel { command_edit_target: None, ..self }.with_active(edited);
                match index_of_id(edited.history, id) {
                    Some(at) => if replay_affecting {
                        followed_up(
                            app.command_replayed(at, kind, now).active_job_started(tools, now),
                            AfterStart::CloseCommand,
                        )
                    } else {
                        (app.command_mode_closed(), EffectModel::Continue)
                    },
                    None => (app.command_mode_closed(), EffectModel::Continue),
                }
            },
            None => {
                let added = self.entry_added(entry, meta);
                (
                    added.with_active(reconfigured(added.thread())).command_mode_closed(),
                    EffectModel::Continue,
                )
            },
        }
    }

    /// The model of the conversation is switched.
    pub open spec fn model_switched(self, model_id: Seq<char>, tools: Seq<ToolView>, now: u64) -> (
        AppModel,
        EffectModel,
    ) {
        self.command_entered(
            EntryModel::Command {
                raw: "model "@ + model_id,
                result: "active model: "@ + model_id,
            },
            KindModel::Model(model_id),
            true,
            tools,
            now,
        )
    }

    /// The model of the conversation is switched once the connection to it is
    /// open, or could not be had.
    pub open spec fn switch_resumed(
        self,
        model_id: Seq<char>,
        opened: Result<(), Seq<char>>,
        tools: Seq<ToolView>,
        now: u64,
    ) -> (AppModel, EffectModel) {
        match opened {
            Ok(()) => self.connected(self.active as int, model_id).model_switched(
                model_id,
                tools,
                now,
            ),
            Err(message) => (self, EffectModel::Fail(message)),
        }
    }

    /// A conversation is added once the connection to its model is open, or could
    /// not be had. It is shown, and has the tool setting of the one that was
    /// shown.
    pub open spec fn tab_resumed(self, model_id: Seq<char>, opened: Result<(), Seq<char>>) -> (
        AppModel,
        EffectModel,
    ) {
        match opened {
            Ok(()) => {
                let config = ConfigModel {
                    model_id,
                    tools_enabled: self.thread().current_config.tools_enabled,
                };
                let added = AppModel {
                    threads: self.threads.push(fresh_thread(self.next_tab_id, config)),
                    next_tab_id: (self.next_tab_id + 1) as usize,
                    ..self
                };
                (
                    added.activated(self.threads.len() as int).command_mode_closed(),
                    EffectModel::Continue,
                )
            },
            Err(message) => (self, EffectModel::Fail(message)),
        }
    }

    /// The conversation is broken: at the end, or where a command is edited in
    /// its place. Then the turns after it are answered anew.
    pub open spec fn break_entered(self, tools: Seq<ToolView>, now: u64) -> (
        AppModel,
        EffectModel,
    ) {
        match self.command_edit_target {
            Some(id) => {
                let edited = reconfigured(
                    with_history(
                        self.thread(),
                        entry_replaced(
                            self.thread().history,
                            id,
                            EntryModel::Break,
                            MetaModel::Plain,
                        ),
                    ),
                );
                let app = AppModel { command_edit_target: None, ..self }.with_active(edited);
                match index_of_id(edited.history, id) {
                    Some(at) => followed_up(
                        app.replay_queued(
                            at,
                            edited.history.len() as int,
                            now,
                        ).active_job_started(tools, now),
                        AfterStart::CloseCommand,
                    ),
                    None => (app.command_mode_closed(), EffectModel::Continue),
                }
            },
            None => (
                self.entry_added(
                    EntryModel::Break,
                    MetaModel::Plain,
                ).command_mode_closed(),
                EffectModel::Continue,
            ),
        }
    }

    /// The command line is opened for a command that goes before or after the
    /// selected entry; an empty command holds its place.
    pub open spec fn inline_command_opened(self, position: InlinePosition) -> AppModel {
        let thread = self.thread();
        match thread.selected {
            None => AppModel { command_edit_target: None, ..self }.command_opened(),
            Some(selected) => {
                let at = match position {
                    InlinePosition::Before => selected as int,
                    InlinePosition::After => selected + 1,
                };
                if at > thread.history.len() {
                    self.command_opened()
                } else {
                    let id = self.next_history_id;
                    let placed = ThreadModel {
                        history: thread.history.insert(
                            at,
                            ItemModel {
                                id,
                                entry: EntryModel::Command {
                                    raw: Seq::empty(),
                                    result: Seq::empty(),
                                },
                                meta: MetaModel::Plain,
                            },
                        ),
                        selected: Some(at as usize),
                        ..thread
                    };
                    AppModel {
                        command_edit_target: Some(id),
                        inline_command_placeholder: Some((id, selected)),
                        ..self.with_active(placed).ids_taken(1)
                    }.command_opened()
                }
            },
        }
    }

    /// A conversation gets a name, which no other may have.
    pub open spec fn tab_renamed(self, target: TargetView, new_name: Seq<char>) -> AppModel {
        let name = trimmed(new_name);
        if name.len() == 0 {
            self.command_failed("tab name cannot be empty"@)
        } else if labels_of(self.threads).contains(name) {
            self.command_failed("tab name already exists: "@ + name)
        } else {
            match target_index(self.threads, target) {
                Some(at) => self.with_thread(
                    at,
                    ThreadModel { name_override: Some(name), ..self.threads[at] },
                ).command_mode_closed(),
                None => self.command_failed("unknown tab target: "@ + target_text(target)),
            }
        }
    }

    /// A conversation is given up, unless it is the only one. The one that then
    /// stands in the place of the one that was shown is shown, or the last one.
    pub open spec fn tab_killed(self, target: TargetView) -> (AppModel, EffectModel) {
        if self.threads.len() == 1 {
            (
                self.command_failed("cannot kill the final remaining tab"@),
                EffectModel::Continue,
            )
        } else {
            match target_index(self.threads, target) {
                Some(at) => (
                    AppModel { threads: self.threads.remove(at), ..self }.activated(
                        self.active as int,
                    ).command_mode_closed(),
                    EffectModel::CloseConnections { tab_id: self.threads[at].tab_id },
                ),
                None => (
                    self.command_failed("unknown tab target: "@ + target_text(target)),
                    EffectModel::Continue,
                ),
            }
        }
    }

    /// What a command does.
    pub open spec fn executed(
        self,
        dispatch: DispatchView,
        configs: Seq<ConfigView>,
        tools: Seq<ToolView>,
        now: u64,
    ) -> (AppModel, EffectModel) {
        match dispatch {
            DispatchView::Quit => (self, EffectModel::Quit),
            DispatchView::OpenModelPrefix => (self, EffectModel::Continue),
            DispatchView::OpenToolsPrefix => (self, EffectModel::Continue),
            DispatchView::OpenTabPrefix => (self, EffectModel::Continue),
            DispatchView::OpenCommandAfter => (
                self.inline_command_opened(InlinePosition::After),
                EffectModel::Continue,
            ),
            DispatchView::OpenCommandBefore => (
                self.inline_command_opened(InlinePosition::Before),
                EffectModel::Continue,
            ),
            DispatchView::ListModels => self.command_entered(
                EntryModel::Command {
                    raw: "model ls"@,
                    result: lines_joined(config_ids(configs)),
                },
                KindModel::ModelList,
                false,
                tools,
                now,
            ),
            DispatchView::SwitchModel(model_id) => if config_named(configs, model_id) is None {
                (self.command_failed(unknown_model(model_id)), EffectModel::Continue)
            } else if self.thread().connections.contains(model_id) {
                self.model_switched(model_id, tools, now)
            } else {
                (
                    self,
                    EffectModel::OpenConnection {
                        thread_index: self.active,
                        model_id,
                        purpose: PurposeModel::SwitchModel,
                    },
                )
            },
            DispatchView::SetToolsEnabled(enabled) => self.command_entered(
                if enabled {
                    EntryModel::Command {
                        raw: "tools enable"@,
                        result: "tools prompt is now enabled"@,
                    }
                } else {
                    EntryModel::Command {
                        raw: "tools disable"@,
                        result: "tools prompt is now disabled"@,
                    }
                },
                KindModel::Tools(enabled),
                true,
                tools,
                now,
            ),
            DispatchView::Break => self.break_entered(tools, now),
            DispatchView::ActivateTab(target) => match target_index(self.threads, target) {
                Some(at) => (self.activated(at).command_mode_closed(), EffectModel::Continue),
                None => (
                    self.command_failed("unknown tab target: "@ + target_text(target)),
                    EffectModel::Continue,
                ),
            },
            DispatchView::NewTab(model_id) => if config_named(configs, model_id) is None {
                (self.command_failed(unknown_model(model_id)), EffectModel::Continue)
            } else {
                (
                    self,
                    EffectModel::OpenConnection {
                        thread_index: self.active,
                        model_id,
                        purpose: PurposeModel::NewTab,
                    },
                )
            },
            DispatchView::RenameTab { target, new_name } => (
                self.tab_renamed(target, new_name),
                EffectModel::Continue,
            ),
            DispatchView::KillTab(target) => self.tab_killed(target),
        }
    }
}

/// The error for a model that there is not.
pub open spec fn unknown_model(model_id: Seq<char>) -> Seq<char> {
    model_id + " is not a recognised model, use :model ls to show available models"@
}

/// Shows an error with the command line.
fn fail_command(app: &mut AppState, message: String)
    requires
        old(app).wf(),
    ensures
        final(app).wf(),
        final(app)@ == old(app)@.command_failed(message@),
{
    app.command_palette.set_error(message);
}

/// Finds the next command of a family, from a place on.
fn find_next_of_family(
    thread: &ThreadState,
    from: usize,
    family: Option<CommandFamily>,
) -> (found: Option<usize>)
    ensures
        next_of_family(thread@.history, from as int, family) == (match found {
            Some(at) => Some(at as int),
            None => None::<int>,
        }),
        found matches Some(at) ==> from <= at < thread@.history.len(),
{
    let ghost all = thread@.history;
    let mut at: usize = from;
    while at < thread.history.len()
        invariant
            from <= at,
            all == item_models(thread.history@),
            next_of_family(all, from as int, family) == next_of_family(all, at as int, family),
        decreases thread.history@.len() - at,
    {
        assert(all[at as int] == thread.history@[at as int]@);
        if family.is_some() {
            if let HistoryMeta::Command(kind) = &thread.history[at].meta {
                if kind.family() == family {
                    return Some(at);
                }
            }
        }
        at = at + 1;
    }
    assert(next_of_family(all, at as int, family) is None);
    None
}

/// Queues the turns after an edited command.
fn replay_edited_command(
    app: &mut AppState,
    command_index: usize,
    kind: &CommandKind,
    now: u64,
)
    requires
        old(app).wf(),
        command_index < old(app)@.thread().history.len(),
        old(app)@.next_history_id + old(app)@.thread().history.len() <= u64::MAX,
    ensures
        final(app).wf(),
        final(app)@ == old(app)@.command_replayed(command_index as int, kind@, now),
{
    let active: usize = app.active_thread_idx;
    let ghost was = app@;
    let ghost thread = was.thread();
    assert(thread == app.threads@[active as int]@);
    let count: usize = app.threads[active].history.len();
    let next = find_next_of_family(&app.threads[active], command_index + 1, kind.family());
    match next {
        Some(at) => {
            assert(thread.history[at as int] == app.threads@[active as int].history@[at as int]@);
            let same = match &app.threads[active].history[at].meta {
                HistoryMeta::Command(other) => kind.matches_semantics(other),
                HistoryMeta::Plain => false,
            };
            if same {
                let _ = app.threads[active].history.remove(at);
                assert(app.threads@[active as int]@.history =~= thread.history.remove(at as int));
                recompute_thread_config(&mut app.threads[active]);
                let ghost shorter = reconfigured(
                    with_history(thread, thread.history.remove(at as int)),
                );
                assert(app.threads@[active as int]@ == shorter);
                assert(app@ =~= was.with_active(shorter));
                enqueue_replay_from_index(app, command_index + 1, count - 1, now);
            } else {
                recompute_thread_config(&mut app.threads[active]);
                assert(app@ =~= was.with_active(reconfigured(thread)));
                enqueue_replay_from_index(app, command_index + 1, at, now);
            }
        },
        None => {
            recompute_thread_config(&mut app.threads[active]);
            assert(app@ =~= was.with_active(reconfigured(thread)));
            enqueue_replay_from_index(app, command_index + 1, count, now);
        },
    }
}

/// Enters a command: in place of the one that is edited, or at the end.
pub fn apply_history_command_edit_or_insert(
    app: &mut AppState,
    entry: HistoryEntry,
    kind: CommandKind,
    replay_affecting: bool,
    tools: &[ToolSpec],
    now: u64,
) -> (effect: Effect)
    requires
        old(app).wf(),
        old(app)@.next_history_id + old(app)@.thread().history.len() < u64::MAX,
    ensures
        final(app).wf(),
        (final(app)@, effect@) == old(app)@.command_entered(
            entry@,
            kind@,
            replay_affecting,
            tool_views(tools@),
            now,
        ),
{
    let active: usize = app.active_thread_idx;
    let ghost was = app@;
    let ghost thread = was.thread();
    let ghost meta = MetaModel::Command(kind@);
    assert(thread == app.threads@[active as int]@);
    match app.command_edit_target {
        Some(entry_id) => {
            proof {
                lemma_index_of_id(thread.history, entry_id);
            }
            app.command_edit_target = None;
            replace_history_entry(
                &mut app.threads[active],
                entry_id,
                entry,
                HistoryMeta::Command(kind.clone()),
            );
            recompute_thread_config(&mut app.threads[active]);
            let ghost edited = reconfigured(
                with_history(thread, entry_replaced(thread.history, entry_id, entry@, meta)),
            );
            assert(app.threads@[active as int]@ == edited);
            assert(app@ =~= AppModel { command_edit_target: None, ..was }.with_active(edited));
            let index = find_history_index(&app.threads[active], entry_id);
            if replay_affecting {
                if let Some(at) = index {
                    replay_edited_command(app, at, &kind, now);
                    let effect = maybe_start_next_job(app, tools, now);
                    return follow_up(app, effect, AfterStart::CloseCommand);
                }
            }
            close_command_mode(app);
            Effect::Continue
        },
        None => {
            let id: u64 = next_history_id(app);
            push_history_entry(&mut app.threads[active], id, entry, HistoryMeta::Command(kind));
            assert(app@ =~= was.entry_added(entry@, meta));
            let ghost added = app@;
            recompute_thread_config(&mut app.threads[active]);
            assert(app@ =~= added.with_active(reconfigured(added.thread())));
            close_command_mode(app);
            Effect::Continue
        },
    }
}

/// Switches the model of the conversation.
fn switch_model(app: &mut AppState, model_id: String, tools: &[ToolSpec], now: u64) -> (effect:
    Effect)
    requires
        old(app).wf(),
        old(app)@.next_history_id + old(app)@.thread().history.len() < u64::MAX,
    ensures
        final(app).wf(),
        (final(app)@, effect@) == old(app)@.model_switched(model_id@, tool_views(tools@), now),
{
    let entry = HistoryEntry::Command {
        raw: joined("model ", model_id.as_str()),
        result: joined("active model: ", model_id.as_str()),
    };
    apply_history_command_edit_or_insert(
        app,
        entry,
        CommandKind::Model(model_id),
        true,
        tools,
        now,
    )
}

/// The contents of what opening a connection gave.
pub open spec fn opened_view(opened: Result<(), String>) -> Result<(), Seq<char>> {
    match opened {
        Ok(()) => Ok(()),
        Err(message) => Err(message@),
    }
}

/// Goes on switching the model once the connection to it is open, or could not
/// be had.
pub fn resume_switch(
    app: &mut AppState,
    model_id: String,
    opened: Result<(), String>,
    tools: &[ToolSpec],
    now: u64,
) -> (effect: Effect)
    requires
        old(app).wf(),
        old(app)@.next_history_id + old(app)@.thread().history.len() < u64::MAX,
    ensures
        final(app).wf(),
        (final(app)@, effect@) == old(app)@.switch_resumed(
            model_id@,
            opened_view(opened),
            tool_views(tools@),
            now,
        ),
{
    match opened {
        Ok(()) => {
            let active: usize = app.active_thread_idx;
            note_connection(app, active, model_id.as_str());
            switch_model(app, model_id, tools, now)
        },
        Err(message) => Effect::Fail(message),
    }
}

/// Adds a conversation once the connection to its model is open, or could not be
/// had.
pub fn resume_new_tab(app: &mut AppState, model_id: String, opened: Result<(), String>) -> (effect:
    Effect)
    requires
        old(app).wf(),
        old(app)@.next_tab_id < usize::MAX,
        old(app)@.threads.len() < usize::MAX,
    ensures
        final(app).wf(),
        (final(app)@, effect@) == old(app)@.tab_resumed(model_id@, opened_view(opened)),
{
    match opened {
        Ok(()) => {
            let ghost was = app@;
            assert(was.thread() == app.threads@[app.active_thread_idx as int]@);
            let tools_enabled =
                app.threads[app.active_thread_idx].current_config.tools_enabled;
            let tab_id: usize = app.next_tab_id;
            app.next_tab_id = tab_id + 1;
            let last: usize = app.threads.len();
            let thread = ThreadState::new(tab_id, model_id.as_str(), tools_enabled);
            app.threads.push(thread);
            assert(app@.threads =~= was.threads.push(thread@));
            activate_thread_index(app, last);
            close_command_mode(app);
            Effect::Continue
        },
        Err(message) => Effect::Fail(message),
    }
}

/// Breaks the conversation.
fn enter_break(app: &mut AppState, tools: &[ToolSpec], now: u64) -> (effect: Effect)
    requires
        old(app).wf(),
        old(app)@.next_history_id + old(app)@.thread().history.len() < u64::MAX,
    ensures
        final(app).wf(),
        (final(app)@, effect@) == old(app)@.break_entered(tool_views(tools@), now),
{
    let active: usize = app.active_thread_idx;
    let ghost was = app@;
    let ghost thread = was.thread();
    assert(thread == app.threads@[active as int]@);
    match app.command_edit_target {
        Some(entry_id) => {
            proof {
                lemma_index_of_id(thread.history, entry_id);
            }
            app.command_edit_target = None;
            replace_history_entry(
                &mut app.threads[active],
                entry_id,
                HistoryEntry::Break,
                HistoryMeta::Plain,
            );
            recompute_thread_config(&mut app.threads[active]);
            let ghost edited = reconfigured(
                with_history(
                    thread,
                    entry_replaced(thread.history, entry_id, EntryModel::Break, MetaModel::Plain),
                ),
            );
            assert(app.threads@[active as int]@ == edited);
            assert(app@ =~= AppModel { command_edit_target: None, ..was }.with_active(edited));
            if let Some(at) = find_history_index(&app.threads[active], entry_id) {
                let count: usize = app.threads[active].history.len();
                enqueue_replay_from_index(app, at, count, now);
                let effect = maybe_start_next_job(app, tools, now);
                return follow_up(app, effect, AfterStart::CloseCommand);
            }
            close_command_mode(app);
            Effect::Continue
        },
        None => {
            let id: u64 = next_history_id(app);
            push_history_entry(
                &mut app.threads[active],
                id,
                HistoryEntry::Break,
                HistoryMeta::Plain,
            );
            assert(app@ =~= was.entry_added(EntryModel::Break, MetaModel::Plain));
            close_command_mode(app);
            Effect::Continue
        },
    }
}

/// Opens the command line for a command before or after the selected entry.
pub fn open_inline_command_relative(app: &mut AppState, position: InlinePosition)
    requires
        old(app).wf(),
        position == InlinePosition::Before ==> old(app)@.opens_before(),
        old(app)@.next_history_id < u64::MAX,
    ensures
        final(app).wf(),
        final(app)@ == old(app)@.inline_command_opened(position),
{
    let active: usize = app.active_thread_idx;
    let ghost was = app@;
    let ghost thread = was.thread();
    assert(thread == app.threads@[active as int]@);
    let selected: usize = match app.threads[active].selected_chat_entry {
        Some(selected) => selected,
        None => {
            app.command_edit_target = None;
            app.mode = Mode::Command;
            app.command_palette.open();
            return;
        },
    };
    let count: usize = app.threads[active].history.len();
    if position == InlinePosition::After && selected >= count {
        app.mode = Mode::Command;
        app.command_palette.open();
        return;
    }
    let at: usize = match position {
        InlinePosition::Before => selected,
        InlinePosition::After => selected + 1,
    };
    let id: u64 = next_history_id(app);
    let item = HistoryItem {
        id,
        entry: HistoryEntry::Command { raw: String::new(), result: String::new() },
        meta: HistoryMeta::Plain,
    };
    assert(item@.entry =~= EntryModel::Command { raw: Seq::empty(), result: Seq::empty() });
    app.threads[active].history.insert(at, item);
    app.threads[active].selected_chat_entry = Some(at);
    let ghost placed = ThreadModel {
        history: thread.history.insert(at as int, item@),
        selected: Some(at),
        ..thread
    };
    assert(app.threads@[active as int]@.history =~= placed.history);
    assert(app@.threads =~= was.with_active(placed).threads);
    app.command_edit_target = Some(id);
    app.inline_command_placeholder = Some((id, selected));
    app.mode = Mode::Command;
    app.command_palette.open();
}

/// Whether a label is taken.
fn has_label(labels: &Vec<String>, name: &str) -> (yes: bool)
    ensures
        yes == texts(labels@).contains(name@),
{
    let mut at: usize = 0;
    while at < labels.len()
        invariant
            at <= labels@.len(),
            forall|k: int| 0 <= k < at ==> #[trigger] labels@[k]@ != name@,
        decreases labels@.len() - at,
    {
        if same_text(labels[at].as_str(), name) {
            assert(texts(labels@)[at as int] == name@);
            return true;
        }
        at = at + 1;
    }
    assert forall|k: int| 0 <= k < texts(labels@).len() implies texts(labels@)[k] != name@ by {
        assert(labels@[k]@ != name@);
    }
    false
}

/// Gives a conversation a name.
fn rename_tab(app: &mut AppState, target: &TabTarget, new_name: &str)
    requires
        old(app).wf(),
    ensures
        final(app).wf(),
        final(app)@ == old(app)@.tab_renamed(target@, new_name@),
{
    let ghost was = app@;
    let name = trim(new_name);
    if name.is_empty() {
        fail_command(app, "tab name cannot be empty".to_string());
        return;
    }
    if has_label(&tab_labels(&app.threads), name) {
        fail_command(app, joined("tab name already exists: ", name));
        return;
    }
    match resolve_tab_target(&app.threads, target) {
        Some(at) => {
            app.threads[at].name_override = Some(name.to_string());
            assert(app@.threads =~= was.with_thread(
                at as int,
                ThreadModel { name_override: Some(name@), ..was.threads[at as int] },
            ).threads);
            close_command_mode(app);
        },
        None => {
            let text = render_tab_target(target);
            fail_command(app, joined("unknown tab target: ", text.as_str()));
        },
    }
}

/// Gives a conversation up.
fn kill_tab(app: &mut AppState, target: &TabTarget) -> (effect: Effect)
    requires
        old(app).wf(),
    ensures
        final(app).wf(),
        (final(app)@, effect@) == old(app)@.tab_killed(target@),
{
    let ghost was = app@;
    assert(app.threads@.len() == was.threads.len());
    if app.threads.len() == 1 {
        fail_command(app, "cannot kill the final remaining tab".to_string());
        return Effect::Continue;
    }
    match resolve_tab_target(&app.threads, target) {
        Some(at) => {
            let ghost before = app.threads@;
            let thread = app.threads.remove(at);
            assert(app.threads@ =~= before.remove(at as int));
            assert(app@.threads =~= was.threads.remove(at as int));
            let next: usize = if app.active_thread_idx < app.threads.len() {
                app.active_thread_idx
            } else {
                app.threads.len() - 1
            };
            app.active_thread_idx = next;
            assert forall|i: int| 0 <= i < app.threads@.len() implies (
            #[trigger] app.threads@[i]).wf() by {
                assert(app.threads@[i] == before[if i < at {
                    i
                } else {
                    i + 1
                }]);
            }
            activate_thread_index(app, next);
            assert(app@ =~= AppModel { threads: was.threads.remove(at as int), ..was }.activated(
                was.active as int,
            ));
            close_command_mode(app);
            Effect::CloseConnections { tab_id: thread.tab_id }
        },
        None => {
            let text = render_tab_target(target);
            fail_command(app, joined("unknown tab target: ", text.as_str()));
            Effect::Continue
        },
    }
}

/// Does what a command asks for.
pub fn execute_command_dispatch(
    dispatch: CommandDispatch,
    app: &mut AppState,
    registry: &RuntimeRegistry,
    tools: &[ToolSpec],
    now: u64,
) -> (effect: Effect)
    requires
        old(app).wf(),
        dispatch is OpenCommandBefore ==> old(app)@.opens_before(),
        old(app)@.next_history_id + old(app)@.thread().history.len() < u64::MAX,
    ensures
        final(app).wf(),
        (final(app)@, effect@) == old(app)@.executed(
            dispatch@,
            registry@,
            tool_views(tools@),
            now,
        ),
{
    assert(app@.thread() == app.threads@[app.active_thread_idx as int]@);
    match dispatch {
        CommandDispatch::Quit => Effect::Quit,
        CommandDispatch::OpenModelPrefix => Effect::Continue,
        CommandDispatch::OpenToolsPrefix => Effect::Continue,
        CommandDispatch::OpenTabPrefix => Effect::Continue,
        CommandDispatch::OpenCommandAfter => {
            open_inline_command_relative(app, InlinePosition::After);
            Effect::Continue
        },
        CommandDispatch::OpenCommandBefore => {
            open_inline_command_relative(app, InlinePosition::Before);
            Effect::Continue
        },
        CommandDispatch::ListModels => {
            let entry = HistoryEntry::Command {
                raw: "model ls".to_string(),
                result: join_lines(&registry.ids()),
            };
            apply_history_command_edit_or_insert(
                app,
                entry,
                CommandKind::ModelList,
                false,
                tools,
                now,
            )
        },
        CommandDispatch::SwitchModel(model_id) => {
            if registry.get(model_id.as_str()).is_none() {
                fail_command(
                    app,
                    joined(
                        model_id.as_str(),
                        " is not a recognised model, use :model ls to show available models",
                    ),
                );
                return Effect::Continue;
            }
            let active: usize = app.active_thread_idx;
            if app.threads[active].connections.contains(model_id.as_str()) {
                switch_model(app, model_id, tools, now)
            } else {
                Effect::OpenConnection {
                    thread_index: active,
                    model_id,
                    purpose: OpenPurpose::SwitchModel,
                }
            }
        },
        CommandDispatch::SetToolsEnabled(enabled) => {
            let entry = if enabled {
                HistoryEntry::Command {
                    raw: "tools enable".to_string(),
                    result: "tools prompt is now enabled".to_string(),
                }
            } else {
                HistoryEntry::Command {
                    raw: "tools disable".to_string(),
                    result: "tools prompt is now disabled".to_string(),
                }
            };
            apply_history_command_edit_or_insert(
                app,
                entry,
                CommandKind::Tools(enabled),
                true,
                tools,
                now,
            )
        },
        CommandDispatch::Break => enter_break(app, tools, now),
        CommandDispatch::ActivateTab(target) => {
            match resolve_tab_target(&app.threads, &target) {
                Some(at) => {
                    activate_thread_index(app, at);
                    close_command_mode(app);
                },
                None => {
                    let text = render_tab_target(&target);
                    fail_command(app, joined("unknown tab target: ", text.as_str()));
                },
            }
            Effect::Continue
        },
        CommandDispatch::NewTab(model_id) => {
            if registry.get(model_id.as_str()).is_none() {
                fail_command(
                    app,
                    joined(
                        model_id.as_str(),
                        " is not a recognised model, use :model ls to show available models",
                    ),
                );
                return Effect::Continue;
            }
            Effect::OpenConnection {
                thread_index: app.active_thread_idx,
                model_id,
                purpose: OpenPurpose::NewTab,
            }
        },
        CommandDispatch::RenameTab { target, new_name } => {
            rename_tab(app, &target, new_name.as_str());
            Effect::Continue
        },
        CommandDispatch::KillTab(target) => kill_tab(app, &target),
    }
}

} // verus!
