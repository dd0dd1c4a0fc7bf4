//! What the keys promise.

use vstd::prelude::*;

use crate::agent::ToolView;
use crate::app_model::{lemma_index_of_tab, AppModel, EffectModel, PurposeModel};
use crate::command_palette::{command_of, DispatchView, ParseErrorView};
use crate::history::{
    copied_text, AssistantStatus, EntryModel, MetaModel, Mode, ModelLoadStatus, ScrollAnchor,
};
use crate::input::{InputEvent, Key, KeyPress, MouseMotion};
use crate::promises::{
    lemma_first_is_sent, lemma_loading_set_touches_loading_only, queued_numbers, sent_number,
    waits_or_was_sent,
};
use crate::request::request_for;
use crate::runtime::{config_ids, ConfigView};
use crate::text::trimmed;
use crate::thread::{
    index_of_id, is_loading_of, lemma_index_of_id, loading_inserted,
    loading_is_noted_in_its_last_entry, loading_set, new_turn, normalized, ComposeTarget, ThreadJob,
    ThreadModel,
};
use crate::upkeep::{
    conversation_is_found_by_its_tab, entry_is_found_by_its_number, lemma_entry_inserted,
    lemma_thread_touched, lemma_turn_queued, sound, tidy,
};

verus! {

/// What a key does when no modifier is held.
pub open spec fn after_key(
    app: AppModel,
    key: Key,
    configs: Seq<ConfigView>,
    tools: Seq<ToolView>,
    now: u64,
) -> (AppModel, EffectModel) {
    app.input_taken(
        InputEvent::Key(KeyPress { key, control: false, alt: false, command: false }),
        configs,
        tools,
        now,
    )
}

/// Nothing but the conversation that is shown, the mode and the command line differ.
pub open spec fn only_shown_differs(next: AppModel, app: AppModel) -> bool {
    &&& next.active == app.active
    &&& next.threads.len() == app.threads.len()
    &&& forall|i: int|
        0 <= i < app.threads.len() && i != app.active ==> #[trigger] next.threads[i]
            == app.threads[i]
    &&& next.next_tab_id == app.next_tab_id
}

/// A character that is typed stands behind the draft, and nothing else changes. Taking it
/// back restores the draft. With a modifier held nothing is written.
pub proof fn typing_writes_behind_the_draft(
    app: AppModel,
    ch: char,
    configs: Seq<ConfigView>,
    tools: Seq<ToolView>,
    now: u64,
)
    requires
        app.wf(),
        app.mode == Mode::Insert,
    ensures
        ({
            let (next, effect) = after_key(app, Key::Char(ch), configs, tools, now);
            let back = after_key(next, Key::Backspace, configs, tools, now);
            let held = app.input_taken(
                InputEvent::Key(
                    KeyPress { key: Key::Char(ch), control: false, alt: true, command: false },
                ),
                configs,
                tools,
                now,
            );
            &&& effect is Continue
            &&& next.mode == Mode::Insert
            &&& only_shown_differs(next, app)
            &&& next.thread() == (ThreadModel { draft: app.thread().draft.push(ch), ..app.thread() })
            &&& back.0.threads == app.threads
            &&& back.0.mode == Mode::Insert
            &&& back.1 is Continue
            &&& held.0.threads == app.threads
            &&& held.1 is Continue
        }),
{
    let thread = app.thread();
    let next = after_key(app, Key::Char(ch), configs, tools, now).0;
    let back = after_key(next, Key::Backspace, configs, tools, now).0;
    assert(thread.draft.push(ch).drop_last() =~= thread.draft);
    assert(back.thread() =~= thread);
    assert(back.threads =~= app.threads);
}

/// Giving up writing loses the draft, and nothing that was said. Something is selected then,
/// where there is something.
pub proof fn escape_gives_up_the_draft(
    app: AppModel,
    configs: Seq<ConfigView>,
    tools: Seq<ToolView>,
    now: u64,
)
    requires
        app.wf(),
        app.mode == Mode::Insert,
        app.thread().history.len() <= usize::MAX,
    ensures
        ({
            let (next, effect) = after_key(app, Key::Esc, configs, tools, now);
            let thread = app.thread();
            &&& effect is Continue
            &&& next.mode == Mode::Normal
            &&& only_shown_differs(next, app)
            &&& next.thread().history == thread.history
            &&& next.thread().queue == thread.queue
            &&& next.thread().draft.len() == 0
            &&& next.thread().compose_target == ComposeTarget::AppendBottom
            &&& thread.history.len() > 0 ==> next.thread().selected == Some(
                match thread.selected {
                    Some(at) if at < thread.history.len() => at,
                    _ => (thread.history.len() - 1) as usize,
                },
            )
            &&& thread.history.len() == 0 ==> next.thread().selected is None
        }),
{
}

/// A blank draft is not sent.
pub proof fn blank_draft_is_not_sent(
    app: AppModel,
    configs: Seq<ConfigView>,
    tools: Seq<ToolView>,
    now: u64,
)
    requires
        app.wf(),
        app.mode == Mode::Insert,
        trimmed(app.thread().draft).len() == 0,
    ensures
        ({
            let (next, effect) = after_key(app, Key::Enter, configs, tools, now);
            &&& effect is Continue
            &&& only_shown_differs(next, app)
            &&& next.thread() == (ThreadModel { draft: Seq::empty(), ..app.thread() })
            &&& next.mode == Mode::Insert
        }),
{
}

/// A draft that is sent becomes a turn at the end of the conversation, for the model that is
/// set, without the white space around it. It waits behind all that wait already, and the
/// first of them is sent, unless one runs. Every other entry but those on loading stays in
/// its place. Before a turn whose model is not loaded stands an entry on its loading.
#[verifier::spinoff_prover]
#[verifier::rlimit(60)]
pub proof fn sent_prompt_stands_at_the_end_and_waits(
    app: AppModel,
    configs: Seq<ConfigView>,
    tools: Seq<ToolView>,
    now: u64,
)
    requires
        sound(app),
        app.has_room(),
        app.mode == Mode::Insert,
        app.thread().compose_target == ComposeTarget::AppendBottom,
        trimmed(app.thread().draft).len() > 0,
    ensures
        ({
            let thread = app.thread();
            let (next, effect) = after_key(app, Key::Enter, configs, tools, now);
            let after = next.thread();
            &&& next.active == app.active
            &&& after.draft.len() == 0
            &&& after.history.len() > thread.history.len()
            &&& after.history.last().id == app.next_history_id
            &&& after.history.last().entry matches EntryModel::Assistant(turn) && {
                &&& turn.prompt == trimmed(thread.draft)
                &&& turn.model_id == thread.current_config.model_id
                &&& turn.blocks.len() == 0
                &&& turn.callouts.len() == 0
                &&& turn.status == Some(AssistantStatus::Queued { started_at: now })
                &&& turn.sequence_number is None
            }
            &&& waits_or_was_sent(
                after,
                effect,
                thread.running_job,
                queued_numbers(thread).push(app.next_history_id),
            )
            &&& forall|i: int|
                0 <= i < thread.history.len() && !((
                #[trigger] thread.history[i]).entry is LoadingModel) ==> after.history[i]
                    == thread.history[i]
            &&& !thread.loaded_models.contains(thread.current_config.model_id)
                ==> after.history.len() >= 2 && is_loading_of(
                after.history[after.history.len() - 2],
                thread.current_config.model_id,
            )
            &&& thread.loaded_models.contains(thread.current_config.model_id)
                ==> after.history.len() == thread.history.len() + 1
        }),
{
    let shown = AppModel {
        palette: app.palette.completing(config_ids(configs)),
        ..app
    };
    let thread = app.thread();
    let history = thread.history;
    assert(app.threads[app.active as int] == thread);
    assert(tidy(thread, app.next_history_id as int));
    let prompt = trimmed(thread.draft);
    let id = app.next_history_id;
    let model_id = thread.current_config.model_id;
    let cleared = shown.with_active(ThreadModel { draft: Seq::empty(), ..thread });
    lemma_thread_touched(
        shown,
        app.active as int,
        ThreadModel { draft: Seq::empty(), ..thread },
    );
    let item = new_turn(id, model_id, prompt, Some(AssistantStatus::Queued { started_at: now }));
    let end = history.len() as int;
    let longer = history.push(item);
    assert(longer =~= history.insert(end, item));
    lemma_entry_inserted(
        cleared,
        ThreadModel { history: longer, selected: None, ..cleared.thread() },
        end,
        item,
    );
    let added = cleared.prompt_added(prompt, now);
    assert(added.thread().history == longer);
    assert(longer[end].id == id);
    assert(added.threads[added.active as int] == added.thread());
    entry_is_found_by_its_number(added, added.active as int, end);
    lemma_turn_queued(added, id, now);
    let queued = added.turn_queued(id, now).unwrap();
    let status = ModelLoadStatus::Loading { started_at: now };
    let inserted = loading_inserted(longer, thread.loaded_models, end, added.next_history_id, now);
    let waiting = queued.thread();
    if thread.loaded_models.contains(model_id) {
        assert(waiting.history == longer);
    } else {
        lemma_loading_set_touches_loading_only(inserted, model_id, status);
        assert(inserted.last() == item);
        let last = inserted.len() - 1;
        assert(inserted[last] == item);
        assert(is_loading_of(inserted[last - 1], model_id)) by {
            if inserted == longer {
                assert(is_loading_of(longer[end - 1], model_id));
            }
        }
        assert(!is_loading_of(inserted[last], model_id));
        assert forall|k: int| last - 1 < k < inserted.len() implies !is_loading_of(
            #[trigger] inserted[k],
            model_id,
        ) by {
            assert(k == last);
        }
        loading_is_noted_in_its_last_entry(inserted, model_id, status, last - 1);
        assert(waiting.history == loading_set(inserted, model_id, status));
        assert(is_loading_of(waiting.history[last - 1], model_id));
        assert forall|i: int| 0 <= i < history.len() implies #[trigger] inserted[i]
            == history[i] by {}
    }
    assert(queued_numbers(waiting) =~= queued_numbers(thread).push(id));
    lemma_first_is_sent(queued, tools, now);
    let (sent, effect) = queued.active_job_started(tools, now);
    let (next, final_effect) = after_key(app, Key::Enter, configs, tools, now);
    assert(next.thread().history == sent.thread().history);
    assert(next.thread().queue == sent.thread().queue);
    assert(queued_numbers(next.thread()) == queued_numbers(sent.thread()));
    assert(sent_number(final_effect) == sent_number(effect));
    assert(final_effect is Fail == effect is Fail);
    conversation_is_found_by_its_tab(queued, queued.active as int);
    assert(sent.thread().draft == queued.thread().draft);
    assert(next.thread().draft == sent.thread().draft);
    assert(next.active == app.active);
    let after = next.thread();
    let last = after.history.len() - 1;
    assert(after.history[last] == item);
    if !thread.loaded_models.contains(model_id) {
        assert(sent.thread().history.len() == waiting.history.len());
        assert(is_loading_of(queued.thread().history[last - 1], model_id));
        lemma_started_keeps_loading_models(queued, tools, now, last - 1);
        assert(is_loading_of(sent.thread().history[last - 1], model_id));
        assert(is_loading_of(after.history[after.history.len() - 2], model_id));
    } else {
        assert(after.history.len() == history.len() + 1);
    }
    assert forall|i: int|
        0 <= i < history.len() && !((#[trigger] history[i]).entry is LoadingModel) implies
    after.history[i] == history[i] by {
        assert(waiting.history[i] == history[i]);
    }
    assert(after.draft.len() == 0);
    assert(after.history.last() == item);
    assert(waits_or_was_sent(
        after,
        final_effect,
        thread.running_job,
        queued_numbers(thread).push(id),
    ));
}

/// Sending a turn leaves an entry on loading one on the loading of the same model.
proof fn lemma_started_keeps_loading_models(
    app: AppModel,
    tools: Seq<ToolView>,
    now: u64,
    at: int,
)
    requires
        sound(app),
        0 <= at < app.thread().history.len(),
    ensures
        forall|model_id: Seq<char>| #[trigger]
            is_loading_of(app.thread().history[at], model_id) ==> is_loading_of(
                app.active_job_started(tools, now).0.thread().history[at],
                model_id,
            ),
{
    conversation_is_found_by_its_tab(app, app.active as int);
    let thread = app.thread();
    if thread.queue.len() > 0 && !thread.running_job {
        if let Ok(turn) = request_for(
            thread,
            thread.queue[0].assistant_entry_id,
            tools,
        ) {
            loading_is_noted_in_its_last_entry(
                thread.history,
                turn.config.model_id,
                ModelLoadStatus::Loading { started_at: now },
                at,
            );
        }
    }
}

/// Once a prompt is on its way, writing at the end of the conversation goes on. Where its
/// model is not connected yet, that waits for the connection.
pub proof fn writing_goes_on_after_a_prompt(
    app: AppModel,
    prompt: Seq<char>,
    tools: Seq<ToolView>,
    now: u64,
    later: u64,
)
    requires
        app.wf(),
    ensures
        ({
            let (next, effect) = app.prompt_sent(prompt, tools, now);
            &&& effect is StartStream || effect is Continue ==> next.mode == Mode::Insert
                && next.thread().compose_target == ComposeTarget::AppendBottom
            &&& effect matches EffectModel::OpenConnection {
                thread_index,
                purpose: PurposeModel::RunJob { job, turn, after },
                ..
            } ==> {
                let (opened, sent) = next.job_resumed(
                    thread_index as int,
                    job,
                    turn,
                    after,
                    Ok(()),
                    later,
                );
                &&& opened.mode == Mode::Insert
                &&& opened.thread().compose_target == ComposeTarget::AppendBottom
                &&& sent == EffectModel::StartStream { thread_index, job, turn }
            }
        }),
{
    match app.thread().compose_target {
        ComposeTarget::EditEntry(id) => {
            if let Some(edited) = app.prompt_edited(id, prompt, now) {
                lemma_index_of_tab(edited.threads, edited.thread().tab_id);
            }
        },
        ComposeTarget::AppendBottom => {
            let added = app.prompt_added(prompt, now);
            if let Some(queued) = added.turn_queued(app.next_history_id, now) {
                lemma_index_of_tab(queued.threads, queued.thread().tab_id);
            }
        },
    }
}

/// Moving the selection in normal mode: `j` and the arrow down go one entry down, `k` and the
/// arrow up one entry up, no further than the ends, and the entry is shown from the end that
/// the move comes to last. Nothing else changes.
pub proof fn moving_selects_the_neighbour(
    app: AppModel,
    at: usize,
    configs: Seq<ConfigView>,
    tools: Seq<ToolView>,
    now: u64,
)
    requires
        app.wf(),
        app.mode == Mode::Normal,
        app.thread().selected == Some(at),
        at < app.thread().history.len() <= usize::MAX,
    ensures
        ({
            let thread = app.thread();
            let below = if at + 1 < thread.history.len() {
                (at + 1) as usize
            } else {
                at
            };
            let above = if at > 0 {
                (at - 1) as usize
            } else {
                at
            };
            let down = ThreadModel {
                selected: Some(below),
                scroll_anchor: ScrollAnchor::Bottom,
                ..thread
            };
            let up = ThreadModel {
                selected: Some(above),
                scroll_anchor: ScrollAnchor::Top,
                ..thread
            };
            &&& after_key(app, Key::Char('j'), configs, tools, now).0.thread() == down
            &&& after_key(app, Key::Down, configs, tools, now).0.thread() == down
            &&& after_key(app, Key::Char('k'), configs, tools, now).0.thread() == up
            &&& after_key(app, Key::Up, configs, tools, now).0.thread() == up
            &&& after_key(app, Key::Char('j'), configs, tools, now).0.mode == Mode::Normal
            &&& after_key(app, Key::Char('k'), configs, tools, now).0.mode == Mode::Normal
            &&& only_shown_differs(after_key(app, Key::Char('j'), configs, tools, now).0, app)
            &&& only_shown_differs(after_key(app, Key::Char('k'), configs, tools, now).0, app)
        }),
{
}

/// The mouse wheel moves the selection as the arrows do; up ends writing. It does nothing on
/// the command line, nor while a deletion waits to be confirmed.
pub proof fn wheel_moves_the_selection(
    app: AppModel,
    at: usize,
    configs: Seq<ConfigView>,
    tools: Seq<ToolView>,
    now: u64,
)
    requires
        app.wf(),
        app.thread().selected == Some(at),
        at < app.thread().history.len() <= usize::MAX,
    ensures
        ({
            let up = app.input_taken(InputEvent::Mouse(MouseMotion::ScrollUp), configs, tools, now);
            let down = app.input_taken(
                InputEvent::Mouse(MouseMotion::ScrollDown),
                configs,
                tools,
                now,
            );
            &&& up.1 is Continue
            &&& down.1 is Continue
            &&& app.mode == Mode::Command || app.mode == Mode::ConfirmDelete ==> up.0.threads
                == app.threads && down.0.threads == app.threads && up.0.mode == app.mode
                && down.0.mode == app.mode
            &&& app.mode == Mode::Insert || app.mode == Mode::Normal ==> {
                &&& up.0.mode == Mode::Normal
                &&& down.0.mode == app.mode
                &&& up.0.thread().selected == Some(
                    (if at > 0 {
                        at - 1
                    } else {
                        0
                    }) as usize,
                )
                &&& down.0.thread().selected == Some(
                    (if at + 1 < app.thread().history.len() {
                        at + 1
                    } else {
                        at as int
                    }) as usize,
                )
                &&& up.0.thread().history == app.thread().history
                &&& down.0.thread().history == app.thread().history
            }
        }),
{
}

/// The arrows to the left and to the right move between conversations while writing and while
/// nothing is written, and not on the command line or while a deletion waits.
pub proof fn side_arrows_move_between_tabs(
    app: AppModel,
    configs: Seq<ConfigView>,
    tools: Seq<ToolView>,
    now: u64,
)
    requires
        app.wf(),
    ensures
        ({
            let left = after_key(app, Key::Left, configs, tools, now);
            let right = after_key(app, Key::Right, configs, tools, now);
            let count = app.threads.len() as int;
            &&& left.1 is Continue
            &&& right.1 is Continue
            &&& app.mode == Mode::Insert || app.mode == Mode::Normal ==> {
                &&& right.0.active == if app.active + 1 < count {
                    app.active + 1
                } else {
                    0
                }
                &&& left.0.active == if app.active > 0 {
                    app.active - 1
                } else {
                    count - 1
                }
                &&& left.0.mode == app.mode
                &&& right.0.mode == app.mode
            }
            &&& app.mode == Mode::Command || app.mode == Mode::ConfirmDelete ==> left.0.active
                == app.active && right.0.active == app.active && left.0.threads == app.threads
                && right.0.threads == app.threads
        }),
{
    let count = app.threads.len() as int;
    let active = app.active as int;
    if active + 1 < count {
        vstd::arithmetic::div_mod::lemma_small_mod((active + 1) as nat, count as nat);
    } else {
        vstd::arithmetic::div_mod::lemma_mod_self_0(count);
    }
    if active > 0 {
        vstd::arithmetic::div_mod::lemma_small_mod((active - 1) as nat, count as nat);
    } else {
        vstd::arithmetic::div_mod::lemma_mod_add_multiples_vanish(-1, count);
        vstd::arithmetic::div_mod::lemma_small_mod((count - 1) as nat, count as nat);
    }
}

/// `y` copies the selected entry, and changes nothing.
pub proof fn yanking_copies_the_selected_entry(
    app: AppModel,
    at: usize,
    configs: Seq<ConfigView>,
    tools: Seq<ToolView>,
    now: u64,
)
    requires
        app.wf(),
        app.mode == Mode::Normal,
        app.thread().selected == Some(at),
        at < app.thread().history.len(),
    ensures
        ({
            let (next, effect) = after_key(app, Key::Char('y'), configs, tools, now);
            &&& effect == EffectModel::CopyText(copied_text(app.thread().history[at as int].entry))
            &&& next.threads == app.threads
            &&& next.active == app.active
            &&& next.mode == Mode::Normal
        }),
{
}

/// `d` asks for the deletion of the selected entry, and deletes nothing yet. `n` and escape
/// give it up. `y` deletes exactly the entry that was selected, even if the selection has
/// moved since; other keys neither delete nor give up.
pub proof fn deletion_is_confirmed(
    app: AppModel,
    at: usize,
    configs: Seq<ConfigView>,
    tools: Seq<ToolView>,
    now: u64,
)
    requires
        app.wf(),
        app.mode == Mode::Normal,
        app.thread().selected == Some(at),
        at < app.thread().history.len(),
    ensures
        ({
            let (asked, effect) = after_key(app, Key::Char('d'), configs, tools, now);
            let no = after_key(asked, Key::Char('n'), configs, tools, now);
            let escape = after_key(asked, Key::Esc, configs, tools, now);
            let other = after_key(asked, Key::Enter, configs, tools, now);
            let yes = after_key(asked, Key::Char('y'), configs, tools, now);
            let deleted = app.entry_deleted(app.thread().history[at as int].id, tools, now);
            &&& effect is Continue
            &&& asked.mode == Mode::ConfirmDelete
            &&& asked.threads == app.threads
            &&& no.0.threads == app.threads
            &&& no.0.mode == Mode::Normal
            &&& no.0.delete_target_id is None
            &&& no.1 is Continue
            &&& escape.0.threads == app.threads
            &&& escape.0.mode == Mode::Normal
            &&& escape.0.delete_target_id is None
            &&& escape.1 is Continue
            &&& other.0.threads == app.threads
            &&& other.0.mode == Mode::ConfirmDelete
            &&& yes.0.threads == deleted.0.threads
            &&& yes.0.delete_target_id is None
            &&& sent_number(yes.1) == sent_number(deleted.1)
            &&& yes.1 is Fail == deleted.1 is Fail
            &&& yes.1 is StartStream || yes.1 is Continue ==> yes.0.mode == Mode::Normal
        }),
{
}

/// Return opens an empty line at the end of the conversation; the colon opens the command
/// line, empty, for a new command.
pub proof fn writing_and_commands_begin_empty(
    app: AppModel,
    configs: Seq<ConfigView>,
    tools: Seq<ToolView>,
    now: u64,
)
    requires
        app.wf(),
        app.mode == Mode::Normal,
    ensures
        ({
            let (writing, _) = after_key(app, Key::Enter, configs, tools, now);
            let (command, _) = after_key(app, Key::Char(':'), configs, tools, now);
            &&& writing.mode == Mode::Insert
            &&& only_shown_differs(writing, app)
            &&& writing.thread() == (ThreadModel {
                selected: None,
                compose_target: ComposeTarget::AppendBottom,
                draft: Seq::empty(),
                ..app.thread()
            })
            &&& command.mode == Mode::Command
            &&& command.threads == app.threads
            &&& command.palette.draft.len() == 0
            &&& command.palette.highlighted is None
            &&& command.palette.error is None
            &&& command.command_edit_target is None
        }),
{
}

/// `i` edits the selected entry: a turn by its prompt, which is then in the draft, a command or
/// a break on the command line, which then says what was typed. Nothing changes for entries
/// that the program wrote. Nothing of what was said changes.
pub proof fn editing_begins_at_the_selected_entry(
    app: AppModel,
    at: usize,
    configs: Seq<ConfigView>,
    tools: Seq<ToolView>,
    now: u64,
)
    requires
        app.wf(),
        app.mode == Mode::Normal,
        app.thread().selected == Some(at),
        at < app.thread().history.len(),
    ensures
        ({
            let item = app.thread().history[at as int];
            let (next, effect) = after_key(app, Key::Char('i'), configs, tools, now);
            &&& effect is Continue
            &&& next.thread().history == app.thread().history
            &&& next.thread().queue == app.thread().queue
            &&& next.thread().selected == Some(at)
            &&& match item.entry {
                EntryModel::Assistant(turn) => {
                    &&& next.mode == Mode::Insert
                    &&& next.thread().draft == turn.prompt
                    &&& next.thread().compose_target == ComposeTarget::EditEntry(item.id)
                },
                EntryModel::Command { raw, .. } => {
                    &&& next.mode == Mode::Command
                    &&& next.palette.draft == raw
                    &&& next.command_edit_target == Some(item.id)
                },
                EntryModel::Break => {
                    &&& next.mode == Mode::Command
                    &&& next.palette.draft == "break"@
                    &&& next.command_edit_target == Some(item.id)
                },
                _ => next.mode == Mode::Normal && next.threads == app.threads,
            }
        }),
{
}

/// `o` begins a turn right behind the selected entry and `O` right before it: an empty one,
/// under a number of its own, for the model that is set, which is selected and edited then.
/// All other entries stay, in their order. Behind the last entry, `o` writes at the end.
pub proof fn turns_are_begun_beside_the_selected_entry(
    app: AppModel,
    at: usize,
    configs: Seq<ConfigView>,
    tools: Seq<ToolView>,
    now: u64,
)
    requires
        app.wf(),
        app.mode == Mode::Normal,
        app.thread().selected == Some(at),
        at < app.thread().history.len() < usize::MAX,
        app.next_history_id < u64::MAX,
    ensures
        ({
            let thread = app.thread();
            let history = thread.history;
            let (behind, _) = after_key(app, Key::Char('o'), configs, tools, now);
            let (before, _) = after_key(app, Key::Char('O'), configs, tools, now);
            let begun = |next: AppModel, place: int|
                {
                    let after = next.thread();
                    &&& next.mode == Mode::Insert
                    &&& next.next_history_id == app.next_history_id + 1
                    &&& after.history.len() == history.len() + 1
                    &&& after.history.take(place) == history.take(place)
                    &&& after.history.skip(place + 1) == history.skip(place)
                    &&& after.selected == Some(place as usize)
                    &&& after.draft.len() == 0
                    &&& after.compose_target == ComposeTarget::EditEntry(app.next_history_id)
                    &&& after.history[place].id == app.next_history_id
                    &&& after.history[place].meta == MetaModel::Plain
                    &&& after.history[place].entry matches EntryModel::Assistant(turn)
                        && turn.prompt.len() == 0 && turn.blocks.len() == 0 && turn.model_id
                        == thread.current_config.model_id
                };
            &&& begun(before, at as int)
            &&& at + 1 < history.len() ==> begun(behind, at + 1)
            &&& at + 1 == history.len() ==> {
                &&& behind.mode == Mode::Insert
                &&& behind.thread().history == history
                &&& behind.thread().compose_target == ComposeTarget::AppendBottom
                &&& behind.thread().draft.len() == 0
            }
        }),
{
    let history = app.thread().history;
    let (behind, _) = after_key(app, Key::Char('o'), configs, tools, now);
    let (before, _) = after_key(app, Key::Char('O'), configs, tools, now);
    assert(before.thread().history.take(at as int) =~= history.take(at as int));
    assert(before.thread().history.skip(at + 1) =~= history.skip(at as int));
    if at + 1 < history.len() {
        assert(behind.thread().history.take(at + 1) =~= history.take(at + 1));
        assert(behind.thread().history.skip(at + 2) =~= history.skip(at + 1));
    }
}

/// Control and `c` interrupt, in every mode: the selected turn, where it waits or runs, and
/// else the one that runs. A turn whose request was sent is interrupted by the number of the
/// request; one that was not goes, and waits no more. Where nothing waits or runs, the program
/// ends.
pub proof fn interrupting_ends_the_turn_meant(
    app: AppModel,
    place: int,
    configs: Seq<ConfigView>,
    tools: Seq<ToolView>,
    now: u64,
)
    requires
        sound(app),
        0 <= place < app.thread().history.len() <= usize::MAX,
        app.thread().history[place].entry is Assistant,
        app.thread().history[place].entry->Assistant_0.status is Some && app.thread().selected
            == Some(place as usize) || app.thread().running_assistant_id == Some(
            app.thread().history[place].id,
        ) && (app.thread().selected matches Some(at) ==> !(at < app.thread().history.len() && (
        app.thread().history[at as int].entry matches EntryModel::Assistant(turn)
            && turn.status is Some))),
        app.thread().connections.contains(app.thread().current_config.model_id),
    ensures
        ({
            let thread = app.thread();
            let id = thread.history[place].id;
            let (next, effect) = app.input_taken(
                InputEvent::Key(
                    KeyPress { key: Key::Char('c'), control: true, alt: false, command: false },
                ),
                configs,
                tools,
                now,
            );
            match thread.history[place].entry->Assistant_0.sequence_number {
                Some(number) => {
                    &&& effect == EffectModel::Interrupt {
                        thread_index: app.active,
                        model_id: thread.current_config.model_id,
                        sequence_number: number,
                    }
                    &&& next.threads == app.threads
                },
                None => {
                    &&& effect is Continue
                    &&& next.thread().history == thread.history.remove(place)
                    &&& !queued_numbers(next.thread()).contains(id)
                    &&& forall|k: int|
                        0 <= k < thread.queue.len() && (
                        #[trigger] thread.queue[k]).assistant_entry_id != id
                            ==> next.thread().queue.contains(thread.queue[k])
                },
            }
        }),
{
    let thread = app.thread();
    assert(app.threads[app.active as int] == thread);
    assert(tidy(thread, app.next_history_id as int));
    entry_is_found_by_its_number(app, app.active as int, place);
    let id = thread.history[place].id;
    let keep = |job: ThreadJob| job.assistant_entry_id != id;
    broadcast use vstd::seq_lib::group_filter_ensures;

    let left = thread.queue.filter(keep);
    assert forall|k: int| 0 <= k < left.len() implies (#[trigger] left[k]).assistant_entry_id
        != id by {
        assert(keep(left[k]));
    }
    let kept = ThreadModel { queue: left, ..thread };
    assert(!queued_numbers(kept).contains(id)) by {
        if queued_numbers(kept).contains(id) {
            let k = choose|k: int| 0 <= k < left.len() && queued_numbers(kept)[k] == id;
            assert(left[k].assistant_entry_id == id);
        }
    }
    assert forall|k: int|
        0 <= k < thread.queue.len() && (#[trigger] thread.queue[k]).assistant_entry_id != id implies
    left.contains(thread.queue[k]) by {
        assert(keep(thread.queue[k]));
        thread.queue.lemma_filter_contains(keep, k);
    }
    let next = app.input_taken(
        InputEvent::Key(
            KeyPress { key: Key::Char('c'), control: true, alt: false, command: false },
        ),
        configs,
        tools,
        now,
    ).0;
    if thread.history[place].entry->Assistant_0.sequence_number is None {
        assert(next.thread().queue == left);
        assert(queued_numbers(next.thread()) == queued_numbers(kept));
    }
}

/// Where nothing waits or runs, an interrupt ends the program.
pub proof fn interrupting_nothing_quits(
    app: AppModel,
    configs: Seq<ConfigView>,
    tools: Seq<ToolView>,
    now: u64,
)
    requires
        app.wf(),
        app.thread().selected is None,
        app.thread().running_assistant_id is None,
    ensures
        app.input_taken(
            InputEvent::Key(
                KeyPress { key: Key::Char('c'), control: true, alt: false, command: false },
            ),
            configs,
            tools,
            now,
        ).1 is Quit,
{
}

/// An interrupt in a conversation whose model is not connected changes nothing.
pub proof fn interrupting_without_a_connection_changes_nothing(
    app: AppModel,
    configs: Seq<ConfigView>,
    tools: Seq<ToolView>,
    now: u64,
)
    requires
        app.wf(),
        app.thread().running_assistant_id is Some,
        !app.thread().connections.contains(app.thread().current_config.model_id),
    ensures
        ({
            let (next, effect) = app.input_taken(
                InputEvent::Key(
                    KeyPress { key: Key::Char('c'), control: true, alt: false, command: false },
                ),
                configs,
                tools,
                now,
            );
            next.threads == app.threads && next.mode == app.mode && effect is Continue
        }),
{
}

/// Return in insert mode sends the draft, without the white space around it, and empties it.
pub proof fn return_sends_the_draft(
    app: AppModel,
    configs: Seq<ConfigView>,
    tools: Seq<ToolView>,
    now: u64,
)
    requires
        app.wf(),
        app.mode == Mode::Insert,
        trimmed(app.thread().draft).len() > 0,
        app.palette.model_ids == config_ids(configs),
    ensures
        after_key(app, Key::Enter, configs, tools, now) == app.with_active(
            ThreadModel { draft: Seq::empty(), ..app.thread() },
        ).prompt_sent(trimmed(app.thread().draft), tools, now),
{
}

/// Where a turn could not be asked for, nothing of what would follow has happened: the prompt is
/// still the one that is edited, and the mode is the same.
pub proof fn unsent_turn_leaves_the_rest_undone(
    app: AppModel,
    prompt: Seq<char>,
    tools: Seq<ToolView>,
    now: u64,
    error: Seq<char>,
    later: u64,
)
    requires
        app.wf(),
    ensures
        ({
            let (next, effect) = app.prompt_sent(prompt, tools, now);
            &&& effect is Fail || effect is OpenConnection ==> next.mode == app.mode
                && next.thread().compose_target == app.thread().compose_target
            &&& effect matches EffectModel::OpenConnection {
                thread_index,
                purpose: PurposeModel::RunJob { job, turn, after },
                ..
            } ==> next.job_resumed(thread_index as int, job, turn, after, Err(error), later) == (
                next,
                EffectModel::Fail(error),
            )
        }),
{
    match app.thread().compose_target {
        ComposeTarget::EditEntry(id) => {
            if let Some(edited) = app.prompt_edited(id, prompt, now) {
                lemma_index_of_tab(edited.threads, edited.thread().tab_id);
            }
        },
        ComposeTarget::AppendBottom => {
            let added = app.prompt_added(prompt, now);
            if let Some(queued) = added.turn_queued(app.next_history_id, now) {
                lemma_index_of_tab(queued.threads, queued.thread().tab_id);
            }
        },
    }
}

/// On the command line, characters extend it, backspace takes one back, tab moves the highlight,
/// and nothing of what was said changes by that.
pub proof fn keys_edit_the_command_line(
    app: AppModel,
    ch: char,
    configs: Seq<ConfigView>,
    tools: Seq<ToolView>,
    now: u64,
)
    requires
        app.wf(),
        app.mode == Mode::Command,
        app.palette.model_ids == config_ids(configs),
    ensures
        ({
            let typed = after_key(app, Key::Char(ch), configs, tools, now);
            let back = after_key(typed.0, Key::Backspace, configs, tools, now);
            let moved = after_key(app, Key::Tab, configs, tools, now);
            &&& typed.1 is Continue
            &&& typed.0.threads == app.threads
            &&& typed.0.mode == Mode::Command
            &&& typed.0.palette.draft == app.palette.draft.push(ch)
            &&& typed.0.command_edit_target == app.command_edit_target
            &&& back.0.palette.draft == app.palette.draft
            &&& back.0.threads == app.threads
            &&& moved.0.threads == app.threads
            &&& moved.0.palette.draft == app.palette.draft
            &&& moved.0.palette.highlighted == match app.palette.highlighted {
                None => if app.palette.suggestions.len() == 0 {
                    None
                } else {
                    Some(0usize)
                },
                Some(at) => if at + 1 < app.palette.suggestions.len() {
                    Some((at + 1) as usize)
                } else {
                    None
                },
            }
        }),
{
    assert(app.palette.draft.push(ch).drop_last() =~= app.palette.draft);
}

/// Return on the command line runs the command that was typed, or the one that is highlighted. One
/// that cannot be read is not run, and the line says why.
pub proof fn return_runs_the_command(
    app: AppModel,
    configs: Seq<ConfigView>,
    tools: Seq<ToolView>,
    now: u64,
)
    requires
        app.wf(),
        app.mode == Mode::Command,
        app.palette.model_ids == config_ids(configs),
    ensures
        ({
            let (next, effect) = after_key(app, Key::Enter, configs, tools, now);
            &&& app.palette.highlighted is None ==> match command_of(app.palette.draft) {
                Ok(dispatch) => (next, effect) == app.executed(dispatch, configs, tools, now),
                Err(ParseErrorView::Empty) => next == app && effect is Continue,
                Err(ParseErrorView::Incomplete(message)) => next.threads == app.threads
                    && next.palette.error == Some(message) && effect is Continue && next.mode
                    == Mode::Command,
                Err(ParseErrorView::Invalid(message)) => next.threads == app.threads
                    && next.palette.error == Some(message) && effect is Continue && next.mode
                    == Mode::Command,
            }
            &&& app.palette.highlighted matches Some(at) ==> {
                let chosen = app.palette.suggestions[at as int];
                let line = AppModel { palette: app.palette.drafted(chosen.display), ..app };
                &&& chosen.dispatch == DispatchView::OpenModelPrefix ==> next == line && effect
                    is Continue
                &&& chosen.dispatch != DispatchView::OpenModelPrefix ==> (next, effect)
                    == line.executed(chosen.dispatch, configs, tools, now)
            }
        }),
{
}

/// Escape closes the command line, and runs nothing. What held the place of a command goes.
pub proof fn escape_closes_the_command_line(
    app: AppModel,
    configs: Seq<ConfigView>,
    tools: Seq<ToolView>,
    now: u64,
)
    requires
        app.wf(),
        app.mode == Mode::Command,
    ensures
        ({
            let (next, effect) = after_key(app, Key::Esc, configs, tools, now);
            &&& effect is Continue
            &&& next.mode == Mode::Normal
            &&& next.palette.draft.len() == 0
            &&& next.palette.suggestions.len() == 0
            &&& next.palette.error is None
            &&& next.command_edit_target is None
            &&& next.active == app.active
            &&& next.thread().queue == app.thread().queue
            &&& app.inline_command_placeholder is None ==> next.threads == app.threads
            &&& app.inline_command_placeholder matches Some((id, _)) ==> {
                &&& next.inline_command_placeholder is None
                &&& forall|i: int|
                    0 <= i < app.thread().history.len() && (
                    #[trigger] app.thread().history[i]).id != id
                        ==> next.thread().history.contains(app.thread().history[i])
                &&& next.thread().history.len() <= app.thread().history.len()
            }
        }),
{
    if let Some((id, _)) = app.inline_command_placeholder {
        let history = app.thread().history;
        lemma_index_of_id(history, id);
        let next = after_key(app, Key::Esc, configs, tools, now).0;
        if let Some(at) = index_of_id(history, id) {
            assert(next.thread().history == history.remove(at));
            assert forall|i: int| 0 <= i < history.len() && (#[trigger] history[i]).id != id implies
            next.thread().history.contains(history[i]) by {
                let k = if i < at {
                    i
                } else {
                    i - 1
                };
                assert(next.thread().history[k] == history[i]);
            }
        } else {
            assert forall|i: int| 0 <= i < history.len() && (#[trigger] history[i]).id != id implies
            next.thread().history.contains(history[i]) by {
                assert(next.thread().history[i] == history[i]);
            }
        }
    }
}

/// The program starts with one conversation, in which nothing was said, with the model and the tools
/// that were asked for, and its model is connected; writing begins at once.
pub proof fn program_starts_with_one_conversation(
    model_ids: Seq<Seq<char>>,
    model_id: Seq<char>,
    tools_enabled: bool,
)
    ensures
        ({
            let app = AppModel::started(model_ids, model_id, tools_enabled);
            let thread = app.thread();
            &&& app.threads.len() == 1
            &&& app.active == 0
            &&& app.mode == Mode::Insert
            &&& thread.history.len() == 0
            &&& thread.queue.len() == 0
            &&& !thread.running_job
            &&& thread.draft.len() == 0
            &&& thread.compose_target == ComposeTarget::AppendBottom
            &&& thread.base_config.model_id == model_id
            &&& thread.base_config.tools_enabled == tools_enabled
            &&& thread.current_config == thread.base_config
            &&& thread.connections.contains(model_id)
            &&& thread.loaded_models == Set::<Seq<char>>::empty()
            &&& !thread.has_unseen_changes
            &&& app.palette.draft.len() == 0
        }),
{
}

/// After every event, the entries on the loading of models that are loaded say so, and nothing else
/// that was said changes. The selection stays where it is, where there is an entry.
pub proof fn settling_brings_the_conversation_up_to_date(thread: ThreadModel, at: int)
    requires
        0 <= at < thread.history.len() <= usize::MAX,
    ensures
        ({
            let next = normalized(thread);
            let item = thread.history[at];
            &&& next.history.len() == thread.history.len()
            &&& next.history[at].id == item.id
            &&& next.history[at].meta == item.meta
            &&& !(item.entry is LoadingModel) ==> next.history[at] == item
            &&& item.entry matches EntryModel::LoadingModel { model_id, status }
                ==> next.history[at].entry == if thread.loaded_models.contains(model_id) {
                (EntryModel::LoadingModel { model_id, status: Some(ModelLoadStatus::Loaded) })
            } else {
                item.entry
            }
            &&& next.queue == thread.queue
            &&& next.draft == thread.draft
            &&& thread.selected matches Some(place) ==> next.selected == Some(
                if place < thread.history.len() {
                    place
                } else {
                    (thread.history.len() - 1) as usize
                },
            )
            &&& thread.selected is None ==> next.selected == if thread.compose_target
                == ComposeTarget::AppendBottom {
                None
            } else {
                Some((thread.history.len() - 1) as usize)
            }
        }),
{
}

} // verus!
