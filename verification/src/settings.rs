//! What commands do to conversations and to their settings.

use vstd::prelude::*;

use crate::agent::ToolView;
use crate::app_model::{
    first_label, lemma_index_of_tab, target_index, AppModel, EffectModel, PurposeModel,
};
use crate::command_palette::{DispatchView, TargetView};
use crate::commands::{in_family, next_of_family};
use crate::history::{EntryModel, ItemModel, KindModel, MetaModel, Mode};
use crate::promises::{
    answered_anew, lemma_replayed_and_sent, queued_numbers, turn_numbers, waits_or_was_sent,
};
use crate::runtime::{config_ids, config_named, found_config_has_the_id, ConfigView};
use crate::text::{lines_joined, trimmed};
use crate::thread::{
    entry_replaced, index_of_id, labels_of, lemma_index_of_id, reconfigured, with_history,
    ComposeTarget, ThreadModel,
};
use crate::upkeep::{
    entry_is_found_by_its_number, lemma_entry_replaced, lemma_history_replaced,
    lemma_remove_keeps, lemma_target_index, orderly, sound, tidy,
};

verus! {

/// The command line is closed, and writing at the end of the conversation begins.
pub open spec fn back_to_writing(app: AppModel) -> bool {
    &&& app.mode == Mode::Insert
    &&& app.palette.draft.len() == 0
    &&& app.palette.error is None
    &&& app.command_edit_target is None
    &&& app.inline_command_placeholder is None
    &&& app.thread().compose_target == ComposeTarget::AppendBottom
    &&& app.thread().draft.len() == 0
    &&& app.thread().selected is None
}

/// A command that is new stands at the end of the conversation, under a number of its own,
/// and sets what it says, and nothing else; nothing is answered anew for it.
pub proof fn new_command_sets_what_it_says(
    app: AppModel,
    dispatch: DispatchView,
    configs: Seq<ConfigView>,
    tools: Seq<ToolView>,
    now: u64,
)
    requires
        sound(app),
        app.next_history_id < u64::MAX,
        app.command_edit_target is None,
        dispatch is SetToolsEnabled || dispatch is ListModels || dispatch is Break || (dispatch
            matches DispatchView::SwitchModel(model_id) && config_named(configs, model_id) is Some
            && app.thread().connections.contains(model_id)),
    ensures
        ({
            let thread = app.thread();
            let (next, effect) = app.executed(dispatch, configs, tools, now);
            let after = next.thread();
            let last = after.history.last();
            &&& effect is Continue
            &&& back_to_writing(next)
            &&& next.active == app.active
            &&& after.history.len() == thread.history.len() + 1
            &&& after.history.drop_last() == thread.history
            &&& after.queue == thread.queue
            &&& last.id == app.next_history_id
            &&& next.next_history_id == app.next_history_id + 1
            &&& after.current_config.model_id == match dispatch {
                DispatchView::SwitchModel(model_id) => model_id,
                _ => thread.current_config.model_id,
            }
            &&& after.current_config.tools_enabled == match dispatch {
                DispatchView::SetToolsEnabled(enabled) => enabled,
                _ => thread.current_config.tools_enabled,
            }
            &&& match dispatch {
                DispatchView::SwitchModel(model_id) => {
                    &&& last.meta == MetaModel::Command(KindModel::Model(model_id))
                    &&& last.entry == EntryModel::Command {
                        raw: "model "@ + model_id,
                        result: "active model: "@ + model_id,
                    }
                },
                DispatchView::SetToolsEnabled(enabled) => {
                    &&& last.meta == MetaModel::Command(KindModel::Tools(enabled))
                    &&& enabled ==> last.entry == EntryModel::Command {
                        raw: "tools enable"@,
                        result: "tools prompt is now enabled"@,
                    }
                    &&& !enabled ==> last.entry == EntryModel::Command {
                        raw: "tools disable"@,
                        result: "tools prompt is now disabled"@,
                    }
                },
                DispatchView::Break => last.entry is Break && last.meta == MetaModel::Plain,
                _ => last.entry == (EntryModel::Command {
                    raw: "model ls"@,
                    result: lines_joined(Seq::new(configs.len(), |k: int| configs[k].id)),
                }) && last.meta == MetaModel::Command(KindModel::ModelList),
            }
        }),
{
    let thread = app.thread();
    assert(app.threads[app.active as int] == thread);
    assert(tidy(thread, app.next_history_id as int));
    let next = app.executed(dispatch, configs, tools, now).0;
    let after = next.thread();
    assert(after.history.drop_last() =~= thread.history);
    assert(config_ids(configs) =~= Seq::new(configs.len(), |k: int| configs[k].id));
}

/// Which turns an edited command counts for: those up to the next command of its family.
pub open spec fn reaches(history: Seq<ItemModel>, at: int, kind: KindModel, reach: int) -> bool {
    &&& at < reach <= history.len()
    &&& forall|i: int|
        at < i < reach ==> !((#[trigger] history[i]).meta matches MetaModel::Command(other)
            && other.family() == kind.family())
    &&& reach < history.len() ==> (history[reach].meta matches MetaModel::Command(other)
        && other.family() == kind.family() && other != kind)
}

proof fn lemma_reach(history: Seq<ItemModel>, from: int, at: int, kind: KindModel, reach: int)
    requires
        0 <= at < from <= reach,
        kind.family() is Some,
        reaches(history, at, kind, reach),
    ensures
        next_of_family(history, from, kind.family()) == if reach < history.len() {
            Some(reach)
        } else {
            None::<int>
        },
    decreases reach - from,
{
    if from < reach {
        assert(!in_family(history[from].meta, kind.family()));
        lemma_reach(history, from + 1, at, kind, reach);
    } else if from < history.len() {
        assert(in_family(history[from].meta, kind.family()));
    }
}

/// A command on models or tools that is edited is replaced where it stands. The turns that it
/// counts for, up to the next command on the same, lose their answers and wait, in their
/// order, and no others do; the first is sent, unless one runs. All other entries stay.
pub proof fn edited_command_answers_its_reach_anew(
    app: AppModel,
    at: int,
    entry: EntryModel,
    kind: KindModel,
    reach: int,
    tools: Seq<ToolView>,
    now: u64,
)
    requires
        orderly(app),
        app.has_room(),
        0 <= at < app.thread().history.len(),
        app.command_edit_target == Some(app.thread().history[at].id),
        entry is Command,
        kind.family() is Some,
        reaches(app.thread().history, at, kind, reach),
    ensures
        ({
            let thread = app.thread();
            let history = thread.history;
            let replaced = ItemModel { entry, meta: MetaModel::Command(kind), ..history[at] };
            let (next, effect) = app.command_entered(entry, kind, true, tools, now);
            &&& waits_or_was_sent(
                next.thread(),
                effect,
                thread.running_job,
                turn_numbers(history.subrange(at + 1, reach)),
            )
            &&& answered_anew(
                next.thread().history,
                history.update(at, replaced),
                at + 1,
                reach,
                now,
            )
            &&& effect is StartStream || effect is Continue ==> back_to_writing(next)
        }),
{
    let thread = app.thread();
    let history = thread.history;
    let id = history[at].id;
    let meta = MetaModel::Command(kind);
    assert(app.threads[app.active as int] == thread);
    assert(tidy(thread, app.next_history_id as int));
    entry_is_found_by_its_number(app, app.active as int, at);
    let cleared = AppModel { command_edit_target: None, ..app };
    lemma_entry_replaced(cleared, id, entry, meta);
    let replaced = history.update(at, ItemModel { entry, meta, ..history[at] });
    assert(entry_replaced(history, id, entry, meta) == replaced);
    let edited = reconfigured(with_history(thread, replaced));
    let changed = cleared.with_active(edited);
    assert(changed.thread() == edited);
    lemma_index_of_id(replaced, id);
    let found = index_of_id(replaced, id).unwrap();
    assert(replaced[at].id == id);
    if found < at {
        assert(replaced[found] == history[found]);
        assert(history[found].id != history[at].id);
    }
    assert(found == at) by {
        if found > at {
            assert(replaced[at].id != id);
        }
    }
    assert forall|i: int| at < i < replaced.len() implies #[trigger] replaced[i]
        == history[i] by {}
    assert(reaches(replaced, at, kind, reach));
    lemma_reach(replaced, at + 1, at, kind, reach);
    assert(reconfigured(edited) =~= edited);
    assert(changed.with_active(edited) =~= changed) by {
        assert(changed.threads.update(changed.active as int, edited) =~= changed.threads);
    }
    assert forall|i: int| 0 <= i < changed.threads.len() implies changed.next_history_id + (
    #[trigger] changed.threads[i]).history.len() + 4 <= u64::MAX by {
        assert(app.next_history_id + app.threads[i].history.len() + 4 <= u64::MAX);
    }
    assert(changed.command_replayed(at, kind, now) == changed.replay_queued(at + 1, reach, now));
    lemma_replayed_and_sent(changed, at + 1, reach, tools, now);
    assert(replaced.subrange(at + 1, reach) =~= history.subrange(at + 1, reach));
    let (sent, _) = changed.replay_queued(at + 1, reach, now).active_job_started(tools, now);
    let (next, effect) = app.command_entered(entry, kind, true, tools, now);
    assert(next.thread().history == sent.thread().history);
    assert(queued_numbers(next.thread()) == queued_numbers(sent.thread()));
}

/// Editing a command that sets a model or the tools has the turns that it counts for answered anew,
/// and sets what the new command says from its place on.
pub proof fn edited_setting_answers_its_reach_anew(
    app: AppModel,
    at: int,
    dispatch: DispatchView,
    reach: int,
    configs: Seq<ConfigView>,
    tools: Seq<ToolView>,
    now: u64,
)
    requires
        orderly(app),
        app.has_room(),
        0 <= at < app.thread().history.len(),
        app.command_edit_target == Some(app.thread().history[at].id),
        dispatch matches DispatchView::SetToolsEnabled(enabled) ==> reaches(
            app.thread().history,
            at,
            KindModel::Tools(enabled),
            reach,
        ),
        dispatch matches DispatchView::SwitchModel(model_id) ==> config_named(
            configs,
            model_id,
        ) is Some && app.thread().connections.contains(model_id) && reaches(
            app.thread().history,
            at,
            KindModel::Model(model_id),
            reach,
        ),
        dispatch is SetToolsEnabled || dispatch is SwitchModel,
    ensures
        ({
            let thread = app.thread();
            let history = thread.history;
            let kind = match dispatch {
                DispatchView::SwitchModel(model_id) => KindModel::Model(model_id),
                _ => KindModel::Tools(dispatch->SetToolsEnabled_0),
            };
            let (next, effect) = app.executed(dispatch, configs, tools, now);
            &&& waits_or_was_sent(
                next.thread(),
                effect,
                thread.running_job,
                turn_numbers(history.subrange(at + 1, reach)),
            )
            &&& next.thread().history[at].meta == MetaModel::Command(kind)
            &&& next.thread().history[at].id == history[at].id
            &&& answered_anew(
                next.thread().history,
                history.update(at, next.thread().history[at]),
                at + 1,
                reach,
                now,
            )
        }),
{
    let history = app.thread().history;
    let (entry, kind) = match dispatch {
        DispatchView::SwitchModel(model_id) => (
            EntryModel::Command {
                raw: "model "@ + model_id,
                result: "active model: "@ + model_id,
            },
            KindModel::Model(model_id),
        ),
        _ => if dispatch->SetToolsEnabled_0 {
            (
                EntryModel::Command {
                    raw: "tools enable"@,
                    result: "tools prompt is now enabled"@,
                },
                KindModel::Tools(true),
            )
        } else {
            (
                EntryModel::Command {
                    raw: "tools disable"@,
                    result: "tools prompt is now disabled"@,
                },
                KindModel::Tools(false),
            )
        },
    };
    edited_command_answers_its_reach_anew(app, at, entry, kind, reach, tools, now);
    let edited = ItemModel { entry, meta: MetaModel::Command(kind), ..history[at] };
    let (next, effect) = app.executed(dispatch, configs, tools, now);
    assert((next, effect) == app.command_entered(entry, kind, true, tools, now));
    assert(history.update(at, edited)[at] == edited);
    assert(next.thread().history[at] == edited);
}

/// Editing a command to list the models replaces it, and answers nothing anew.
pub proof fn edited_listing_answers_nothing_anew(
    app: AppModel,
    at: int,
    configs: Seq<ConfigView>,
    tools: Seq<ToolView>,
    now: u64,
)
    requires
        orderly(app),
        0 <= at < app.thread().history.len(),
        app.command_edit_target == Some(app.thread().history[at].id),
    ensures
        ({
            let history = app.thread().history;
            let (next, effect) = app.executed(DispatchView::ListModels, configs, tools, now);
            &&& effect is Continue
            &&& next.thread().queue == app.thread().queue
            &&& next.thread().history.len() == history.len()
            &&& forall|i: int|
                0 <= i < history.len() && i != at ==> #[trigger] next.thread().history[i]
                    == history[i]
            &&& next.thread().history[at].id == history[at].id
            &&& next.thread().history[at].meta == MetaModel::Command(KindModel::ModelList)
            &&& back_to_writing(next)
        }),
{
    let history = app.thread().history;
    assert(app.threads[app.active as int] == app.thread());
    assert(tidy(app.thread(), app.next_history_id as int));
    entry_is_found_by_its_number(app, app.active as int, at);
}

/// A command that is edited to say what the next command of its family says takes that one's place:
/// the other goes, and all turns behind the edited one are answered anew.
pub proof fn repeated_command_goes_and_the_rest_is_answered_anew(
    app: AppModel,
    at: int,
    entry: EntryModel,
    kind: KindModel,
    repeated: int,
    tools: Seq<ToolView>,
    now: u64,
)
    requires
        orderly(app),
        app.has_room(),
        0 <= at < repeated < app.thread().history.len(),
        app.command_edit_target == Some(app.thread().history[at].id),
        entry is Command,
        kind.family() is Some,
        app.thread().history[repeated].meta == MetaModel::Command(kind),
        forall|i: int|
            at < i < repeated ==> !((
            #[trigger] app.thread().history[i]).meta matches MetaModel::Command(other)
                && other.family() == kind.family()),
    ensures
        ({
            let thread = app.thread();
            let history = thread.history;
            let replaced = ItemModel { entry, meta: MetaModel::Command(kind), ..history[at] };
            let left = history.update(at, replaced).remove(repeated);
            let (next, effect) = app.command_entered(entry, kind, true, tools, now);
            &&& waits_or_was_sent(
                next.thread(),
                effect,
                thread.running_job,
                turn_numbers(left.skip(at + 1)),
            )
            &&& answered_anew(
                next.thread().history,
                left,
                at + 1,
                left.len() as int,
                now,
            )
        }),
{
    let thread = app.thread();
    let history = thread.history;
    let id = history[at].id;
    let meta = MetaModel::Command(kind);
    assert(app.threads[app.active as int] == thread);
    assert(tidy(thread, app.next_history_id as int));
    entry_is_found_by_its_number(app, app.active as int, at);
    let cleared = AppModel { command_edit_target: None, ..app };
    lemma_entry_replaced(cleared, id, entry, meta);
    let replaced = history.update(at, ItemModel { entry, meta, ..history[at] });
    assert(entry_replaced(history, id, entry, meta) == replaced);
    let edited = reconfigured(with_history(thread, replaced));
    let changed = cleared.with_active(edited);
    assert(changed.thread() == edited);
    lemma_index_of_id(replaced, id);
    let found = index_of_id(replaced, id).unwrap();
    assert(replaced[at].id == id);
    if found < at {
        assert(replaced[found] == history[found]);
        assert(history[found].id != history[at].id);
    }
    assert(found == at) by {
        if found > at {
            assert(replaced[at].id != id);
        }
    }
    assert forall|i: int| at < i < replaced.len() implies #[trigger] replaced[i]
        == history[i] by {}
    lemma_next_repeats(replaced, at + 1, repeated, kind);
    assert(tidy(
        changed.threads[changed.active as int],
        changed.next_history_id as int,
    ));
    lemma_remove_keeps(replaced, repeated, changed.next_history_id as int);
    lemma_history_replaced(changed, replaced.remove(repeated));
    let left = replaced.remove(repeated);
    let shorter = reconfigured(with_history(edited, left));
    let fewer = changed.with_active(shorter);
    assert(fewer.thread() == shorter);
    assert forall|i: int| 0 <= i < fewer.threads.len() implies fewer.next_history_id + (
    #[trigger] fewer.threads[i]).history.len() + 4 <= u64::MAX by {
        assert(app.next_history_id + app.threads[i].history.len() + 4 <= u64::MAX);
    }
    let end = left.len() as int;
    assert(changed.command_replayed(at, kind, now) == fewer.replay_queued(at + 1, end, now));
    lemma_replayed_and_sent(fewer, at + 1, end, tools, now);
    assert(left.subrange(at + 1, end) =~= left.skip(at + 1));
    let (sent, _) = fewer.replay_queued(at + 1, end, now).active_job_started(tools, now);
    let (next, effect) = app.command_entered(entry, kind, true, tools, now);
    assert(next.thread().history == sent.thread().history);
    assert(queued_numbers(next.thread()) == queued_numbers(sent.thread()));
}

proof fn lemma_next_repeats(history: Seq<ItemModel>, from: int, repeated: int, kind: KindModel)
    requires
        0 <= from <= repeated < history.len(),
        kind.family() is Some,
        history[repeated].meta == MetaModel::Command(kind),
        forall|i: int|
            from <= i < repeated ==> !((#[trigger] history[i]).meta matches MetaModel::Command(
                other,
            ) && other.family() == kind.family()),
    ensures
        next_of_family(history, from, kind.family()) == Some(repeated),
    decreases repeated - from,
{
    if from < repeated {
        assert(!in_family(history[from].meta, kind.family()));
        lemma_next_repeats(history, from + 1, repeated, kind);
    } else {
        assert(in_family(history[from].meta, kind.family()));
    }
}

/// A break that is put in the place of a command has every turn behind it answered anew.
pub proof fn edited_break_answers_the_rest_anew(
    app: AppModel,
    at: int,
    tools: Seq<ToolView>,
    now: u64,
)
    requires
        orderly(app),
        app.has_room(),
        0 <= at < app.thread().history.len(),
        app.command_edit_target == Some(app.thread().history[at].id),
    ensures
        ({
            let thread = app.thread();
            let history = thread.history;
            let replaced = ItemModel {
                entry: EntryModel::Break,
                meta: MetaModel::Plain,
                ..history[at]
            };
            let (next, effect) = app.break_entered(tools, now);
            &&& waits_or_was_sent(
                next.thread(),
                effect,
                thread.running_job,
                turn_numbers(history.update(at, replaced).skip(at)),
            )
            &&& answered_anew(
                next.thread().history,
                history.update(at, replaced),
                at,
                history.len() as int,
                now,
            )
            &&& effect is StartStream || effect is Continue ==> back_to_writing(next)
        }),
{
    let thread = app.thread();
    let history = thread.history;
    let id = history[at].id;
    assert(app.threads[app.active as int] == thread);
    assert(tidy(thread, app.next_history_id as int));
    entry_is_found_by_its_number(app, app.active as int, at);
    let cleared = AppModel { command_edit_target: None, ..app };
    lemma_entry_replaced(cleared, id, EntryModel::Break, MetaModel::Plain);
    let replaced = history.update(
        at,
        ItemModel { entry: EntryModel::Break, meta: MetaModel::Plain, ..history[at] },
    );
    assert(entry_replaced(history, id, EntryModel::Break, MetaModel::Plain) == replaced);
    let edited = reconfigured(with_history(thread, replaced));
    let changed = cleared.with_active(edited);
    assert(changed.thread() == edited);
    lemma_index_of_id(replaced, id);
    let found = index_of_id(replaced, id).unwrap();
    assert(replaced[at].id == id);
    if found < at {
        assert(replaced[found] == history[found]);
        assert(history[found].id != history[at].id);
    }
    assert(found == at) by {
        if found > at {
            assert(replaced[at].id != id);
        }
    }
    assert forall|i: int| 0 <= i < changed.threads.len() implies changed.next_history_id + (
    #[trigger] changed.threads[i]).history.len() + 4 <= u64::MAX by {
        assert(app.next_history_id + app.threads[i].history.len() + 4 <= u64::MAX);
    }
    let end = history.len() as int;
    lemma_replayed_and_sent(changed, at, end, tools, now);
    assert(replaced.subrange(at, end) =~= replaced.skip(at));
    let (sent, _) = changed.replay_queued(at, end, now).active_job_started(tools, now);
    let (next, effect) = app.break_entered(tools, now);
    assert(next.thread().history == sent.thread().history);
    assert(queued_numbers(next.thread()) == queued_numbers(sent.thread()));
}

/// A model that is not known is not switched to, nor is a conversation begun with it: the
/// command line says why, and nothing else changes.
pub proof fn unknown_model_is_refused(
    app: AppModel,
    model_id: Seq<char>,
    configs: Seq<ConfigView>,
    tools: Seq<ToolView>,
    now: u64,
)
    requires
        forall|k: int| 0 <= k < configs.len() ==> (#[trigger] configs[k]).id != model_id,
    ensures
        ({
            let switched = app.executed(DispatchView::SwitchModel(model_id), configs, tools, now);
            let begun = app.executed(DispatchView::NewTab(model_id), configs, tools, now);
            let why = Some(
                model_id + " is not a recognised model, use :model ls to show available models"@,
            );
            &&& switched.1 is Continue
            &&& switched.0.threads == app.threads
            &&& switched.0.mode == app.mode
            &&& switched.0.palette.error == why
            &&& begun.1 is Continue
            &&& begun.0.threads == app.threads
            &&& begun.0.mode == app.mode
            &&& begun.0.palette.error == why
        }),
{
    found_config_has_the_id(configs, model_id);
    if let Some(config) = config_named(configs, model_id) {
        let k = choose|k: int| 0 <= k < configs.len() && configs[k] == config;
        assert(configs[k].id == model_id);
    }
}

/// A model that is known but not connected in the conversation is connected first: for the
/// conversation that is shown, and nothing changes before that.
pub proof fn model_is_connected_before_the_switch(
    app: AppModel,
    model_id: Seq<char>,
    k: int,
    configs: Seq<ConfigView>,
    tools: Seq<ToolView>,
    now: u64,
)
    requires
        0 <= k < configs.len(),
        configs[k].id == model_id,
        !app.thread().connections.contains(model_id),
    ensures
        app.executed(DispatchView::SwitchModel(model_id), configs, tools, now) == (
            app,
            EffectModel::OpenConnection {
                thread_index: app.active,
                model_id,
                purpose: PurposeModel::SwitchModel,
            },
        ),
        app.executed(DispatchView::NewTab(model_id), configs, tools, now) == (
            app,
            EffectModel::OpenConnection {
                thread_index: app.active,
                model_id,
                purpose: PurposeModel::NewTab,
            },
        ),
{
    found_config_has_the_id(configs, model_id);
    assert(config_ids(configs)[k] == model_id);
}

/// Once the connection is open, the model is switched, and the conversation is connected to it.
/// Where it could not be had, the program ends with the error, and nothing was switched.
pub proof fn opened_model_is_switched_to(
    app: AppModel,
    model_id: Seq<char>,
    error: Seq<char>,
    configs: Seq<ConfigView>,
    tools: Seq<ToolView>,
    now: u64,
)
    requires
        sound(app),
        app.next_history_id < u64::MAX,
        app.command_edit_target is None,
    ensures
        ({
            let (next, effect) = app.switch_resumed(model_id, Ok(()), tools, now);
            let after = next.thread();
            &&& effect is Continue
            &&& after.connections == app.thread().connections.insert(model_id)
            &&& after.current_config.model_id == model_id
            &&& after.current_config.tools_enabled == app.thread().current_config.tools_enabled
            &&& after.history.drop_last() == app.thread().history
            &&& after.history.last().meta == MetaModel::Command(KindModel::Model(model_id))
            &&& app.switch_resumed(model_id, Err(error), tools, now) == (
                app,
                EffectModel::Fail(error),
            )
        }),
{
    let thread = app.thread();
    assert(app.threads[app.active as int] == thread);
    assert(tidy(thread, app.next_history_id as int));
    let (next, _) = app.switch_resumed(model_id, Ok(()), tools, now);
    assert(next.thread().history.drop_last() =~= thread.history);
}

/// A conversation that is begun is the last one, is shown, and has nothing in it. It has a
/// number that none had, its model is connected, and it has the tools setting of the one that
/// was shown. The others stay as they are.
pub proof fn begun_conversation_is_shown(
    app: AppModel,
    model_id: Seq<char>,
    error: Seq<char>,
)
    requires
        sound(app),
        app.next_tab_id < usize::MAX,
        app.threads.len() < usize::MAX,
    ensures
        ({
            let (next, effect) = app.tab_resumed(model_id, Ok(()));
            let begun = next.thread();
            &&& effect is Continue
            &&& next.threads.len() == app.threads.len() + 1
            &&& next.active == app.threads.len()
            &&& next.threads.drop_last() == app.threads
            &&& back_to_writing(next)
            &&& begun.history.len() == 0
            &&& begun.queue.len() == 0
            &&& !begun.running_job
            &&& begun.base_config.model_id == model_id
            &&& begun.current_config == begun.base_config
            &&& begun.base_config.tools_enabled == app.thread().current_config.tools_enabled
            &&& begun.connections.contains(model_id)
            &&& begun.name_override is None
            &&& forall|i: int|
                0 <= i < app.threads.len() ==> (#[trigger] app.threads[i]).tab_id != begun.tab_id
            &&& next.next_tab_id == app.next_tab_id + 1
            &&& app.tab_resumed(model_id, Err(error)) == (app, EffectModel::Fail(error))
        }),
{
    let (next, _) = app.tab_resumed(model_id, Ok(()));
    assert(next.threads.drop_last() =~= app.threads);
}

/// A conversation is renamed to what was typed, without the white space around it, and goes by
/// that name then. No name is empty, and none is given twice: then the command line says so,
/// and nothing else changes. Other conversations keep their names.
pub proof fn renaming_gives_a_name_of_its_own(
    app: AppModel,
    target: TargetView,
    at: int,
    new_name: Seq<char>,
    configs: Seq<ConfigView>,
    tools: Seq<ToolView>,
    now: u64,
)
    requires
        app.wf(),
        target_index(app.threads, target) == Some(at),
    ensures
        ({
            let name = trimmed(new_name);
            let (next, effect) = app.executed(
                DispatchView::RenameTab { target, new_name },
                configs,
                tools,
                now,
            );
            &&& effect is Continue
            &&& name.len() == 0 || labels_of(app.threads).contains(name) ==> next.threads
                == app.threads && next.mode == app.mode && next.palette.error is Some
            &&& name.len() > 0 && !labels_of(app.threads).contains(name) ==> {
                &&& next.threads.len() == app.threads.len()
                &&& next.threads[at].name_override == Some(name)
                &&& labels_of(next.threads)[at] == name
                &&& next.threads[at].history == app.threads[at].history
                &&& next.active == app.active
                &&& back_to_writing(next)
                &&& forall|i: int|
                    0 <= i < app.threads.len() && i != at ==> (
                    #[trigger] next.threads[i]).name_override == app.threads[i].name_override
                        && next.threads[i].history == app.threads[i].history
            }
        }),
{
    lemma_target_index(app.threads, target);
}

/// Whether a target names a conversation: by its number, or by what it goes by.
pub open spec fn is_meant(threads: Seq<ThreadModel>, target: TargetView, at: int) -> bool {
    match target {
        TargetView::Id(id) => threads[at].tab_id == id,
        TargetView::Name(name) => labels_of(threads)[at] == name,
    }
}

/// Showing a conversation by its number or its name shows that one. Where there is none, the
/// command line says so, and the same one is shown.
pub proof fn named_conversation_is_shown(
    app: AppModel,
    target: TargetView,
    configs: Seq<ConfigView>,
    tools: Seq<ToolView>,
    now: u64,
)
    requires
        app.wf(),
    ensures
        ({
            let (next, effect) = app.executed(
                DispatchView::ActivateTab(target),
                configs,
                tools,
                now,
            );
            &&& effect is Continue
            &&& next.threads.len() == app.threads.len()
            &&& (exists|at: int|
                0 <= at < app.threads.len() && #[trigger] is_meant(
                    app.threads,
                    target,
                    at,
                )) ==> {
                &&& is_meant(app.threads, target, next.active as int)
                &&& back_to_writing(next)
                &&& next.thread().history == app.threads[next.active as int].history
            }
            &&& (forall|at: int|
                0 <= at < app.threads.len() ==> !(#[trigger] is_meant(app.threads, target, at))) ==> {
                &&& next.threads == app.threads
                &&& next.active == app.active
                &&& next.palette.error is Some
            }
        }),
{
    match target {
        TargetView::Id(id) => lemma_index_of_tab(app.threads, id),
        TargetView::Name(name) => lemma_label_found(labels_of(app.threads), name),
    }
    match target_index(app.threads, target) {
        Some(at) => assert(is_meant(app.threads, target, at)),
        None => {
            assert forall|at: int| 0 <= at < app.threads.len() implies !(#[trigger] is_meant(
                app.threads,
                target,
                at,
            )) by {
                assert(labels_of(app.threads)[at] == labels_of(app.threads)[at]);
            }
        },
    }
}

proof fn lemma_label_found(labels: Seq<Seq<char>>, name: Seq<char>)
    ensures
        match first_label(labels, name) {
            Some(at) => 0 <= at < labels.len() && labels[at] == name,
            None => forall|i: int| 0 <= i < labels.len() ==> #[trigger] labels[i] != name,
        },
    decreases labels.len(),
{
    if labels.len() > 0 && labels[0] != name {
        let rest = labels.drop_first();
        lemma_label_found(rest, name);
        assert forall|i: int| 0 < i < labels.len() implies #[trigger] labels[i] == rest[i
            - 1] by {}
    }
}

/// The beginnings of commands do nothing by themselves, and quitting ends the program.
pub proof fn beginnings_of_commands_do_nothing(
    app: AppModel,
    configs: Seq<ConfigView>,
    tools: Seq<ToolView>,
    now: u64,
)
    ensures
        app.executed(DispatchView::OpenModelPrefix, configs, tools, now) == (
            app,
            EffectModel::Continue,
        ),
        app.executed(DispatchView::OpenToolsPrefix, configs, tools, now) == (
            app,
            EffectModel::Continue,
        ),
        app.executed(DispatchView::OpenTabPrefix, configs, tools, now) == (
            app,
            EffectModel::Continue,
        ),
        app.executed(DispatchView::Quit, configs, tools, now) == (app, EffectModel::Quit),
{
}

/// A command that is begun beside the selected entry has an empty command hold its place, right
/// before it or right behind it, and is then typed on an empty line. All other entries stay, in
/// their order.
pub proof fn commands_are_begun_beside_the_selected_entry(
    app: AppModel,
    at: usize,
    configs: Seq<ConfigView>,
    tools: Seq<ToolView>,
    now: u64,
)
    requires
        app.wf(),
        app.thread().selected == Some(at),
        at < app.thread().history.len() < usize::MAX,
        app.next_history_id < u64::MAX,
    ensures
        ({
            let history = app.thread().history;
            let begun = |next: AppModel, place: int|
                {
                    let after = next.thread();
                    &&& next.mode == Mode::Command
                    &&& next.palette.draft.len() == 0
                    &&& next.command_edit_target == Some(app.next_history_id)
                    &&& next.next_history_id == app.next_history_id + 1
                    &&& after.history.len() == history.len() + 1
                    &&& after.history.take(place) == history.take(place)
                    &&& after.history.skip(place + 1) == history.skip(place)
                    &&& after.history[place].id == app.next_history_id
                    &&& after.history[place].entry is Command
                    &&& after.history[place].meta == MetaModel::Plain
                    &&& after.queue == app.thread().queue
                };
            let before = app.executed(DispatchView::OpenCommandBefore, configs, tools, now);
            let behind = app.executed(DispatchView::OpenCommandAfter, configs, tools, now);
            &&& begun(before.0, at as int)
            &&& begun(behind.0, at + 1)
            &&& before.1 is Continue
            &&& behind.1 is Continue
        }),
{
    let history = app.thread().history;
    let before = app.executed(DispatchView::OpenCommandBefore, configs, tools, now).0;
    let behind = app.executed(DispatchView::OpenCommandAfter, configs, tools, now).0;
    assert(before.thread().history.take(at as int) =~= history.take(at as int));
    assert(before.thread().history.skip(at + 1) =~= history.skip(at as int));
    assert(behind.thread().history.take(at + 1) =~= history.take(at + 1));
    assert(behind.thread().history.skip(at + 2) =~= history.skip(at + 1));
}

} // verus!
