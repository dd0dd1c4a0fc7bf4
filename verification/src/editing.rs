//! What editing and replaying promise.

use vstd::prelude::*;

use crate::agent::ToolView;
use crate::app_model::{lemma_index_of_tab, target_index, AppModel, EffectModel};
use crate::command_palette::{DispatchView, TargetView};
use crate::commands::{next_of_family, InlinePosition};
use crate::history::{EntryModel, ItemModel, KindModel, MetaModel, ModelLoadStatus, TurnModel};
use crate::jobs::JobModel;
use crate::replay::{
    all_waiting, due_count, lemma_due_count_fits, lemma_same_make_same_due, replayed, same_make,
    turn_waiting, turns_in, waiting,
};
use crate::request::request_for;
use crate::runtime::{config_ids, ConfigView};
use crate::text::lines_joined;
use crate::thread::{
    entry_replaced, index_of_id, lemma_index_of_id, reconfigured, turn_changed, with_history,
    ThreadModel,
};
use crate::upkeep::{
    conversation_is_found_by_its_tab, distinct, entry_is_found_by_its_number,
    lemma_history_replaced, lemma_insert_loading_proper, lemma_loading_set_proper,
    lemma_next_of_family, lemma_prompt_edited, lemma_remove_keeps, lemma_replay_queued,
    lemma_same_marks_keep, lemma_target_index, lemma_thread_touched, lemma_with_loading_entries,
    proper, same_marks, sound, tidy,
};

verus! {

/// What an entry says without the answer to it.
pub open spec fn unanswered(item: ItemModel) -> ItemModel {
    waiting(item, 0)
}

/// What was asked in a conversation: its entries without the answers, and without
/// those on the loading of models.
pub open spec fn asked(history: Seq<ItemModel>) -> Seq<ItemModel> {
    proper(history).map_values(|item: ItemModel| unanswered(item))
}

/// An entry with another prompt, where it is the turn with a number.
pub open spec fn prompt_set(item: ItemModel, id: u64, prompt: Seq<char>) -> ItemModel {
    match item.entry {
        EntryModel::Assistant(turn) => if item.id == id {
            ItemModel { entry: EntryModel::Assistant(TurnModel { prompt, ..turn }), ..item }
        } else {
            item
        },
        _ => item,
    }
}

/// Taking out the entries on the loading of models and changing the others can be
/// done in either order.
proof fn lemma_proper_mapped(
    a: Seq<ItemModel>,
    b: Seq<ItemModel>,
    change: spec_fn(ItemModel) -> ItemModel,
)
    requires
        a.len() == b.len(),
        forall|i: int|
            0 <= i < a.len() ==> ((#[trigger] b[i]).entry is LoadingModel
                <==> a[i].entry is LoadingModel) && (!(a[i].entry is LoadingModel) ==> b[i]
                == change(a[i])),
    ensures
        proper(b) == proper(a).map_values(change),
    decreases a.len(),
{
    reveal(Seq::filter);
    if a.len() > 0 {
        let front_a = a.drop_last();
        let front_b = b.drop_last();
        assert forall|i: int| 0 <= i < front_a.len() implies ((
        #[trigger] front_b[i]).entry is LoadingModel <==> front_a[i].entry is LoadingModel) && (!(
        front_a[i].entry is LoadingModel) ==> front_b[i] == change(front_a[i])) by {
            assert(b[i] == front_b[i]);
        }
        lemma_proper_mapped(front_a, front_b, change);
        let last = a.len() - 1;
        assert(b[last].entry is LoadingModel <==> a[last].entry is LoadingModel);
        assert(proper(b) =~= proper(a).map_values(change));
    } else {
        assert(proper(b) =~= proper(a).map_values(change));
    }
}

/// Waiting for answers does not change what was asked.
proof fn lemma_waiting_asks_the_same(
    history: Seq<ItemModel>,
    start: int,
    end: int,
    now: u64,
)
    ensures
        asked(all_waiting(history, start, end, now)) == asked(history),
{
    let marked = all_waiting(history, start, end, now);
    let strip = |item: ItemModel| unanswered(item);
    let plain = history.map_values(strip);
    lemma_proper_mapped(history, plain, strip);
    lemma_proper_mapped(marked, plain, strip);
}

/// What was asked with one prompt changed.
proof fn lemma_prompt_changes_one(
    history: Seq<ItemModel>,
    id: u64,
    prompt: Seq<char>,
    now: u64,
)
    requires
        distinct(history),
    ensures
        asked(
            turn_changed(
                history,
                id,
                |turn: TurnModel| TurnModel { prompt, ..turn_waiting(turn, now) },
            ),
        ) == asked(history).map_values(|item: ItemModel| prompt_set(item, id, prompt)),
{
    let change = |turn: TurnModel| TurnModel { prompt, ..turn_waiting(turn, now) };
    let edited = turn_changed(history, id, change);
    let strip = |item: ItemModel| unanswered(item);
    let set = |item: ItemModel| prompt_set(item, id, prompt);
    let both = |item: ItemModel| prompt_set(unanswered(item), id, prompt);
    let plain = history.map_values(both);
    lemma_index_of_id(history, id);
    assert forall|i: int| 0 <= i < edited.len() implies ((
    #[trigger] plain[i]).entry is LoadingModel <==> edited[i].entry is LoadingModel) && (!(
    edited[i].entry is LoadingModel) ==> plain[i] == strip(edited[i])) by {
        if let Some(at) = index_of_id(history, id) {
            if i != at {
                assert(history[i].id != history[at].id) by {
                    if i < at {
                        assert(history[i].id != history[at].id);
                    } else {
                        assert(history[at].id != history[i].id);
                    }
                }
            }
        } else {
            assert(history[i].id != id);
        }
    }
    lemma_proper_mapped(edited, plain, strip);
    lemma_proper_mapped(history, plain, both);
    assert(proper(history).map_values(both) =~= proper(history).map_values(strip).map_values(set));
}

/// What replaying a range of a tidy conversation keeps.
proof fn lemma_replayed_keeps(
    thread: ThreadModel,
    start: int,
    end: int,
    first_id: u64,
    now: u64,
)
    requires
        tidy(thread, first_id as int),
        0 <= start <= end <= thread.history.len(),
        first_id + thread.history.len() <= u64::MAX,
    ensures
        ({
            let next = replayed(thread, start, end, first_id, now);
            &&& proper(next.history) == proper(all_waiting(thread.history, start, end, now))
            &&& next.history.len() >= start
            &&& next.history.take(start) == thread.history.take(start)
        }),
{
    let marked = all_waiting(thread.history, start, end, now);
    let due = due_count(thread.history, thread.loaded_models, start, end);
    assert(same_marks(marked, thread.history));
    lemma_same_marks_keep(marked, thread.history, first_id as int);
    lemma_due_count_fits(thread.history, thread.loaded_models, start, end);
    assert(same_make(marked, thread.history, end));
    lemma_same_make_same_due(marked, thread.history, thread.loaded_models, start, end);
    lemma_with_loading_entries(
        marked,
        thread.loaded_models,
        start,
        end,
        first_id,
        now,
        first_id + due,
        thread.base_config,
    );
    assert(marked.take(start) =~= thread.history.take(start));
}

/// Replaying a part of a conversation neither adds nor loses nor moves anything
/// that was asked, and leaves what stands before that part as it is. What waits
/// then are the turns of the part, in their order.
pub proof fn replaying_keeps_what_was_asked(
    app: AppModel,
    start: int,
    end: int,
    now: u64,
)
    requires
        sound(app),
        app.has_room(),
        0 <= start <= end <= app.thread().history.len(),
    ensures
        ({
            let next = app.replay_queued(start, end, now).thread();
            &&& asked(next.history) == asked(app.thread().history)
            &&& next.history.take(start) == app.thread().history.take(start)
            &&& next.queue == turns_in(app.thread().history, start, end)
        }),
{
    let thread = app.thread();
    assert(app.threads[app.active as int] == thread);
    assert(tidy(thread, app.next_history_id as int));
    lemma_replayed_keeps(thread, start, end, app.next_history_id, now);
    lemma_waiting_asks_the_same(thread.history, start, end, now);
}

/// Editing a prompt changes that prompt alone among what was asked, and leaves
/// what stands before it as it is. The turn and all turns after it wait for their
/// answers, the edited one first.
pub proof fn editing_a_prompt_replays_the_rest(
    app: AppModel,
    at: int,
    prompt: Seq<char>,
    now: u64,
)
    requires
        sound(app),
        app.has_room(),
        0 <= at < app.thread().history.len(),
        app.thread().history[at].entry is Assistant,
    ensures
        ({
            let history = app.thread().history;
            let id = history[at].id;
            &&& app.prompt_edited(id, prompt, now) matches Some(edited) && {
                let next = edited.thread();
                &&& asked(next.history) == asked(history).map_values(
                    |item: ItemModel| prompt_set(item, id, prompt),
                )
                &&& next.history.take(at) == history.take(at)
                &&& next.queue == turns_in(history, at, history.len() as int)
                &&& next.queue.len() > 0 && next.queue[0].assistant_entry_id == id
            }
        }),
{
    let thread = app.thread();
    let history = thread.history;
    let id = history[at].id;
    let end = history.len() as int;
    assert(app.threads[app.active as int] == thread);
    assert(tidy(thread, app.next_history_id as int));
    entry_is_found_by_its_number(app, app.active as int, at);
    let change = |turn: TurnModel| TurnModel { prompt, ..turn_waiting(turn, now) };
    let changed = turn_changed(history, id, change);
    lemma_index_of_id(history, id);
    let edited = ThreadModel {
        history: changed,
        selected: Some(at as usize),
        queue: Seq::empty(),
        ..thread
    };
    lemma_thread_touched(app, app.active as int, edited);
    assert(tidy(
        app.with_active(edited).threads[app.active as int],
        app.next_history_id as int,
    ));
    lemma_replayed_keeps(edited, at, end, app.next_history_id, now);
    lemma_waiting_asks_the_same(changed, at, end, now);
    lemma_prompt_changes_one(history, id, prompt, now);
    assert(changed.take(at) =~= history.take(at));
    lemma_same_turns(changed, history, at, end);
    lemma_first_turn(history, at, end);
}

proof fn lemma_same_turns(a: Seq<ItemModel>, b: Seq<ItemModel>, start: int, end: int)
    requires
        0 <= start,
        end <= a.len(),
        same_marks(a, b),
    ensures
        turns_in(a, start, end) == turns_in(b, start, end),
    decreases end - start,
{
    if start < end {
        lemma_same_turns(a, b, start, end - 1);
        assert(a[end - 1].id == b[end - 1].id);
    }
}

proof fn lemma_first_turn(history: Seq<ItemModel>, start: int, end: int)
    requires
        0 <= start < end <= history.len(),
        history[start].entry is Assistant,
    ensures
        turns_in(history, start, end).len() > 0,
        turns_in(history, start, end)[0].assistant_entry_id == history[start].id,
    decreases end - start,
{
    reveal_with_fuel(turns_in, 2);
    if start + 1 < end {
        lemma_first_turn(history, start, end - 1);
    }
}

/// An edit can be taken back: after a prompt is edited to another and then to what
/// it was, what is asked is what was asked before.
pub proof fn edit_can_be_taken_back(
    app: AppModel,
    at: int,
    prompt: Seq<char>,
    now: u64,
    later: u64,
)
    requires
        sound(app),
        app.has_room(),
        0 <= at < app.thread().history.len(),
        app.thread().history[at].entry is Assistant,
        app.prompt_edited(app.thread().history[at].id, prompt, now)->0.has_room(),
    ensures
        ({
            let item = app.thread().history[at];
            let was = item.entry->Assistant_0.prompt;
            &&& app.prompt_edited(item.id, prompt, now) matches Some(edited)
            &&& edited.prompt_edited(item.id, was, later) matches Some(back)
            &&& asked(back.thread().history) == asked(app.thread().history)
        }),
{
    let history = app.thread().history;
    let item = history[at];
    let id = item.id;
    let was = item.entry->Assistant_0.prompt;
    assert(app.threads[app.active as int] == app.thread());
    assert(tidy(app.thread(), app.next_history_id as int));
    editing_a_prompt_replays_the_rest(app, at, prompt, now);
    lemma_prompt_edited(app, id, prompt, now);
    let edited = app.prompt_edited(id, prompt, now).unwrap();
    let next = edited.thread().history;
    assert(edited.threads[edited.active as int] == edited.thread());
    assert(tidy(edited.thread(), edited.next_history_id as int));
    // The edited turn is still there.
    let first = |item: ItemModel| prompt_set(item, id, prompt);
    let second = |item: ItemModel| prompt_set(item, id, was);
    lemma_asked_holds(history, at);
    let place = choose|k: int|
        0 <= k < asked(history).len() && asked(history)[k] == unanswered(history[at]);
    assert(asked(next)[place] == first(unanswered(history[at])));
    let here = lemma_asked_comes_from(next, place);
    assert(next[here].id == id);
    entry_is_found_by_its_number(edited, edited.active as int, here);
    editing_a_prompt_replays_the_rest(edited, here, was, later);
    let back = edited.prompt_edited(id, was, later).unwrap();
    assert(asked(back.thread().history) =~= asked(history)) by {
        assert forall|k: int| 0 <= k < asked(history).len() implies second(
            first(#[trigger] asked(history)[k]),
        ) == asked(history)[k] by {
            let from = lemma_asked_comes_from(history, k);
            if asked(history)[k].id == id && from != at {
                if from < at {
                    assert(history[from].id != history[at].id);
                } else {
                    assert(history[at].id != history[from].id);
                }
            }
        }
    }
}

/// Every entry but those on loading is among what was asked.
proof fn lemma_asked_holds(history: Seq<ItemModel>, at: int)
    requires
        0 <= at < history.len(),
        !(history[at].entry is LoadingModel),
    ensures
        exists|k: int|
            0 <= k < asked(history).len() && #[trigger] asked(history)[k] == unanswered(
                history[at],
            ),
    decreases history.len(),
{
    reveal(Seq::filter);
    let front = history.drop_last();
    if at == history.len() - 1 {
        let k = asked(history).len() - 1;
        assert(asked(history)[k] == unanswered(history[at]));
    } else {
        lemma_asked_holds(front, at);
        let k = choose|k: int|
            0 <= k < asked(front).len() && #[trigger] asked(front)[k] == unanswered(front[at]);
        assert(asked(history)[k] == asked(front)[k]);
    }
}

/// What was asked stands in the conversation.
proof fn lemma_asked_comes_from(history: Seq<ItemModel>, k: int) -> (at: int)
    requires
        0 <= k < asked(history).len(),
    ensures
        0 <= at < history.len(),
        asked(history)[k] == unanswered(history[at]),
        !(history[at].entry is LoadingModel),
    decreases history.len(),
{
    reveal(Seq::filter);
    if history.len() == 0 {
        assert(false);
        0
    } else {
        let front = history.drop_last();
        if k < asked(front).len() {
            let at = lemma_asked_comes_from(front, k);
            assert(asked(history)[k] == asked(front)[k]);
            at
        } else {
            history.len() - 1
        }
    }
}

/// Sending a turn to its model changes nothing that was asked.
proof fn lemma_started_asks_the_same(app: AppModel, tools: Seq<ToolView>, now: u64)
    requires
        sound(app),
    ensures
        asked(app.active_job_started(tools, now).0.thread().history) == asked(
            app.thread().history,
        ),
{
    conversation_is_found_by_its_tab(app, app.active as int);
    let thread = app.thread();
    if thread.queue.len() > 0 && !thread.running_job {
        if let Ok(turn) = request_for(thread, thread.queue[0].assistant_entry_id, tools) {
            lemma_loading_set_proper(
                thread.history,
                turn.config.model_id,
                ModelLoadStatus::Loading { started_at: now },
            );
        }
    }
}

/// Deleting a prompt, a command or a break takes it, and nothing else, out of what
/// was asked.
pub proof fn deleting_takes_out_one(app: AppModel, at: int, tools: Seq<ToolView>, now: u64)
    requires
        sound(app),
        app.has_room(),
        0 <= at < app.thread().history.len(),
        !(app.thread().history[at].entry is LoadingModel),
    ensures
        asked(
            app.entry_deleted(app.thread().history[at].id, tools, now).0.thread().history,
        ) == asked(app.thread().history.remove(at)),
{
    let thread = app.thread();
    let history = thread.history;
    assert(app.threads[app.active as int] == thread);
    assert(tidy(thread, app.next_history_id as int));
    entry_is_found_by_its_number(app, app.active as int, at);
    let loading = at + 1 < history.len() && history[at + 1].entry is LoadingModel;
    let without_loading = if loading {
        history.remove(at + 1)
    } else {
        history
    };
    let shorter = without_loading.remove(at);
    if loading {
        lemma_remove_keeps(history, at + 1, app.next_history_id as int);
        lemma_insert_loading_proper(shorter, at, history[at + 1]);
        assert(shorter.insert(at, history[at + 1]) =~= history.remove(at));
    }
    lemma_remove_keeps(without_loading, at, app.next_history_id as int);
    lemma_history_replaced(app, shorter);
    let fewer = app.with_active(reconfigured(with_history(thread, shorter)));
    let end = shorter.len() as int;
    if !(history[at].entry is SystemNotice) {
        lemma_replayed_keeps(fewer.thread(), at, end, fewer.next_history_id, now);
        lemma_waiting_asks_the_same(shorter, at, end, now);
        lemma_replay_queued(fewer, at, end, now);
        lemma_started_asks_the_same(fewer.replay_queued(at, end, now), tools, now);
    }
}

/// After a command was edited, the turns that it counts for wait for their
/// answers: those up to the next command of its family. All that was asked stays,
/// and what stands before the command or is out of its reach keeps its answers.
pub proof fn edited_command_replays_its_reach(app: AppModel, at: int, kind: KindModel, now: u64)
    requires
        sound(app),
        app.has_room(),
        0 <= at < app.thread().history.len(),
        next_of_family(app.thread().history, at + 1, kind.family()) matches Some(next)
            ==> app.thread().history[next].meta != MetaModel::Command(kind),
    ensures
        ({
            let history = app.thread().history;
            let reach = match next_of_family(history, at + 1, kind.family()) {
                Some(next) => next,
                None => history.len() as int,
            };
            let next = app.command_replayed(at, kind, now).thread();
            &&& at < reach <= history.len()
            &&& proper(next.history) == proper(all_waiting(history, at + 1, reach, now))
            &&& asked(next.history) == asked(history)
            &&& next.queue == turns_in(history, at + 1, reach)
        }),
{
    let thread = app.thread();
    let history = thread.history;
    assert(app.threads[app.active as int] == thread);
    assert(tidy(thread, app.next_history_id as int));
    lemma_next_of_family(history, at + 1, kind.family());
    let reach = match next_of_family(history, at + 1, kind.family()) {
        Some(next) => next,
        None => history.len() as int,
    };
    lemma_replayed_keeps(reconfigured(thread), at + 1, reach, app.next_history_id, now);
    lemma_waiting_asks_the_same(history, at + 1, reach, now);
}

/// Where the next command of the family says the same as the edited one, it goes,
/// and nothing else of what was asked.
pub proof fn repeated_command_goes(
    app: AppModel,
    at: int,
    kind: KindModel,
    next: int,
    now: u64,
)
    requires
        sound(app),
        app.has_room(),
        0 <= at < app.thread().history.len(),
        next_of_family(app.thread().history, at + 1, kind.family()) == Some(next),
        app.thread().history[next].meta == MetaModel::Command(kind),
    ensures
        at < next < app.thread().history.len(),
        asked(app.command_replayed(at, kind, now).thread().history) == asked(
            app.thread().history.remove(next),
        ),
{
    let thread = app.thread();
    let history = thread.history;
    assert(app.threads[app.active as int] == thread);
    assert(tidy(thread, app.next_history_id as int));
    lemma_next_of_family(history, at + 1, kind.family());
    let fewer = history.remove(next);
    lemma_remove_keeps(history, next, app.next_history_id as int);
    lemma_history_replaced(app, fewer);
    let shorter = reconfigured(with_history(thread, fewer));
    assert(tidy(
        app.with_active(shorter).threads[app.active as int],
        app.next_history_id as int,
    ));
    let end = fewer.len() as int;
    lemma_replayed_keeps(shorter, at + 1, end, app.next_history_id, now);
    lemma_waiting_asks_the_same(fewer, at + 1, end, now);
}

/// A command that is begun beside the selected entry and given up leaves the
/// conversations as they were.
pub proof fn given_up_command_leaves_no_trace(app: AppModel, position: InlinePosition)
    requires
        sound(app),
        app.settled(),
        app.thread().selected is Some,
        app.next_history_id < u64::MAX,
    ensures
        app.inline_command_opened(position).inline_command_cancelled().threads == app.threads,
        app.inline_command_opened(position).inline_command_cancelled().active == app.active,
{
    let thread = app.thread();
    let selected = thread.selected.unwrap();
    let at = match position {
        InlinePosition::Before => selected as int,
        InlinePosition::After => selected + 1,
    };
    assert(tidy(thread, app.next_history_id as int));
    let opened = app.inline_command_opened(position);
    let placed = opened.thread();
    let id = app.next_history_id;
    lemma_index_of_id(placed.history, id);
    assert(placed.history[at].id == id);
    assert forall|i: int| 0 <= i < at implies (#[trigger] placed.history[i]).id != id by {
        assert(placed.history[i] == thread.history[i]);
    }
    assert(index_of_id(placed.history, id) == Some(at));
    assert(placed.history.remove(at) =~= thread.history);
    let back = opened.inline_command_cancelled();
    assert(back.thread() =~= thread);
    assert(back.threads =~= app.threads);
}

/// The program after `steps` moves to the next conversation.
pub open spec fn tabs_cycled(app: AppModel, steps: nat) -> AppModel
    decreases steps,
{
    if steps == 0 {
        app
    } else {
        tabs_cycled(app, (steps - 1) as nat).cycled(1)
    }
}

/// Moving to the next conversation visits all of them in turn, and is back after
/// as many moves as there are conversations. Nothing but what counts as seen
/// changes.
pub proof fn cycling_visits_every_tab(app: AppModel, steps: nat)
    requires
        app.wf(),
    ensures
        tabs_cycled(app, steps).active == (app.active + steps) % (app.threads.len() as int),
        tabs_cycled(app, steps).threads.len() == app.threads.len(),
        steps == app.threads.len() ==> tabs_cycled(app, steps).active == app.active,
        forall|i: int|
            0 <= i < app.threads.len() ==> (#[trigger] tabs_cycled(app, steps).threads[i] == (
            ThreadModel {
                has_unseen_changes: tabs_cycled(app, steps).threads[i].has_unseen_changes,
                ..app.threads[i]
            })),
    decreases steps,
{
    let count = app.threads.len() as int;
    if steps == 0 {
        vstd::arithmetic::div_mod::lemma_small_mod(app.active as nat, count as nat);
    } else {
        let before = tabs_cycled(app, (steps - 1) as nat);
        cycling_visits_every_tab(app, (steps - 1) as nat);
        vstd::arithmetic::div_mod::lemma_add_mod_noop(app.active + steps - 1, 1, count);
        vstd::arithmetic::div_mod::lemma_mod_bound(before.active + 1, count);
        if count == 1 {
            assert((before.active + 1) % count == (app.active + steps) % count) by {
                vstd::arithmetic::div_mod::lemma_mod_multiples_basic(before.active + 1, 1);
                vstd::arithmetic::div_mod::lemma_mod_multiples_basic(app.active + steps, 1);
            }
        } else {
            vstd::arithmetic::div_mod::lemma_small_mod(1, count as nat);
        }
        if steps == count {
            vstd::arithmetic::div_mod::lemma_mod_add_multiples_vanish(app.active as int, count);
            vstd::arithmetic::div_mod::lemma_small_mod(app.active as nat, count as nat);
        }
    }
}

/// Moving to the next conversation and back shows the same one.
pub proof fn cycling_back_returns(app: AppModel)
    requires
        app.wf(),
    ensures
        app.cycled(1).cycled(-1).active == app.active,
        app.cycled(-1).cycled(1).active == app.active,
{
    let count = app.threads.len() as int;
    let active = app.active as int;
    vstd::arithmetic::div_mod::lemma_mod_bound(active + 1, count);
    vstd::arithmetic::div_mod::lemma_mod_bound(active - 1, count);
    if active + 1 < count {
        vstd::arithmetic::div_mod::lemma_small_mod((active + 1) as nat, count as nat);
        vstd::arithmetic::div_mod::lemma_small_mod(active as nat, count as nat);
    } else {
        vstd::arithmetic::div_mod::lemma_mod_self_0(count);
        vstd::arithmetic::div_mod::lemma_mod_add_multiples_vanish(-1, count);
        vstd::arithmetic::div_mod::lemma_small_mod((count - 1) as nat, count as nat);
    }
    if active > 0 {
        vstd::arithmetic::div_mod::lemma_small_mod((active - 1) as nat, count as nat);
        vstd::arithmetic::div_mod::lemma_small_mod(active as nat, count as nat);
    } else {
        vstd::arithmetic::div_mod::lemma_mod_add_multiples_vanish(-1, count);
        vstd::arithmetic::div_mod::lemma_small_mod((count - 1) as nat, count as nat);
        vstd::arithmetic::div_mod::lemma_mod_self_0(count);
    }
}

/// Something that is heard of a turn in a conversation that is not shown marks it,
/// an error too; in the one that is shown nothing is marked. Other conversations
/// stay as they are, and the same one is shown.
pub proof fn news_elsewhere_is_marked(
    app: AppModel,
    event: JobModel,
    tools: Seq<ToolView>,
    now: u64,
    at: int,
)
    requires
        app.wf(),
        app.index_of_tab(event.tab_id()) == Some(at),
    ensures
        ({
            let next = app.job_heard(event, tools, now).0;
            &&& next.active == app.active
            &&& next.threads.len() == app.threads.len()
            &&& at != app.active ==> next.threads[at].has_unseen_changes
            &&& at == app.active ==> next.threads[at].has_unseen_changes
                == app.threads[at].has_unseen_changes
            &&& forall|i: int|
                0 <= i < app.threads.len() && i != at ==> #[trigger] next.threads[i]
                    == app.threads[i]
        }),
{
    lemma_index_of_tab(app.threads, event.tab_id());
}

/// What is shown counts as seen.
pub proof fn shown_conversation_counts_as_seen(app: AppModel, index: int)
    requires
        app.wf(),
        0 <= index < app.threads.len(),
    ensures
        app.activated(index).active == index,
        !app.activated(index).thread().has_unseen_changes,
{
}

proof fn lemma_job_start_keeps_shown(app: AppModel, tools: Seq<ToolView>, now: u64)
    requires
        app.active < app.threads.len(),
    ensures
        app.active_job_started(tools, now).0.active == app.active,
        app.active_job_started(tools, now).0.threads.len() == app.threads.len(),
{
    lemma_index_of_tab(app.threads, app.thread().tab_id);
}

proof fn lemma_command_keeps_shown(
    app: AppModel,
    entry: EntryModel,
    kind: KindModel,
    replay_affecting: bool,
    tools: Seq<ToolView>,
    now: u64,
)
    requires
        app.active < app.threads.len(),
    ensures
        app.command_entered(entry, kind, replay_affecting, tools, now).0.active == app.active,
        app.command_entered(entry, kind, replay_affecting, tools, now).0.threads.len()
            == app.threads.len(),
{
    if let Some(id) = app.command_edit_target {
        let history = entry_replaced(app.thread().history, id, entry, MetaModel::Command(kind));
        let edited = reconfigured(with_history(app.thread(), history));
        let changed = AppModel { command_edit_target: None, ..app }.with_active(edited);
        if let Some(at) = index_of_id(edited.history, id) {
            if replay_affecting {
                lemma_job_start_keeps_shown(changed.command_replayed(at, kind, now), tools, now);
            }
        }
    }
}

proof fn lemma_break_keeps_shown(app: AppModel, tools: Seq<ToolView>, now: u64)
    requires
        app.active < app.threads.len(),
    ensures
        app.break_entered(tools, now).0.active == app.active,
        app.break_entered(tools, now).0.threads.len() == app.threads.len(),
{
    if let Some(id) = app.command_edit_target {
        let history = entry_replaced(
            app.thread().history,
            id,
            EntryModel::Break,
            MetaModel::Plain,
        );
        let edited = reconfigured(with_history(app.thread(), history));
        let changed = AppModel { command_edit_target: None, ..app }.with_active(edited);
        if let Some(at) = index_of_id(edited.history, id) {
            lemma_job_start_keeps_shown(
                changed.replay_queued(at, edited.history.len() as int, now),
                tools,
                now,
            );
        }
    }
}

/// Whatever a command does, there is a conversation, and one of them is shown.
pub proof fn commands_leave_a_conversation_shown(
    app: AppModel,
    dispatch: DispatchView,
    configs: Seq<ConfigView>,
    tools: Seq<ToolView>,
    now: u64,
)
    requires
        app.wf(),
    ensures
        ({
            let next = app.executed(dispatch, configs, tools, now).0;
            0 <= next.active < next.threads.len()
        }),
{
    match dispatch {
        DispatchView::ListModels => lemma_command_keeps_shown(
            app,
            EntryModel::Command { raw: "model ls"@, result: lines_joined(config_ids(configs)) },
            KindModel::ModelList,
            false,
            tools,
            now,
        ),
        DispatchView::SwitchModel(model_id) => lemma_command_keeps_shown(
            app,
            EntryModel::Command {
                raw: "model "@ + model_id,
                result: "active model: "@ + model_id,
            },
            KindModel::Model(model_id),
            true,
            tools,
            now,
        ),
        DispatchView::SetToolsEnabled(enabled) => lemma_command_keeps_shown(
            app,
            if enabled {
                EntryModel::Command {
                    raw: "tools enable"@,
                    result: "tools prompt is now enabled"@,
                }
            } else {
                EntryModel::Command {
                    raw: "tools disable"@,
                    result: "tools prompt is now disabled"@,
                }
            },
            KindModel::Tools(enabled),
            true,
            tools,
            now,
        ),
        DispatchView::Break => lemma_break_keeps_shown(app, tools, now),
        DispatchView::ActivateTab(target) => lemma_target_index(app.threads, target),
        DispatchView::RenameTab { target, .. } => lemma_target_index(app.threads, target),
        DispatchView::KillTab(target) => lemma_target_index(app.threads, target),
        _ => {},
    }
}

/// The last conversation cannot be closed: it stays, and the command line says why.
pub proof fn last_tab_is_not_closed(
    app: AppModel,
    target: TargetView,
    configs: Seq<ConfigView>,
    tools: Seq<ToolView>,
    now: u64,
)
    requires
        app.threads.len() == 1,
    ensures
        ({
            let (next, effect) = app.executed(DispatchView::KillTab(target), configs, tools, now);
            &&& next.threads == app.threads
            &&& next.active == app.active
            &&& next.palette.error == Some("cannot kill the final remaining tab"@)
            &&& effect == EffectModel::Continue
        }),
{
}

/// Closing a conversation takes it out, and its connections are closed. The others
/// keep their order and their entries. The one that then stands where the one that
/// was shown did is shown, or the last one.
pub proof fn closed_tab_goes_alone(
    app: AppModel,
    target: TargetView,
    at: int,
    configs: Seq<ConfigView>,
    tools: Seq<ToolView>,
    now: u64,
)
    requires
        app.wf(),
        app.threads.len() > 1,
        target_index(app.threads, target) == Some(at),
    ensures
        ({
            let (next, effect) = app.executed(DispatchView::KillTab(target), configs, tools, now);
            let rest = app.threads.remove(at);
            &&& effect == EffectModel::CloseConnections { tab_id: app.threads[at].tab_id }
            &&& next.threads.len() == rest.len()
            &&& next.active == if app.active < rest.len() {
                app.active as int
            } else {
                rest.len() - 1
            }
            &&& forall|i: int|
                0 <= i < rest.len() && i != next.active ==> #[trigger] next.threads[i] == rest[i]
            &&& next.thread().tab_id == rest[next.active as int].tab_id
            &&& next.thread().history == rest[next.active as int].history
        }),
{
    lemma_target_index(app.threads, target);
}

} // verus!
