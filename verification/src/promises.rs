//! What becomes of the turns of a conversation when something in it changes.

use vstd::prelude::*;

use crate::agent::ToolView;
use crate::app_model::{AppModel, EffectModel, PurposeModel};
use crate::history::{AssistantStatus, EntryModel, ItemModel, ModelLoadStatus, TurnModel};
use crate::replay::{
    all_waiting, due_count, lemma_due_count_fits, lemma_same_make_same_due, loading_begun,
    loading_due, replayed, same_make, turn_waiting, turns_in, with_loading_entries,
};
use crate::request::request_for;
use crate::thread::{
    is_loading_of, last_loading, lemma_index_of_id, loading_item, loading_set, reconfigured,
    turn_changed, with_history, ComposeTarget, ThreadJob, ThreadModel,
};
use crate::upkeep::{
    conversation_is_found_by_its_tab, entry_is_found_by_its_number, lemma_history_replaced,
    lemma_loading_set_proper, lemma_remove_keeps, lemma_replay_queued, lemma_same_marks_keep,
    lemma_thread_touched, lemma_with_loading_entries, proper, same_marks, sound, tidy,
};

verus! {

/// The numbers of the turns among entries, in the order of the entries.
pub open spec fn turn_numbers(entries: Seq<ItemModel>) -> Seq<u64> {
    entries.filter(|item: ItemModel| item.entry is Assistant).map_values(|item: ItemModel| item.id)
}

/// The numbers of the turns that wait, the next one first.
pub open spec fn queued_numbers(thread: ThreadModel) -> Seq<u64> {
    thread.queue.map_values(|job: ThreadJob| job.assistant_entry_id)
}

/// The number of the turn that is sent to its model, at once or once it is connected.
pub open spec fn sent_number(effect: EffectModel) -> Seq<u64> {
    match effect {
        EffectModel::StartStream { job, .. } => seq![job.assistant_entry_id],
        EffectModel::OpenConnection { purpose: PurposeModel::RunJob { job, .. }, .. } => seq![
            job.assistant_entry_id,
        ],
        _ => Seq::empty(),
    }
}

/// A turn is still there, with its prompt and its model, without any answer, and waits
/// since a time.
pub open spec fn waits_anew(history: Seq<ItemModel>, item: ItemModel, since: u64) -> bool {
    exists|k: int|
        0 <= k < history.len() && (#[trigger] history[k]).id == item.id && history[k].meta
            == item.meta && (history[k].entry matches EntryModel::Assistant(turn) && {
            &&& turn.prompt == item.entry->Assistant_0.prompt
            &&& turn.model_id == item.entry->Assistant_0.model_id
            &&& turn.blocks.len() == 0
            &&& turn.callouts.len() == 0
            &&& turn.status == Some(AssistantStatus::Queued { started_at: since })
            &&& turn.sequence_number is None
        })
}

/// What is said to wait is what waits or was just sent: all of the turns, in order, and
/// no others. The first one was sent, unless another one runs. Where it could not be
/// asked for, the program ends, and the first one is gone.
pub open spec fn waits_or_was_sent(
    thread: ThreadModel,
    effect: EffectModel,
    ran: bool,
    numbers: Seq<u64>,
) -> bool {
    if ran || numbers.len() == 0 {
        &&& sent_number(effect).len() == 0
        &&& queued_numbers(thread) == numbers
        &&& !(effect is Fail)
    } else {
        &&& queued_numbers(thread) == numbers.drop_first()
        &&& effect is Fail || sent_number(effect) == seq![numbers[0]]
    }
}

/// One entry more is one turn more, where it is one.
pub(crate) proof fn lemma_turn_numbers_of_more(entries: Seq<ItemModel>)
    requires
        entries.len() > 0,
    ensures
        turn_numbers(entries) == if entries.last().entry is Assistant {
            turn_numbers(entries.drop_last()).push(entries.last().id)
        } else {
            turn_numbers(entries.drop_last())
        },
{
    reveal(Seq::filter);
    let is_turn = |item: ItemModel| item.entry is Assistant;
    let number = |item: ItemModel| item.id;
    let before = entries.drop_last().filter(is_turn);
    if entries.last().entry is Assistant {
        assert(entries.filter(is_turn) == before.push(entries.last()));
        assert(before.push(entries.last()).map_values(number) =~= before.map_values(number).push(
            entries.last().id,
        ));
    } else {
        assert(entries.filter(is_turn) == before);
    }
}

proof fn lemma_turn_numbers(history: Seq<ItemModel>, start: int, end: int)
    requires
        0 <= start <= end <= history.len(),
    ensures
        turns_in(history, start, end).map_values(|job: ThreadJob| job.assistant_entry_id)
            == turn_numbers(history.subrange(start, end)),
    decreases end - start,
{
    reveal(Seq::filter);
    let part = history.subrange(start, end);
    let number = |job: ThreadJob| job.assistant_entry_id;
    if start < end {
        lemma_turn_numbers(history, start, end - 1);
        lemma_turn_numbers_of_more(part);
        assert(part.drop_last() =~= history.subrange(start, end - 1));
        assert(turns_in(history, start, end).map_values(number) =~= turn_numbers(part));
    } else {
        assert(turns_in(history, start, end).map_values(number) =~= turn_numbers(part));
    }
}

/// An entry that is not on loading stands among the proper ones.
proof fn lemma_proper_holds(history: Seq<ItemModel>, at: int)
    requires
        0 <= at < history.len(),
        !(history[at].entry is LoadingModel),
    ensures
        proper(history).contains(history[at]),
{
    history.lemma_filter_contains(|item: ItemModel| !(item.entry is LoadingModel), at);
}

/// What stands among the proper entries stands among all.
proof fn lemma_proper_comes_from(history: Seq<ItemModel>, item: ItemModel) -> (at: int)
    requires
        proper(history).contains(item),
    ensures
        0 <= at < history.len(),
        history[at] == item,
{
    history.lemma_filter_contains_rev(|item: ItemModel| !(item.entry is LoadingModel), item);
    choose|at: int| 0 <= at < history.len() && history[at] == item
}

/// What replaying a range of a tidy conversation does.
proof fn lemma_replayed(thread: ThreadModel, start: int, end: int, first_id: u64, now: u64)
    requires
        tidy(thread, first_id as int),
        0 <= start <= end <= thread.history.len(),
        first_id + thread.history.len() <= u64::MAX,
    ensures
        ({
            let next = replayed(thread, start, end, first_id, now);
            &&& proper(next.history) == proper(all_waiting(thread.history, start, end, now))
            &&& next.history.len() >= start
            &&& next.history.take(start) == thread.history.take(start)
        }),
{
    let marked = all_waiting(thread.history, start, end, now);
    let due = due_count(thread.history, thread.loaded_models, start, end);
    assert(same_marks(marked, thread.history));
    lemma_same_marks_keep(marked, thread.history, first_id as int);
    lemma_due_count_fits(thread.history, thread.loaded_models, start, end);
    assert(same_make(marked, thread.history, end));
    lemma_same_make_same_due(marked, thread.history, thread.loaded_models, start, end);
    lemma_with_loading_entries(
        marked,
        thread.loaded_models,
        start,
        end,
        first_id,
        now,
        first_id + due,
        thread.base_config,
    );
    assert(marked.take(start) =~= thread.history.take(start));
}

/// Which turns wait and which entries stay after a range of a conversation is answered
/// anew.
pub open spec fn answered_anew(
    next: Seq<ItemModel>,
    history: Seq<ItemModel>,
    start: int,
    end: int,
    now: u64,
) -> bool {
    &&& forall|i: int|
        start <= i < end && (#[trigger] history[i]).entry is Assistant ==> waits_anew(
            next,
            history[i],
            now,
        )
    &&& forall|i: int|
        0 <= i < history.len() && !(start <= i < end && history[i].entry is Assistant) && !((
        #[trigger] history[i]).entry is LoadingModel) ==> next.contains(history[i])
    &&& forall|i: int|
        0 <= i < start && !((#[trigger] history[i]).entry is LoadingModel) ==> i < next.len()
            && next[i] == history[i]
}

proof fn lemma_answered_anew(
    next: Seq<ItemModel>,
    history: Seq<ItemModel>,
    start: int,
    end: int,
    now: u64,
)
    requires
        0 <= start <= end <= history.len(),
        proper(next) == proper(all_waiting(history, start, end, now)),
        next.len() >= start,
        forall|i: int|
            0 <= i < start && !((#[trigger] history[i]).entry is LoadingModel) ==> next[i]
                == history[i],
    ensures
        answered_anew(next, history, start, end, now),
{
    let marked = all_waiting(history, start, end, now);
    assert forall|i: int|
        start <= i < end && (#[trigger] history[i]).entry is Assistant implies waits_anew(
        next,
        history[i],
        now,
    ) by {
        lemma_proper_holds(marked, i);
        let k = lemma_proper_comes_from(next, marked[i]);
        assert(next[k].id == history[i].id);
    }
    assert forall|i: int|
        0 <= i < history.len() && !(start <= i < end && history[i].entry is Assistant) && !((
        #[trigger] history[i]).entry is LoadingModel) implies next.contains(history[i]) by {
        assert(marked[i] == history[i]);
        lemma_proper_holds(marked, i);
        let k = lemma_proper_comes_from(next, marked[i]);
        assert(next[k] == history[i]);
    }
}

/// Where a range of a conversation is answered anew, every turn of it loses its answer
/// and waits, and the queue holds these turns, in their order, and no others. All other
/// entries stay; those before the range also keep their places.
pub proof fn replayed_turns_wait_in_order(app: AppModel, start: int, end: int, now: u64)
    requires
        sound(app),
        app.has_room(),
        0 <= start <= end <= app.thread().history.len(),
    ensures
        ({
            let thread = app.thread();
            let next = app.replay_queued(start, end, now).thread();
            &&& queued_numbers(next) == turn_numbers(thread.history.subrange(start, end))
            &&& answered_anew(next.history, thread.history, start, end, now)
        }),
{
    let thread = app.thread();
    assert(app.threads[app.active as int] == thread);
    assert(tidy(thread, app.next_history_id as int));
    lemma_replayed(thread, start, end, app.next_history_id, now);
    let next = app.replay_queued(start, end, now).thread();
    assert forall|i: int|
        0 <= i < start && !((#[trigger] thread.history[i]).entry is LoadingModel) implies
    next.history[i] == thread.history[i] by {
        assert(next.history.take(start)[i] == thread.history.take(start)[i]);
    }
    lemma_answered_anew(next.history, thread.history, start, end, now);
    lemma_turn_numbers(thread.history, start, end);
}

/// Sending a turn changes no entry but those on loading.
pub(crate) proof fn lemma_loading_set_touches_loading_only(
    history: Seq<ItemModel>,
    model_id: Seq<char>,
    status: ModelLoadStatus,
)
    ensures
        ({
            let next = loading_set(history, model_id, status);
            &&& next.len() == history.len()
            &&& forall|i: int|
                0 <= i < history.len() && !((#[trigger] history[i]).entry is LoadingModel)
                    ==> next[i] == history[i]
            &&& forall|i: int|
                0 <= i < history.len() ==> #[trigger] next[i] == history[i]
                    || next[i].entry is LoadingModel && history[i].entry is LoadingModel
                    && next[i].id == history[i].id && next[i].meta == history[i].meta
        }),
    decreases history.len(),
{
    lemma_last_loading_is_on_loading(history, model_id);
}

proof fn lemma_last_loading_is_on_loading(history: Seq<ItemModel>, model_id: Seq<char>)
    ensures
        last_loading(history, model_id) matches Some(at) ==> 0 <= at < history.len()
            && is_loading_of(history[at], model_id),
    decreases history.len(),
{
    if history.len() > 0 {
        lemma_last_loading_is_on_loading(history.drop_last(), model_id);
    }
}

/// The first turn that waits in the conversation that is shown is sent, unless one runs.
pub(crate) proof fn lemma_first_is_sent(app: AppModel, tools: Seq<ToolView>, now: u64)
    requires
        sound(app),
    ensures
        ({
            let (next, effect) = app.active_job_started(tools, now);
            let thread = app.thread();
            &&& next.active == app.active
            &&& next.threads.len() == app.threads.len()
            &&& waits_or_was_sent(
                next.thread(),
                effect,
                thread.running_job,
                queued_numbers(thread),
            )
            &&& proper(next.thread().history) == proper(thread.history)
            &&& next.thread().history.len() == thread.history.len()
            &&& forall|i: int|
                0 <= i < thread.history.len() && !((
                #[trigger] thread.history[i]).entry is LoadingModel)
                    ==> next.thread().history[i] == thread.history[i]
        }),
{
    conversation_is_found_by_its_tab(app, app.active as int);
    let (next, effect) = app.active_job_started(tools, now);
    let thread = app.thread();
    if thread.queue.len() > 0 && !thread.running_job {
        let job = thread.queue[0];
        assert(queued_numbers(thread)[0] == job.assistant_entry_id);
        assert(queued_numbers(next.thread()) =~= queued_numbers(thread).drop_first());
        if let Ok(turn) = request_for(thread, job.assistant_entry_id, tools) {
            let status = ModelLoadStatus::Loading { started_at: now };
            lemma_loading_set_proper(thread.history, turn.config.model_id, status);
            lemma_loading_set_touches_loading_only(thread.history, turn.config.model_id, status);
        }
    } else {
        assert(queued_numbers(thread).len() == thread.queue.len());
    }
}

/// Sending a turn after a range was queued keeps what waits.
pub(crate) proof fn lemma_replayed_and_sent(
    app: AppModel,
    start: int,
    end: int,
    tools: Seq<ToolView>,
    now: u64,
)
    requires
        sound(app),
        app.has_room(),
        0 <= start <= end <= app.thread().history.len(),
    ensures
        ({
            let thread = app.thread();
            let (next, effect) = app.replay_queued(start, end, now).active_job_started(tools, now);
            &&& next.active == app.active
            &&& next.threads.len() == app.threads.len()
            &&& waits_or_was_sent(
                next.thread(),
                effect,
                thread.running_job,
                turn_numbers(thread.history.subrange(start, end)),
            )
            &&& answered_anew(next.thread().history, thread.history, start, end, now)
        }),
{
    let thread = app.thread();
    assert(app.threads[app.active as int] == thread);
    assert(tidy(thread, app.next_history_id as int));
    let queued = app.replay_queued(start, end, now);
    replayed_turns_wait_in_order(app, start, end, now);
    lemma_replayed(thread, start, end, app.next_history_id, now);
    lemma_replay_queued(app, start, end, now);
    lemma_first_is_sent(queued, tools, now);
    let next = queued.active_job_started(tools, now).0.thread();
    assert forall|i: int|
        0 <= i < start && !((#[trigger] thread.history[i]).entry is LoadingModel) implies
    next.history[i] == thread.history[i] by {
        assert(queued.thread().history[i] == thread.history[i]);
    }
    lemma_answered_anew(next.history, thread.history, start, end, now);
}

/// Deleting a prompt, a command or a break has every turn that stood behind it answered
/// anew: these turns lose their answers and wait, in their order, and no others do; the
/// first of them is sent at once, unless another one runs. What stood before stays.
pub proof fn deleting_answers_the_rest_anew(app: AppModel, at: int, tools: Seq<ToolView>, now: u64)
    requires
        sound(app),
        app.has_room(),
        0 <= at < app.thread().history.len(),
        app.thread().history[at].entry is Assistant || app.thread().history[at].entry is Command
            || app.thread().history[at].entry is Break,
    ensures
        ({
            let thread = app.thread();
            let history = thread.history;
            let (next, effect) = app.entry_deleted(history[at].id, tools, now);
            &&& waits_or_was_sent(
                next.thread(),
                effect,
                thread.running_job,
                turn_numbers(history.skip(at + 1)),
            )
            &&& forall|i: int|
                at < i < history.len() && (#[trigger] history[i]).entry is Assistant ==> waits_anew(
                    next.thread().history,
                    history[i],
                    now,
                )
            &&& forall|i: int|
                0 <= i < at && !((#[trigger] history[i]).entry is LoadingModel) ==> i
                    < next.thread().history.len() && next.thread().history[i] == history[i]
            &&& forall|i: int|
                at < i < history.len() && !((#[trigger] history[i]).entry is LoadingModel)
                    && !(history[i].entry is Assistant) ==> next.thread().history.contains(
                    history[i],
                )
        }),
{
    let thread = app.thread();
    let history = thread.history;
    assert(app.threads[app.active as int] == thread);
    assert(tidy(thread, app.next_history_id as int));
    entry_is_found_by_its_number(app, app.active as int, at);
    let loading = at + 1 < history.len() && history[at + 1].entry is LoadingModel;
    let without_loading = if loading {
        lemma_remove_keeps(history, at + 1, app.next_history_id as int);
        history.remove(at + 1)
    } else {
        history
    };
    let shorter = without_loading.remove(at);
    let gone = if loading {
        2int
    } else {
        1
    };
    lemma_remove_keeps(without_loading, at, app.next_history_id as int);
    lemma_history_replaced(app, shorter);
    let fewer = app.with_active(reconfigured(with_history(thread, shorter)));
    let end = shorter.len() as int;
    assert forall|i: int| 0 <= i < fewer.threads.len() implies fewer.next_history_id + (
    #[trigger] fewer.threads[i]).history.len() + 4 <= u64::MAX by {
        assert(app.next_history_id + app.threads[i].history.len() + 4 <= u64::MAX);
    }
    lemma_replayed_and_sent(fewer, at, end, tools, now);
    let rest = history.skip(at + 1);
    let left = shorter.subrange(at, end);
    if loading {
        assert(rest =~= seq![history[at + 1]] + left);
        lemma_loading_is_no_turn(history[at + 1], left);
    } else {
        assert(rest =~= left);
    }
    assert forall|i: int| at < i < history.len() && !((
    #[trigger] history[i]).entry is LoadingModel) implies history[i] == shorter[i - gone] && at <= i
        - gone by {}
    assert forall|i: int| 0 <= i < at implies #[trigger] history[i] == shorter[i] by {}
    let next = app.entry_deleted(history[at].id, tools, now).0.thread();
    assert(answered_anew(next.history, shorter, at, end, now));
    assert forall|i: int|
        at < i < history.len() && (#[trigger] history[i]).entry is Assistant implies waits_anew(
        next.history,
        history[i],
        now,
    ) by {
        assert(shorter[i - gone].entry is Assistant);
    }
    assert forall|i: int|
        at < i < history.len() && !((#[trigger] history[i]).entry is LoadingModel) && !(
        history[i].entry is Assistant) implies next.history.contains(history[i]) by {
        assert(next.history.contains(shorter[i - gone]));
    }
    assert forall|i: int| 0 <= i < at && !((#[trigger] history[i]).entry is LoadingModel) implies i
        < next.history.len() && next.history[i] == history[i] by {
        assert(!(shorter[i].entry is LoadingModel));
    }
}

proof fn lemma_loading_is_no_turn(item: ItemModel, rest: Seq<ItemModel>)
    requires
        item.entry is LoadingModel,
    ensures
        turn_numbers(seq![item] + rest) == turn_numbers(rest),
{
    let is_turn = |item: ItemModel| item.entry is Assistant;
    Seq::filter_distributes_over_add(seq![item], rest, is_turn);
    reveal(Seq::filter);
    assert(seq![item].drop_last() =~= Seq::<ItemModel>::empty());
    assert(Seq::<ItemModel>::empty().filter(is_turn) =~= Seq::<ItemModel>::empty());
    assert(seq![item].filter(is_turn) =~= Seq::<ItemModel>::empty());
    assert(Seq::<ItemModel>::empty() + rest.filter(is_turn) =~= rest.filter(is_turn));
}

/// Deleting a notice, or an entry on the loading of a model, takes out that entry, and the
/// entry on loading that follows it. Nothing is answered anew.
pub proof fn deleting_a_notice_answers_nothing_anew(
    app: AppModel,
    at: int,
    tools: Seq<ToolView>,
    now: u64,
)
    requires
        sound(app),
        0 <= at < app.thread().history.len(),
        app.thread().history[at].entry is SystemNotice || app.thread().history[at].entry
            is LoadingModel,
    ensures
        ({
            let history = app.thread().history;
            let (next, effect) = app.entry_deleted(history[at].id, tools, now);
            &&& effect is Continue
            &&& next.thread().queue == app.thread().queue
            &&& next.thread().history == if at + 1 < history.len() && history[at + 1].entry
                is LoadingModel {
                history.take(at) + history.skip(at + 2)
            } else {
                history.take(at) + history.skip(at + 1)
            }
        }),
{
    let history = app.thread().history;
    assert(app.threads[app.active as int] == app.thread());
    assert(tidy(app.thread(), app.next_history_id as int));
    entry_is_found_by_its_number(app, app.active as int, at);
    if at + 1 < history.len() && history[at + 1].entry is LoadingModel {
        assert(history.remove(at + 1).remove(at) =~= history.take(at) + history.skip(at + 2));
    } else {
        assert(history.remove(at) =~= history.take(at) + history.skip(at + 1));
    }
}

/// Sending an edited prompt puts it in place of the old one. The turn and all turns behind
/// it lose their answers and wait, in their order, and no others do; the first of them is
/// sent at once, unless another one runs. All other entries stay.
pub proof fn sending_an_edited_prompt_answers_the_rest_anew(
    app: AppModel,
    at: int,
    prompt: Seq<char>,
    tools: Seq<ToolView>,
    now: u64,
)
    requires
        sound(app),
        app.has_room(),
        0 <= at < app.thread().history.len(),
        app.thread().history[at].entry is Assistant,
        app.thread().compose_target == ComposeTarget::EditEntry(app.thread().history[at].id),
    ensures
        ({
            let thread = app.thread();
            let history = thread.history;
            let (next, effect) = app.prompt_sent(prompt, tools, now);
            let edited = ItemModel {
                entry: EntryModel::Assistant(
                    TurnModel { prompt, ..history[at].entry->Assistant_0 },
                ),
                ..history[at]
            };
            &&& waits_or_was_sent(
                next.thread(),
                effect,
                thread.running_job,
                turn_numbers(history.skip(at)),
            )
            &&& answered_anew(
                next.thread().history,
                history.update(at, edited),
                at,
                history.len() as int,
                now,
            )
        }),
{
    let thread = app.thread();
    let history = thread.history;
    let id = history[at].id;
    let end = history.len() as int;
    assert(app.threads[app.active as int] == thread);
    assert(tidy(thread, app.next_history_id as int));
    entry_is_found_by_its_number(app, app.active as int, at);
    lemma_index_of_id(history, id);
    let change = |turn: TurnModel| TurnModel { prompt, ..turn_waiting(turn, now) };
    let changed = turn_changed(history, id, change);
    let edited = ThreadModel {
        history: changed,
        selected: Some(at as usize),
        queue: Seq::empty(),
        ..thread
    };
    lemma_thread_touched(app, app.active as int, edited);
    let touched = app.with_active(edited);
    assert(touched.thread() == edited);
    assert forall|i: int| 0 <= i < touched.threads.len() implies touched.next_history_id + (
    #[trigger] touched.threads[i]).history.len() + 4 <= u64::MAX by {
        assert(app.next_history_id + app.threads[i].history.len() + 4 <= u64::MAX);
    }
    lemma_replayed_and_sent(touched, at, end, tools, now);
    assert(changed.subrange(at, end) =~= changed.skip(at));
    lemma_same_turn_numbers(changed.skip(at), history.skip(at));
    let item = ItemModel {
        entry: EntryModel::Assistant(TurnModel { prompt, ..history[at].entry->Assistant_0 }),
        ..history[at]
    };
    let wanted = history.update(at, item);
    let next = app.prompt_sent(prompt, tools, now).0.thread();
    assert(answered_anew(next.history, changed, at, end, now));
    assert forall|i: int|
        at <= i < end && (#[trigger] wanted[i]).entry is Assistant implies waits_anew(
        next.history,
        wanted[i],
        now,
    ) by {
        assert(changed[i].entry is Assistant);
        assert(waits_anew(next.history, changed[i], now));
        let k = choose|k: int|
            0 <= k < next.history.len() && (#[trigger] next.history[k]).id == changed[i].id
                && next.history[k].meta == changed[i].meta && (next.history[k].entry
                matches EntryModel::Assistant(turn) && {
                &&& turn.prompt == changed[i].entry->Assistant_0.prompt
                &&& turn.model_id == changed[i].entry->Assistant_0.model_id
                &&& turn.blocks.len() == 0
                &&& turn.callouts.len() == 0
                &&& turn.status == Some(AssistantStatus::Queued { started_at: now })
                &&& turn.sequence_number is None
            });
        assert(next.history[k].id == wanted[i].id);
    }
    assert forall|i: int|
        0 <= i < wanted.len() && !(at <= i < end && wanted[i].entry is Assistant) && !((
        #[trigger] wanted[i]).entry is LoadingModel) implies next.history.contains(wanted[i]) by {
        assert(changed[i] == wanted[i]);
    }
    assert forall|i: int| 0 <= i < at && !((#[trigger] wanted[i]).entry is LoadingModel) implies i
        < next.history.len() && next.history[i] == wanted[i] by {
        assert(changed[i] == wanted[i]);
    }
}

proof fn lemma_same_turn_numbers(a: Seq<ItemModel>, b: Seq<ItemModel>)
    requires
        same_marks(a, b),
    ensures
        turn_numbers(a) == turn_numbers(b),
    decreases a.len(),
{
    reveal(Seq::filter);
    if a.len() > 0 {
        assert forall|i: int| 0 <= i < a.len() - 1 implies (#[trigger] a.drop_last()[i])
            == a[i] by {}
        lemma_same_turn_numbers(a.drop_last(), b.drop_last());
        let last = a.len() - 1;
        assert(a[last].id == b[last].id);
        lemma_turn_numbers_of_more(a);
        lemma_turn_numbers_of_more(b);
    } else {
        assert(turn_numbers(a) =~= turn_numbers(b));
    }
}

/// An entry on the loading of a model stands directly before a turn.
pub open spec fn loading_stands_before(
    history: Seq<ItemModel>,
    turn_id: u64,
    model_id: Seq<char>,
) -> bool {
    exists|k: int|
        0 < k < history.len() && (#[trigger] history[k]).id == turn_id && history[k].entry
            is Assistant && is_loading_of(history[k - 1], model_id)
}

/// Before every turn that is answered anew, and whose model is not loaded, stands an entry on the
/// loading of that model. Where the models of these turns are loaded, no entry is added.
pub proof fn loading_is_shown_before_replayed_turns(app: AppModel, start: int, end: int, now: u64)
    requires
        app.wf(),
        0 <= start <= end <= app.thread().history.len(),
    ensures
        ({
            let thread = app.thread();
            let next = app.replay_queued(start, end, now).thread();
            &&& forall|i: int|
                start <= i < end && (#[trigger] thread.history[i]).entry is Assistant
                    && !thread.loaded_models.contains(
                    thread.history[i].entry->Assistant_0.model_id,
                ) ==> loading_stands_before(
                    next.history,
                    thread.history[i].id,
                    thread.history[i].entry->Assistant_0.model_id,
                )
            &&& (forall|i: int|
                start <= i < end && (#[trigger] thread.history[i]).entry is Assistant
                    ==> thread.loaded_models.contains(
                    thread.history[i].entry->Assistant_0.model_id,
                )) ==> next.history.len() == thread.history.len()
            &&& next.loaded_models == thread.loaded_models
        }),
{
    let thread = app.thread();
    let history = thread.history;
    let cleared = all_waiting(history, start, end, now);
    let next = app.replay_queued(start, end, now).thread();
    assert forall|i: int|
        start <= i < end && (#[trigger] history[i]).entry is Assistant
            && !thread.loaded_models.contains(
            history[i].entry->Assistant_0.model_id,
        ) implies loading_stands_before(
        next.history,
        history[i].id,
        history[i].entry->Assistant_0.model_id,
    ) by {
        assert(cleared[i].id == history[i].id);
        lemma_loading_before(
            cleared,
            thread.loaded_models,
            start,
            end,
            app.next_history_id,
            now,
            i,
        );
    }
    if forall|i: int|
        start <= i < end && (#[trigger] history[i]).entry is Assistant
            ==> thread.loaded_models.contains(history[i].entry->Assistant_0.model_id) {
        assert forall|i: int| start <= i < end implies !loading_due(
            cleared,
            thread.loaded_models,
            i,
        ) by {
            assert(cleared[i].entry is Assistant ==> history[i].entry is Assistant);
        }
        lemma_none_due(cleared, thread.loaded_models, start, end, app.next_history_id, now);
    }
}

proof fn lemma_none_due(
    history: Seq<ItemModel>,
    loaded: Set<Seq<char>>,
    start: int,
    end: int,
    first_id: u64,
    now: u64,
)
    requires
        forall|i: int| start <= i < end ==> !loading_due(history, loaded, i),
    ensures
        with_loading_entries(history, loaded, start, end, first_id, now) == history,
    decreases end - start,
{
    if start < end {
        assert(!loading_due(history, loaded, end - 1));
        lemma_none_due(history, loaded, start, end - 1, first_id, now);
    }
}

/// What stands behind a range moves, and stays the same but for what is said on loading.
proof fn lemma_behind_the_range(
    history: Seq<ItemModel>,
    loaded: Set<Seq<char>>,
    start: int,
    end: int,
    first_id: u64,
    now: u64,
)
    requires
        0 <= start <= end <= history.len(),
    ensures
        ({
            let next = with_loading_entries(history, loaded, start, end, first_id, now);
            let more = next.len() - history.len();
            &&& more >= 0
            &&& forall|k: int|
                end <= k < history.len() ==> {
                    let item = #[trigger] next[k + more];
                    item == history[k] || item.entry is LoadingModel && is_loading_of(
                        history[k],
                        item.entry->model_id,
                    )
                }
        }),
    decreases end - start,
{
    if start < end {
        let at = end - 1;
        let next = with_loading_entries(history, loaded, start, end, first_id, now);
        if loading_due(history, loaded, at) {
            let model_id = history[at].entry->Assistant_0.model_id;
            let id = (first_id + due_count(history, loaded, start, at)) as u64;
            let placed = history.insert(at, loading_item(id, model_id, now));
            let begun = loading_begun(history, at, id, model_id, now);
            let status = ModelLoadStatus::Loading { started_at: now };
            lemma_loading_set_keeps_models(placed, model_id, status);
            lemma_behind_the_range(begun, loaded, start, at, first_id, now);
            let more = next.len() - history.len();
            assert forall|k: int| end <= k < history.len() implies ({
                let item = #[trigger] next[k + more];
                item == history[k] || item.entry is LoadingModel && is_loading_of(
                    history[k],
                    item.entry->model_id,
                )
            }) by {
                assert(placed[k + 1] == history[k]);
                assert(next[(k + 1) + (next.len() - begun.len())] == next[k + more]);
            }
        } else {
            lemma_behind_the_range(history, loaded, start, at, first_id, now);
        }
    }
}

proof fn lemma_loading_set_keeps_models(
    history: Seq<ItemModel>,
    model_id: Seq<char>,
    status: ModelLoadStatus,
)
    ensures
        ({
            let next = loading_set(history, model_id, status);
            &&& next.len() == history.len()
            &&& forall|i: int|
                0 <= i < history.len() ==> #[trigger] next[i] == history[i]
                    || next[i].entry is LoadingModel && is_loading_of(
                    history[i],
                    next[i].entry->model_id,
                )
        }),
    decreases history.len(),
{
    lemma_last_loading_is_on_loading(history, model_id);
}

proof fn lemma_loading_before(
    history: Seq<ItemModel>,
    loaded: Set<Seq<char>>,
    start: int,
    end: int,
    first_id: u64,
    now: u64,
    i: int,
)
    requires
        0 <= start <= i < end <= history.len(),
        history[i].entry is Assistant,
        !loaded.contains(history[i].entry->Assistant_0.model_id),
    ensures
        loading_stands_before(
            with_loading_entries(history, loaded, start, end, first_id, now),
            history[i].id,
            history[i].entry->Assistant_0.model_id,
        ),
    decreases end - start,
{
    let at = end - 1;
    let model_id = history[i].entry->Assistant_0.model_id;
    let next = with_loading_entries(history, loaded, start, end, first_id, now);
    if loading_due(history, loaded, at) {
        let due = history[at].entry->Assistant_0.model_id;
        let id = (first_id + due_count(history, loaded, start, at)) as u64;
        let placed = history.insert(at, loading_item(id, due, now));
        let begun = loading_begun(history, at, id, due, now);
        lemma_loading_set_keeps_models(placed, due, ModelLoadStatus::Loading { started_at: now });
        if i == at {
            lemma_behind_the_range(begun, loaded, start, at, first_id, now);
            let more = next.len() - begun.len();
            assert(placed[at + 1] == history[at]);
            assert(begun[at + 1] == history[at]);
            assert(is_loading_of(begun[at], due));
            assert(next[(at + 1) + more] == history[at]);
            assert(is_loading_of(next[at + more], due));
            assert(next[at + 1 + more].id == history[i].id);
        } else {
            assert(placed[i] == history[i]);
            assert(begun[i] == history[i]);
            lemma_loading_before(begun, loaded, start, at, first_id, now, i);
        }
    } else if i < at {
        lemma_loading_before(history, loaded, start, at, first_id, now, i);
    } else {
        assert(is_loading_of(history[at - 1], model_id));
        if start < at {
            lemma_behind_the_range(history, loaded, start, at - 1, first_id, now);
            assert(!(history[at - 1].entry is Assistant));
            assert(with_loading_entries(history, loaded, start, at, first_id, now)
                == with_loading_entries(history, loaded, start, at - 1, first_id, now));
        } else {
            assert(with_loading_entries(history, loaded, start, at, first_id, now) == history);
        }
        assert(next == with_loading_entries(history, loaded, start, at, first_id, now));
        let more = next.len() - history.len();
        assert(next[at + more] == history[at]);
        assert(is_loading_of(next[(at - 1) + more], model_id));
        assert(next[at + more].id == history[i].id);
    }
}

} // verus!
