//! What every event keeps: entries and tabs have numbers of their own, and the
//! settings of a conversation are those that its commands make.

use vstd::prelude::*;

use crate::agent::ToolView;
use crate::app_model::{
    first_label, followed_up, lemma_index_of_tab, target_index, AfterStart, AppModel, EffectModel,
};
use crate::command_palette::{CommitView, DispatchView, TargetView};
use crate::commands::{in_family, next_of_family, InlinePosition};
use crate::history::{
    selected_of, AssistantStatus, CommandFamily, EntryModel, ItemModel, KindModel, MetaModel, Mode,
    ModelLoadStatus, TurnModel,
};
use crate::input::{InputEvent, Key, KeyPress};
use crate::jobs::{tool_note_set, turn_model_id, JobModel, MarkdownModel};
use crate::replay::{
    all_waiting, due_count, lemma_due_count_fits, lemma_loading_begun_keeps_prefix,
    lemma_same_make_same_due, loading_begun, loading_due, replayed, same_make, turn_waiting,
    turns_in, with_loading_entries,
};
use crate::request::{request_for, TurnRequestModel};
use crate::runtime::{config_ids, ConfigView, StatusView};
use crate::text::{lines_joined, trimmed};
use crate::thread::{
    answered, answering, config_after, entry_replaced, fresh_thread, index_of_id, interrupted,
    labels_of, last_loading, lemma_index_of_id, loading_inserted, loading_item, loading_set,
    new_turn, normalized, reconfigured, tool_noted, turn_changed, with_history, writing_given_up,
    ComposeTarget, ConfigModel, ThreadJob, ThreadModel,
};

verus! {

/// No two entries have one number.
pub open spec fn distinct(history: Seq<ItemModel>) -> bool {
    forall|i: int, j: int|
        0 <= i < j < history.len() ==> (#[trigger] history[i]).id != (#[trigger] history[j]).id
}

/// All numbers are below a bound.
pub open spec fn below(history: Seq<ItemModel>, bound: int) -> bool {
    forall|i: int| 0 <= i < history.len() ==> (#[trigger] history[i]).id < bound
}

/// An entry that has a number is a turn.
pub open spec fn names_turn(history: Seq<ItemModel>, id: u64) -> bool {
    forall|i: int|
        0 <= i < history.len() && (#[trigger] history[i]).id == id ==> history[i].entry is Assistant
}

/// An entry is a command, or what a command left.
pub open spec fn commanded(entry: EntryModel) -> bool {
    entry is Command || entry is Break
}

/// An entry that has a number is a command.
pub open spec fn names_command(history: Seq<ItemModel>, id: u64) -> bool {
    forall|i: int|
        0 <= i < history.len() && (#[trigger] history[i]).id == id ==> commanded(history[i].entry)
}

/// Only commands are marked as commands.
pub open spec fn commands_marked(history: Seq<ItemModel>) -> bool {
    forall|i: int|
        0 <= i < history.len() && (#[trigger] history[i]).meta is Command
            ==> commanded(history[i].entry)
}

/// What waits and what runs are turns.
pub open spec fn jobs_named(thread: ThreadModel, bound: int) -> bool {
    &&& forall|k: int|
        0 <= k < thread.queue.len() ==> names_turn(
            thread.history,
            (#[trigger] thread.queue[k]).assistant_entry_id,
        ) && thread.queue[k].assistant_entry_id < bound
    &&& thread.running_assistant_id matches Some(id) ==> names_turn(thread.history, id) && id
        < bound
}

/// Two lists have the same numbers, and turns and commands in the same places.
pub open spec fn same_marks(a: Seq<ItemModel>, b: Seq<ItemModel>) -> bool {
    &&& a.len() == b.len()
    &&& forall|i: int|
        0 <= i < a.len() ==> (#[trigger] a[i]).id == b[i].id && a[i].meta == b[i].meta
            && a[i].entry is Assistant == b[i].entry is Assistant && commanded(a[i].entry)
            == commanded(b[i].entry)
}

/// Every entry has a number of its own below `bound`, only commands are marked as
/// such, the settings are those that the commands make, and what waits and what
/// runs are turns.
pub open spec fn tidy(thread: ThreadModel, bound: int) -> bool {
    &&& distinct(thread.history)
    &&& below(thread.history, bound)
    &&& commands_marked(thread.history)
    &&& thread.current_config == config_after(thread.base_config, thread.history)
    &&& jobs_named(thread, bound)
}

pub(crate) proof fn lemma_same_config(config: ConfigModel, a: Seq<ItemModel>, b: Seq<ItemModel>)
    requires
        same_marks(a, b),
    ensures
        config_after(config, a) == config_after(config, b),
    decreases a.len(),
{
    if a.len() > 0 {
        assert forall|i: int| 0 <= i < a.len() - 1 implies (#[trigger] a.drop_last()[i])
            == a[i] by {}
        assert(same_marks(a.drop_last(), b.drop_last()));
        lemma_same_config(config, a.drop_last(), b.drop_last());
        assert(a[a.len() - 1].meta == b[a.len() - 1].meta);
    }
}

proof fn lemma_insert_keeps_config(
    config: ConfigModel,
    history: Seq<ItemModel>,
    at: int,
    item: ItemModel,
)
    requires
        0 <= at <= history.len(),
        item.meta == MetaModel::Plain,
    ensures
        config_after(config, history.insert(at, item)) == config_after(config, history),
    decreases history.len(),
{
    let longer = history.insert(at, item);
    if at == history.len() {
        assert(longer.drop_last() =~= history);
    } else {
        assert(longer.drop_last() =~= history.drop_last().insert(at, item));
        lemma_insert_keeps_config(config, history.drop_last(), at, item);
    }
}

pub(crate) proof fn lemma_remove_keeps_config(config: ConfigModel, history: Seq<ItemModel>, at: int)
    requires
        0 <= at < history.len(),
        history[at].meta == MetaModel::Plain,
    ensures
        config_after(config, history.remove(at)) == config_after(config, history),
{
    assert(history.remove(at).insert(at, history[at]) =~= history);
    lemma_insert_keeps_config(config, history.remove(at), at, history[at]);
}

proof fn lemma_insert_keeps(
    history: Seq<ItemModel>,
    at: int,
    item: ItemModel,
    bound: int,
)
    requires
        0 <= at <= history.len(),
        distinct(history),
        below(history, bound),
        commands_marked(history),
        item.id < bound,
        item.meta is Command ==> commanded(item.entry),
        forall|i: int| 0 <= i < history.len() ==> (#[trigger] history[i]).id != item.id,
    ensures
        distinct(history.insert(at, item)),
        below(history.insert(at, item), bound),
        commands_marked(history.insert(at, item)),
        forall|id: u64| #[trigger]
            names_turn(history, id) && id != item.id ==> names_turn(history.insert(at, item), id),
        forall|id: u64| #[trigger]
            names_command(history, id) && id != item.id ==> names_command(
                history.insert(at, item),
                id,
            ),
{
    let longer = history.insert(at, item);
    assert forall|i: int| 0 <= i < longer.len() implies (#[trigger] longer[i]).id < bound && (
    longer[i].meta is Command ==> commanded(longer[i].entry)) by {
        if i < at {
            assert(longer[i] == history[i]);
        } else if i > at {
            assert(longer[i] == history[i - 1]);
        }
    }
    assert forall|id: u64| #[trigger]
        names_turn(history, id) && id != item.id implies names_turn(longer, id) by {
        assert forall|i: int|
            0 <= i < longer.len() && (#[trigger] longer[i]).id
                == id implies longer[i].entry is Assistant by {
            if i < at {
                assert(longer[i] == history[i]);
            } else if i > at {
                assert(longer[i] == history[i - 1]);
            }
        }
    }
    assert forall|id: u64| #[trigger]
        names_command(history, id) && id != item.id implies names_command(longer, id) by {
        assert forall|i: int|
            0 <= i < longer.len() && (#[trigger] longer[i]).id
                == id implies commanded(longer[i].entry) by {
            if i < at {
                assert(longer[i] == history[i]);
            } else if i > at {
                assert(longer[i] == history[i - 1]);
            }
        }
    }
    assert forall|i: int, j: int| 0 <= i < j < longer.len() implies (#[trigger] longer[i]).id != (
    #[trigger] longer[j]).id by {
        let before = |k: int|
            if k < at {
                k
            } else {
                k - 1
            };
        if i != at {
            assert(longer[i] == history[before(i)]);
        }
        if j != at {
            assert(longer[j] == history[before(j)]);
        }
    }
}

pub(crate) proof fn lemma_remove_keeps(history: Seq<ItemModel>, at: int, bound: int)
    requires
        0 <= at < history.len(),
        distinct(history),
        below(history, bound),
        commands_marked(history),
    ensures
        distinct(history.remove(at)),
        below(history.remove(at), bound),
        commands_marked(history.remove(at)),
        forall|id: u64| #[trigger] names_turn(history, id) ==> names_turn(history.remove(at), id),
        forall|id: u64| #[trigger]
            names_command(history, id) ==> names_command(history.remove(at), id),
{
    let shorter = history.remove(at);
    let before = |k: int|
        if k < at {
            k
        } else {
            k + 1
        };
    assert forall|k: int| 0 <= k < shorter.len() implies #[trigger] shorter[k]
        == history[before(k)] by {}
    assert forall|i: int, j: int| 0 <= i < j < shorter.len() implies (#[trigger] shorter[i]).id
        != (#[trigger] shorter[j]).id by {
        assert(shorter[i] == history[before(i)]);
        assert(shorter[j] == history[before(j)]);
    }
    assert forall|i: int| 0 <= i < shorter.len() implies (#[trigger] shorter[i]).id < bound && (
    shorter[i].meta is Command ==> commanded(shorter[i].entry)) by {
        assert(shorter[i] == history[before(i)]);
    }
    assert forall|id: u64| #[trigger] names_turn(history, id) implies names_turn(shorter, id) by {
        assert forall|i: int|
            0 <= i < shorter.len() && (#[trigger] shorter[i]).id
                == id implies shorter[i].entry is Assistant by {
            assert(shorter[i] == history[before(i)]);
        }
    }
    assert forall|id: u64| #[trigger] names_command(history, id) implies names_command(
        shorter,
        id,
    ) by {
        assert forall|i: int|
            0 <= i < shorter.len() && (#[trigger] shorter[i]).id
                == id implies commanded(shorter[i].entry) by {
            assert(shorter[i] == history[before(i)]);
        }
    }
}

pub(crate) proof fn lemma_same_marks_keep(a: Seq<ItemModel>, b: Seq<ItemModel>, bound: int)
    requires
        same_marks(a, b),
        distinct(b),
        below(b, bound),
        commands_marked(b),
    ensures
        distinct(a),
        below(a, bound),
        commands_marked(a),
        forall|id: u64| #[trigger] names_turn(b, id) ==> names_turn(a, id),
        forall|id: u64| #[trigger] names_command(b, id) ==> names_command(a, id),
{
    assert forall|i: int, j: int| 0 <= i < j < a.len() implies (#[trigger] a[i]).id != (
    #[trigger] a[j]).id by {
        assert(b[i].id != b[j].id);
    }
    assert forall|i: int| 0 <= i < a.len() implies (#[trigger] a[i]).id < bound && (
    a[i].meta is Command ==> commanded(a[i].entry)) by {
        assert(b[i].id < bound);
    }
}

/// What waits and what runs after a change was there before.
pub open spec fn same_jobs(next: ThreadModel, thread: ThreadModel) -> bool {
    &&& forall|k: int|
        0 <= k < next.queue.len() ==> thread.queue.contains(#[trigger] next.queue[k])
    &&& next.running_assistant_id is Some ==> next.running_assistant_id
        == thread.running_assistant_id
}

/// A change that keeps numbers and commands keeps a conversation tidy.
proof fn lemma_marks_keep_tidy(thread: ThreadModel, next: ThreadModel, bound: int)
    requires
        tidy(thread, bound),
        same_marks(next.history, thread.history),
        next.base_config == thread.base_config,
        next.current_config == thread.current_config,
        same_jobs(next, thread),
    ensures
        tidy(next, bound),
{
    lemma_same_marks_keep(next.history, thread.history, bound);
    lemma_same_config(thread.base_config, next.history, thread.history);
    assert forall|k: int| 0 <= k < next.queue.len() implies names_turn(
        next.history,
        (#[trigger] next.queue[k]).assistant_entry_id,
    ) && next.queue[k].assistant_entry_id < bound by {
        let was = thread.queue.index_of(next.queue[k]);
        assert(thread.queue[was] == next.queue[k]);
        assert(names_turn(thread.history, thread.queue[was].assistant_entry_id));
    }
}

pub(crate) proof fn lemma_turn_changed_marks(
    history: Seq<ItemModel>,
    id: u64,
    change: spec_fn(TurnModel) -> TurnModel,
)
    ensures
        same_marks(turn_changed(history, id, change), history),
{
    lemma_index_of_id(history, id);
}

proof fn lemma_last_loading_bounds(history: Seq<ItemModel>, model_id: Seq<char>)
    ensures
        last_loading(history, model_id) matches Some(at) ==> 0 <= at < history.len()
            && history[at].entry is LoadingModel,
    decreases history.len(),
{
    if history.len() > 0 {
        lemma_last_loading_bounds(history.drop_last(), model_id);
    }
}

pub(crate) proof fn lemma_loading_set_marks(
    history: Seq<ItemModel>,
    model_id: Seq<char>,
    status: ModelLoadStatus,
)
    ensures
        same_marks(loading_set(history, model_id, status), history),
{
    lemma_last_loading_bounds(history, model_id);
}

/// The entries but for those on the loading of models.
pub open spec fn proper(history: Seq<ItemModel>) -> Seq<ItemModel> {
    history.filter(|item: ItemModel| !(item.entry is LoadingModel))
}

proof fn lemma_proper_of_parts(a: Seq<ItemModel>, b: Seq<ItemModel>)
    ensures
        proper(a + b) == proper(a) + proper(b),
{
    Seq::filter_distributes_over_add(a, b, |item: ItemModel| !(item.entry is LoadingModel));
}

proof fn lemma_proper_of_one(item: ItemModel)
    ensures
        item.entry is LoadingModel ==> proper(seq![item]) == Seq::<ItemModel>::empty(),
        !(item.entry is LoadingModel) ==> proper(seq![item]) == seq![item],
{
    reveal(Seq::filter);
    let pred = |item: ItemModel| !(item.entry is LoadingModel);
    assert(seq![item].drop_last() =~= Seq::empty());
    assert(Seq::<ItemModel>::empty().filter(pred) =~= Seq::empty());
    assert(seq![item].filter(pred) =~= if pred(item) {
        seq![item]
    } else {
        Seq::empty()
    });
}

pub(crate) proof fn lemma_insert_loading_proper(history: Seq<ItemModel>, at: int, item: ItemModel)
    requires
        0 <= at <= history.len(),
        item.entry is LoadingModel,
    ensures
        proper(history.insert(at, item)) == proper(history),
{
    let front = history.take(at);
    let back = history.skip(at);
    assert(history.insert(at, item) =~= front + seq![item] + back);
    assert(history =~= front + back);
    lemma_proper_of_parts(front + seq![item], back);
    lemma_proper_of_parts(front, seq![item]);
    lemma_proper_of_parts(front, back);
    lemma_proper_of_one(item);
    assert(proper(front) + Seq::<ItemModel>::empty() =~= proper(front));
}

proof fn lemma_update_loading_proper(history: Seq<ItemModel>, at: int, item: ItemModel)
    requires
        0 <= at < history.len(),
        item.entry is LoadingModel,
        history[at].entry is LoadingModel,
    ensures
        proper(history.update(at, item)) == proper(history),
{
    let others = history.remove(at);
    assert(history.update(at, item) =~= others.insert(at, item));
    assert(history =~= others.insert(at, history[at]));
    lemma_insert_loading_proper(others, at, item);
    lemma_insert_loading_proper(others, at, history[at]);
}

pub(crate) proof fn lemma_loading_set_proper(
    history: Seq<ItemModel>,
    model_id: Seq<char>,
    status: ModelLoadStatus,
)
    ensures
        proper(loading_set(history, model_id, status)) == proper(history),
{
    lemma_last_loading_bounds(history, model_id);
    if let Some(at) = last_loading(history, model_id) {
        lemma_update_loading_proper(
            history,
            at,
            ItemModel {
                entry: EntryModel::LoadingModel { model_id, status: Some(status) },
                ..history[at]
            },
        );
    }
}

/// No number of a list is in a range.
pub open spec fn clear_of(history: Seq<ItemModel>, from: int, to: int) -> bool {
    forall|i: int|
        0 <= i < history.len() ==> !(from <= (#[trigger] history[i]).id && history[i].id < to)
}

/// Putting entries on the loading of models before the turns that need one keeps
/// everything else.
pub(crate) proof fn lemma_with_loading_entries(
    history: Seq<ItemModel>,
    loaded: Set<Seq<char>>,
    start: int,
    end: int,
    first_id: u64,
    now: u64,
    bound: int,
    config: ConfigModel,
)
    requires
        0 <= start <= end <= history.len(),
        distinct(history),
        below(history, bound),
        commands_marked(history),
        clear_of(history, first_id as int, first_id + due_count(history, loaded, start, end)),
        first_id + due_count(history, loaded, start, end) <= bound,
        bound <= u64::MAX,
    ensures
        ({
            let next = with_loading_entries(history, loaded, start, end, first_id, now);
            let due = due_count(history, loaded, start, end);
            &&& distinct(next)
            &&& below(next, bound)
            &&& commands_marked(next)
            &&& config_after(config, next) == config_after(config, history)
            &&& proper(next) == proper(history)
            &&& next.len() >= start
            &&& next.take(start) == history.take(start)
            &&& forall|id: u64|
                #![trigger names_turn(next, id)]
                names_turn(history, id) && !(first_id <= id < first_id + due) ==> names_turn(
                    next,
                    id,
                )
            &&& forall|id: u64|
                #![trigger names_command(next, id)]
                names_command(history, id) && !(first_id <= id < first_id + due)
                    ==> names_command(next, id)
        }),
    decreases end - start,
{
    if start < end {
        let at = end - 1;
        if loading_due(history, loaded, at) {
            let model_id = history[at].entry->Assistant_0.model_id;
            let status = ModelLoadStatus::Loading { started_at: now };
            let id = (first_id + due_count(history, loaded, start, at)) as u64;
            let item = loading_item(id, model_id, now);
            let inserted = history.insert(at, item);
            let next = loading_begun(history, at, id, model_id, now);
            lemma_loading_begun_keeps_prefix(history, at, id, model_id, now);
            lemma_insert_keeps(history, at, item, bound);
            lemma_insert_keeps_config(config, history, at, item);
            lemma_insert_loading_proper(history, at, item);
            lemma_loading_set_marks(inserted, model_id, status);
            lemma_loading_set_proper(inserted, model_id, status);
            lemma_same_marks_keep(next, inserted, bound);
            lemma_same_config(config, next, inserted);
            assert(same_make(next, history, at));
            lemma_same_make_same_due(next, history, loaded, start, at);
            assert forall|i: int| 0 <= i < next.len() implies !(first_id <= (
            #[trigger] next[i]).id && next[i].id < first_id + due_count(
                next,
                loaded,
                start,
                at,
            )) by {
                assert(next[i].id == inserted[i].id);
                if i < at {
                    assert(inserted[i] == history[i]);
                } else if i > at {
                    assert(inserted[i] == history[i - 1]);
                }
            }
            lemma_with_loading_entries(next, loaded, start, at, first_id, now, bound, config);
            assert(next.take(start) =~= history.take(start));
        } else {
            lemma_with_loading_entries(history, loaded, start, at, first_id, now, bound, config);
        }
    }
}

/// The turns of a range are turns.
proof fn lemma_turns_in(history: Seq<ItemModel>, start: int, end: int, bound: int)
    requires
        0 <= start,
        end <= history.len(),
        distinct(history),
        below(history, bound),
    ensures
        forall|k: int|
            0 <= k < turns_in(history, start, end).len() ==> names_turn(
                history,
                (#[trigger] turns_in(history, start, end)[k]).assistant_entry_id,
            ) && turns_in(history, start, end)[k].assistant_entry_id < bound,
    decreases end - start,
{
    if start < end {
        lemma_turns_in(history, start, end - 1, bound);
        let before = turns_in(history, start, end - 1);
        let all = turns_in(history, start, end);
        assert forall|k: int| 0 <= k < all.len() implies names_turn(
            history,
            (#[trigger] all[k]).assistant_entry_id,
        ) && all[k].assistant_entry_id < bound by {
            if k < before.len() {
                assert(all[k] == before[k]);
            }
        }
    }
}

/// Answering turns anew keeps a conversation tidy: the entries that are added get
/// numbers that none had.
proof fn lemma_replayed_tidy(
    thread: ThreadModel,
    start: int,
    end: int,
    first_id: u64,
    now: u64,
)
    requires
        tidy(thread, first_id as int),
        0 <= start,
        end <= thread.history.len(),
        first_id + due_count(thread.history, thread.loaded_models, start, end) <= u64::MAX,
    ensures
        ({
            let next = replayed(thread, start, end, first_id, now);
            &&& tidy(
                next,
                first_id + due_count(thread.history, thread.loaded_models, start, end),
            )
            &&& forall|id: u64|
                #![trigger names_command(next.history, id)]
                names_command(thread.history, id) && id < first_id ==> names_command(
                    next.history,
                    id,
                )
        }),
{
    let marked = all_waiting(thread.history, start, end, now);
    let due = due_count(thread.history, thread.loaded_models, start, end);
    let next = replayed(thread, start, end, first_id, now);
    assert(same_marks(marked, thread.history));
    lemma_same_marks_keep(marked, thread.history, first_id as int);
    lemma_same_config(thread.base_config, marked, thread.history);
    lemma_turns_in(thread.history, start, end, first_id as int);
    if start <= end {
        assert(same_make(marked, thread.history, end));
        lemma_same_make_same_due(marked, thread.history, thread.loaded_models, start, end);
        lemma_with_loading_entries(
            marked,
            thread.loaded_models,
            start,
            end,
            first_id,
            now,
            first_id + due,
            thread.base_config,
        );
    }
    assert forall|k: int| 0 <= k < next.queue.len() implies names_turn(
        next.history,
        (#[trigger] next.queue[k]).assistant_entry_id,
    ) && next.queue[k].assistant_entry_id < first_id + due by {
        assert(names_turn(thread.history, next.queue[k].assistant_entry_id));
        assert(names_turn(marked, next.queue[k].assistant_entry_id));
    }
    if let Some(id) = thread.running_assistant_id {
        assert(names_turn(marked, id));
        assert(names_turn(next.history, id));
    }
    assert forall|id: u64|
        #![trigger names_command(next.history, id)]
        names_command(thread.history, id) && id < first_id implies names_command(
        next.history,
        id,
    ) by {
        assert(names_command(marked, id));
    }
}

/// Something is shown, tabs have numbers of their own, and every conversation is
/// tidy.
pub open spec fn sound(app: AppModel) -> bool {
    &&& app.wf()
    &&& forall|i: int, j: int|
        0 <= i < j < app.threads.len() ==> (#[trigger] app.threads[i]).tab_id != (
        #[trigger] app.threads[j]).tab_id
    &&& forall|i: int|
        0 <= i < app.threads.len() ==> (#[trigger] app.threads[i]).tab_id < app.next_tab_id
    &&& forall|i: int|
        0 <= i < app.threads.len() ==> tidy(
            #[trigger] app.threads[i],
            app.next_history_id as int,
        )
}

/// What is edited on the command line is a command of the conversation that is
/// shown, and nothing is edited there in any other mode.
pub open spec fn target_is_a_command(app: AppModel) -> bool {
    app.command_edit_target matches Some(id) ==> {
        &&& app.mode == Mode::Command
        &&& id < app.next_history_id
        &&& names_command(app.thread().history, id)
    }
}

/// The state of the program is in order: something is shown; tabs have numbers of
/// their own; every entry of a conversation has a number of its own, below the
/// next one that is given out; the settings of a conversation are those that its
/// commands make; what waits and what runs are turns; and what is edited on the
/// command line is a command.
pub open spec fn orderly(app: AppModel) -> bool {
    sound(app) && target_is_a_command(app)
}

/// One conversation is replaced by one that is tidy, and numbers are given out.
proof fn lemma_thread_changed(app: AppModel, at: int, thread: ThreadModel, count: nat)
    requires
        sound(app),
        0 <= at < app.threads.len(),
        app.next_history_id + count <= u64::MAX,
        thread.tab_id == app.threads[at].tab_id,
        tidy(thread, app.next_history_id + count),
    ensures
        sound(app.with_thread(at, thread).ids_taken(count)),
        app.with_thread(at, thread).ids_taken(0) == app.with_thread(at, thread),
{
    let next = app.with_thread(at, thread).ids_taken(count);
    assert forall|i: int| 0 <= i < next.threads.len() implies tidy(
        #[trigger] next.threads[i],
        next.next_history_id as int,
    ) by {
        if i != at {
            assert(next.threads[i] == app.threads[i]);
            assert(tidy(app.threads[i], app.next_history_id as int));
        }
    }
}

/// One conversation is replaced by one with the same numbers and commands.
pub(crate) proof fn lemma_thread_touched(app: AppModel, at: int, thread: ThreadModel)
    requires
        sound(app),
        0 <= at < app.threads.len(),
        thread.tab_id == app.threads[at].tab_id,
        thread.base_config == app.threads[at].base_config,
        thread.current_config == app.threads[at].current_config,
        same_marks(thread.history, app.threads[at].history),
        same_jobs(thread, app.threads[at]),
    ensures
        sound(app.with_thread(at, thread)),
{
    assert(tidy(app.threads[at], app.next_history_id as int));
    lemma_marks_keep_tidy(app.threads[at], thread, app.next_history_id as int);
    lemma_thread_changed(app, at, thread, 0);
}

proof fn lemma_footer_opened(app: AppModel)
    requires
        sound(app),
    ensures
        sound(app.footer_opened()),
{
    lemma_thread_touched(
        app,
        app.active as int,
        ThreadModel {
            selected: None,
            compose_target: ComposeTarget::AppendBottom,
            draft: Seq::empty(),
            ..app.thread()
        },
    );
}

proof fn lemma_activated(app: AppModel, index: int)
    requires
        sound(app),
        0 <= index,
    ensures
        sound(app.activated(index)),
        app.activated(index).threads.len() == app.threads.len(),
{
    let shown = if index < app.threads.len() {
        index
    } else {
        app.threads.len() - 1
    };
    lemma_thread_touched(
        app,
        shown,
        ThreadModel { has_unseen_changes: false, ..app.threads[shown] },
    );
}

proof fn lemma_cycled(app: AppModel, delta: int)
    requires
        sound(app),
    ensures
        sound(app.cycled(delta)),
{
    vstd::arithmetic::div_mod::lemma_mod_bound(app.active + delta, app.threads.len() as int);
    lemma_activated(app, (app.active + delta) % (app.threads.len() as int));
}

proof fn lemma_command_mode_closed(app: AppModel)
    requires
        sound(app),
    ensures
        sound(app.command_mode_closed()),
{
    lemma_footer_opened(
        AppModel {
            palette: app.palette.closed(),
            command_edit_target: None,
            inline_command_placeholder: None,
            ..app
        },
    );
}

/// An entry with the next number is added to the conversation that is shown, and
/// the settings are made anew.
proof fn lemma_entry_added(app: AppModel, entry: EntryModel, meta: MetaModel)
    requires
        sound(app),
        app.next_history_id < u64::MAX,
        meta is Command ==> commanded(entry),
    ensures
        ({
            let added = app.entry_added(entry, meta);
            &&& sound(added.with_active(reconfigured(added.thread())))
            &&& meta == MetaModel::Plain ==> sound(added)
        }),
{
    let thread = app.thread();
    let item = ItemModel { id: app.next_history_id, entry, meta };
    let longer = thread.history.push(item);
    assert(tidy(thread, app.next_history_id as int));
    assert(longer =~= thread.history.insert(thread.history.len() as int, item));
    lemma_insert_keeps(
        thread.history,
        thread.history.len() as int,
        item,
        app.next_history_id + 1,
    );
    let added = app.entry_added(entry, meta);
    let settled = reconfigured(with_history(thread, longer));
    lemma_thread_changed(app, app.active as int, settled, 1);
    assert(added.with_active(reconfigured(added.thread())) =~= app.with_active(
        settled,
    ).ids_taken(1));
    if meta == MetaModel::Plain {
        lemma_insert_keeps_config(
            thread.base_config,
            thread.history,
            thread.history.len() as int,
            item,
        );
        lemma_thread_changed(app, app.active as int, with_history(thread, longer), 1);
    }
}

/// An entry of no command goes into the conversation that is shown.
pub(crate) proof fn lemma_entry_inserted(
    app: AppModel,
    thread: ThreadModel,
    at: int,
    item: ItemModel,
)
    requires
        sound(app),
        app.next_history_id < u64::MAX,
        0 <= at <= app.thread().history.len(),
        item.id == app.next_history_id,
        item.meta == MetaModel::Plain,
        thread.history == app.thread().history.insert(at, item),
        thread.tab_id == app.thread().tab_id,
        thread.base_config == app.thread().base_config,
        thread.current_config == app.thread().current_config,
        thread.queue == app.thread().queue,
        thread.running_assistant_id == app.thread().running_assistant_id,
    ensures
        sound(app.with_active(thread).ids_taken(1)),
{
    let history = app.thread().history;
    assert(tidy(app.thread(), app.next_history_id as int));
    lemma_insert_keeps(history, at, item, app.next_history_id + 1);
    lemma_insert_keeps_config(thread.base_config, history, at, item);
    lemma_thread_changed(app, app.active as int, thread, 1);
}

pub(crate) proof fn lemma_replay_queued(app: AppModel, start: int, end: int, now: u64)
    requires
        sound(app),
        0 <= start,
        end <= app.thread().history.len(),
        app.next_history_id + app.thread().history.len() <= u64::MAX,
    ensures
        sound(app.replay_queued(start, end, now)),
{
    let thread = app.thread();
    assert(tidy(thread, app.next_history_id as int));
    lemma_due_count_fits(thread.history, thread.loaded_models, start, end);
    lemma_replayed_tidy(thread, start, end, app.next_history_id, now);
    lemma_thread_changed(
        app,
        app.active as int,
        replayed(thread, start, end, app.next_history_id, now),
        due_count(thread.history, thread.loaded_models, start, end),
    );
}

proof fn lemma_stream_prepared(app: AppModel, at: int, model_id: Seq<char>, now: u64)
    requires
        sound(app),
        0 <= at < app.threads.len(),
    ensures
        sound(app.stream_prepared(at, model_id, now)),
{
    let status = ModelLoadStatus::Loading { started_at: now };
    let thread = app.threads[at];
    lemma_loading_set_marks(thread.history, model_id, status);
    lemma_thread_touched(
        app,
        at,
        with_history(thread, loading_set(thread.history, model_id, status)),
    );
}

proof fn lemma_job_started(app: AppModel, at: int, tools: Seq<ToolView>, now: u64)
    requires
        sound(app),
        0 <= at < app.threads.len(),
    ensures
        sound(app.job_started(at, tools, now).0),
        same_surroundings(app.job_started(at, tools, now).0, app),
        forall|i: int|
            0 <= i < app.threads.len() ==> same_marks(
                (#[trigger] app.job_started(at, tools, now).0.threads[i]).history,
                app.threads[i].history,
            ),
{
    let thread = app.threads[at];
    if thread.queue.len() > 0 && !thread.running_job {
        let next = ThreadModel { queue: thread.queue.drop_first(), ..thread };
        assert forall|k: int| 0 <= k < next.queue.len() implies thread.queue.contains(
            #[trigger] next.queue[k],
        ) by {
            assert(next.queue[k] == thread.queue[k + 1]);
        }
        lemma_thread_touched(app, at, next);
        if let Ok(turn) = request_for(thread, thread.queue[0].assistant_entry_id, tools) {
            let model_id = turn.config.model_id;
            lemma_stream_prepared(app.with_thread(at, next), at, model_id, now);
            lemma_loading_set_marks(
                thread.history,
                model_id,
                ModelLoadStatus::Loading { started_at: now },
            );
        }
    }
}

/// Nothing but conversations changed.
pub open spec fn same_surroundings(next: AppModel, app: AppModel) -> bool {
    &&& next.threads.len() == app.threads.len()
    &&& next.active == app.active
    &&& next.mode == app.mode
    &&& next.next_history_id == app.next_history_id
    &&& next.command_edit_target == app.command_edit_target
}

proof fn lemma_active_job_started(app: AppModel, tools: Seq<ToolView>, now: u64)
    requires
        sound(app),
    ensures
        sound(app.active_job_started(tools, now).0),
        same_surroundings(app.active_job_started(tools, now).0, app),
{
    lemma_index_of_tab(app.threads, app.thread().tab_id);
    if let Some(at) = app.index_of_tab(app.thread().tab_id) {
        lemma_job_started(app, at, tools, now);
    }
}

proof fn lemma_followed(app: AppModel, after: AfterStart)
    requires
        sound(app),
    ensures
        sound(app.followed(after)),
        app.command_edit_target is None ==> app.followed(after).command_edit_target is None,
{
    match after {
        AfterStart::CloseCommand => lemma_command_mode_closed(app),
        AfterStart::WriteOn => lemma_writing_on(app),
        _ => {},
    }
}

proof fn lemma_followed_up(started: (AppModel, EffectModel), after: AfterStart)
    requires
        sound(started.0),
        started.0.command_edit_target is None,
    ensures
        orderly(followed_up(started, after).0),
{
    lemma_followed(started.0, after);
}

/// The conversation that is shown has other entries with numbers of their own,
/// and its settings are made anew.
pub(crate) proof fn lemma_history_replaced(app: AppModel, history: Seq<ItemModel>)
    requires
        sound(app),
        distinct(history),
        below(history, app.next_history_id as int),
        commands_marked(history),
        jobs_named(with_history(app.thread(), history), app.next_history_id as int),
    ensures
        sound(app.with_active(reconfigured(with_history(app.thread(), history)))),
{
    lemma_thread_changed(
        app,
        app.active as int,
        reconfigured(with_history(app.thread(), history)),
        0,
    );
}

pub(crate) proof fn lemma_next_of_family(
    history: Seq<ItemModel>,
    from: int,
    family: Option<CommandFamily>,
)
    requires
        0 <= from,
    ensures
        next_of_family(history, from, family) matches Some(next) ==> from <= next < history.len(),
    decreases history.len() - from,
{
    if from < history.len() && !in_family(history[from].meta, family) {
        lemma_next_of_family(history, from + 1, family);
    }
}

pub(crate) proof fn lemma_command_replayed(app: AppModel, at: int, kind: KindModel, now: u64)
    requires
        sound(app),
        0 <= at < app.thread().history.len(),
        app.next_history_id + app.thread().history.len() <= u64::MAX,
    ensures
        sound(app.command_replayed(at, kind, now)),
{
    let thread = app.thread();
    let history = thread.history;
    assert(tidy(thread, app.next_history_id as int));
    lemma_next_of_family(history, at + 1, kind.family());
    lemma_history_replaced(app, history);
    assert(with_history(thread, history) =~= thread);
    match next_of_family(history, at + 1, kind.family()) {
        Some(next) => if history[next].meta == MetaModel::Command(kind) {
            lemma_remove_keeps(history, next, app.next_history_id as int);
            lemma_history_replaced(app, history.remove(next));
            lemma_replay_queued(
                app.with_active(reconfigured(with_history(thread, history.remove(next)))),
                at + 1,
                history.len() - 1,
                now,
            );
        } else {
            lemma_replay_queued(app.with_active(reconfigured(thread)), at + 1, next, now);
        },
        None => lemma_replay_queued(
            app.with_active(reconfigured(thread)),
            at + 1,
            history.len() as int,
            now,
        ),
    }
}

/// An entry is replaced where it stands.
pub(crate) proof fn lemma_entry_replaced(app: AppModel, id: u64, entry: EntryModel, meta: MetaModel)
    requires
        sound(app),
        names_command(app.thread().history, id),
        meta is Command ==> commanded(entry),
    ensures
        ({
            let history = entry_replaced(app.thread().history, id, entry, meta);
            &&& sound(app.with_active(reconfigured(with_history(app.thread(), history))))
            &&& history.len() == app.thread().history.len()
            &&& index_of_id(history, id) matches Some(at) ==> 0 <= at < history.len()
        }),
{
    let before = app.thread().history;
    let history = entry_replaced(before, id, entry, meta);
    assert(tidy(app.thread(), app.next_history_id as int));
    lemma_index_of_id(before, id);
    lemma_index_of_id(history, id);
    assert forall|i: int| 0 <= i < history.len() implies (#[trigger] history[i]).id
        == before[i].id && (history[i].id != id ==> history[i] == before[i]) by {}
    assert forall|i: int, j: int| 0 <= i < j < history.len() implies (#[trigger] history[i]).id
        != (#[trigger] history[j]).id by {
        assert(before[i].id != before[j].id);
    }
    assert forall|i: int| 0 <= i < history.len() implies (#[trigger] history[i]).id
        < app.next_history_id by {
        assert(before[i].id < app.next_history_id);
    }
    assert forall|job: u64| #[trigger] names_turn(before, job) implies names_turn(
        history,
        job,
    ) by {
        assert forall|i: int|
            0 <= i < history.len() && (#[trigger] history[i]).id
                == job implies history[i].entry is Assistant by {
            assert(before[i].id == job);
        }
    }
    assert forall|i: int| 0 <= i < history.len() && (#[trigger] history[i]).meta is Command implies
    commanded(history[i].entry) by {
        assert(before[i].meta is Command ==> commanded(before[i].entry));
    }
    lemma_history_replaced(app, history);
}

proof fn lemma_command_entered(
    app: AppModel,
    entry: EntryModel,
    kind: KindModel,
    replay_affecting: bool,
    tools: Seq<ToolView>,
    now: u64,
)
    requires
        orderly(app),
        app.next_history_id + app.thread().history.len() < u64::MAX,
        commanded(entry),
    ensures
        orderly(app.command_entered(entry, kind, replay_affecting, tools, now).0),
{
    let meta = MetaModel::Command(kind);
    match app.command_edit_target {
        Some(id) => {
            let cleared = AppModel { command_edit_target: None, ..app };
            lemma_entry_replaced(cleared, id, entry, meta);
            let edited = reconfigured(
                with_history(
                    app.thread(),
                    entry_replaced(app.thread().history, id, entry, meta),
                ),
            );
            let next = cleared.with_active(edited);
            assert(next.thread() == edited);
            lemma_command_mode_closed(next);
            if let Some(at) = index_of_id(edited.history, id) {
                if replay_affecting {
                    lemma_command_replayed(next, at, kind, now);
                    let replayed = next.command_replayed(at, kind, now);
                    lemma_active_job_started(replayed, tools, now);
                    lemma_followed_up(
                        replayed.active_job_started(tools, now),
                        AfterStart::CloseCommand,
                    );
                }
            }
        },
        None => {
            lemma_entry_added(app, entry, meta);
            let added = app.entry_added(entry, meta);
            lemma_command_mode_closed(added.with_active(reconfigured(added.thread())));
        },
    }
}

proof fn lemma_break_entered(app: AppModel, tools: Seq<ToolView>, now: u64)
    requires
        orderly(app),
        app.next_history_id + app.thread().history.len() < u64::MAX,
    ensures
        orderly(app.break_entered(tools, now).0),
{
    match app.command_edit_target {
        Some(id) => {
            let cleared = AppModel { command_edit_target: None, ..app };
            lemma_entry_replaced(cleared, id, EntryModel::Break, MetaModel::Plain);
            let edited = reconfigured(
                with_history(
                    app.thread(),
                    entry_replaced(
                        app.thread().history,
                        id,
                        EntryModel::Break,
                        MetaModel::Plain,
                    ),
                ),
            );
            let next = cleared.with_active(edited);
            assert(next.thread() == edited);
            lemma_command_mode_closed(next);
            if let Some(at) = index_of_id(edited.history, id) {
                lemma_replay_queued(next, at, edited.history.len() as int, now);
                let replayed = next.replay_queued(at, edited.history.len() as int, now);
                lemma_active_job_started(replayed, tools, now);
                lemma_followed_up(
                    replayed.active_job_started(tools, now),
                    AfterStart::CloseCommand,
                );
            }
        },
        None => {
            lemma_entry_added(app, EntryModel::Break, MetaModel::Plain);
            lemma_command_mode_closed(app.entry_added(EntryModel::Break, MetaModel::Plain));
        },
    }
}

proof fn lemma_inline_command_opened(app: AppModel, position: InlinePosition)
    requires
        sound(app),
        app.settled(),
        app.next_history_id < u64::MAX,
    ensures
        orderly(app.inline_command_opened(position)),
{
    let thread = app.thread();
    if let Some(selected) = thread.selected {
        let at = match position {
            InlinePosition::Before => selected as int,
            InlinePosition::After => selected + 1,
        };
        let item = ItemModel {
            id: app.next_history_id,
            entry: EntryModel::Command { raw: Seq::empty(), result: Seq::empty() },
            meta: MetaModel::Plain,
        };
        let placed = ThreadModel {
            history: thread.history.insert(at, item),
            selected: Some(at as usize),
            ..thread
        };
        lemma_entry_inserted(app, placed, at, item);
        assert(tidy(thread, app.next_history_id as int));
        assert(names_command(placed.history, item.id)) by {
            assert forall|i: int|
                0 <= i < placed.history.len() && (#[trigger] placed.history[i]).id
                    == item.id implies commanded(placed.history[i].entry) by {
                if i < at {
                    assert(placed.history[i] == thread.history[i]);
                } else if i > at {
                    assert(placed.history[i] == thread.history[i - 1]);
                }
            }
        }
    }
}

proof fn lemma_tab_renamed(app: AppModel, target: TargetView, new_name: Seq<char>)
    requires
        orderly(app),
    ensures
        orderly(app.tab_renamed(target, new_name)),
{
    lemma_target_index(app.threads, target);
    if let Some(at) = target_index(app.threads, target) {
        let named = ThreadModel { name_override: Some(trimmed(new_name)), ..app.threads[at] };
        lemma_thread_touched(app, at, named);
        lemma_command_mode_closed(app.with_thread(at, named));
    }
}

proof fn lemma_first_label(labels: Seq<Seq<char>>, name: Seq<char>)
    ensures
        first_label(labels, name) matches Some(at) ==> 0 <= at < labels.len(),
    decreases labels.len(),
{
    if labels.len() > 0 && labels[0] != name {
        lemma_first_label(labels.drop_first(), name);
    }
}

pub(crate) proof fn lemma_target_index(threads: Seq<ThreadModel>, target: TargetView)
    ensures
        target_index(threads, target) matches Some(at) ==> 0 <= at < threads.len(),
{
    match target {
        TargetView::Id(id) => lemma_index_of_tab(threads, id),
        TargetView::Name(name) => lemma_first_label(labels_of(threads), name),
    }
}

proof fn lemma_tab_killed(app: AppModel, target: TargetView)
    requires
        orderly(app),
    ensures
        orderly(app.tab_killed(target).0),
{
    lemma_target_index(app.threads, target);
    if app.threads.len() > 1 {
        if let Some(at) = target_index(app.threads, target) {
            let fewer = AppModel { threads: app.threads.remove(at), ..app };
            let before = |k: int|
                if k < at {
                    k
                } else {
                    k + 1
                };
            assert forall|i: int| 0 <= i < fewer.threads.len() implies #[trigger] fewer.threads[i]
                == app.threads[before(i)] by {}
            if app.active < fewer.threads.len() {
                lemma_fewer_threads(app, at, fewer);
                lemma_activated(fewer, app.active as int);
                lemma_command_mode_closed(fewer.activated(app.active as int));
            } else {
                // The last conversation was shown: the one before it is shown now.
                let last = AppModel { active: (fewer.threads.len() - 1) as usize, ..fewer };
                lemma_fewer_threads(app, at, last);
                lemma_activated(last, app.active as int);
                assert(last.activated(app.active as int) =~= fewer.activated(app.active as int));
                lemma_command_mode_closed(fewer.activated(app.active as int));
            }
        }
    }
}

proof fn lemma_fewer_threads(app: AppModel, at: int, fewer: AppModel)
    requires
        sound(app),
        0 <= at < app.threads.len(),
        fewer.threads == app.threads.remove(at),
        fewer.active < fewer.threads.len(),
        fewer.palette == app.palette,
        fewer.next_history_id == app.next_history_id,
        fewer.next_tab_id == app.next_tab_id,
    ensures
        sound(fewer),
{
    let before = |k: int|
        if k < at {
            k
        } else {
            k + 1
        };
    assert forall|i: int| 0 <= i < fewer.threads.len() implies #[trigger] fewer.threads[i]
        == app.threads[before(i)] by {}
    assert forall|i: int, j: int| 0 <= i < j < fewer.threads.len() implies (
    #[trigger] fewer.threads[i]).tab_id != (#[trigger] fewer.threads[j]).tab_id by {
        assert(app.threads[before(i)].tab_id != app.threads[before(j)].tab_id);
    }
    assert forall|i: int| 0 <= i < fewer.threads.len() implies (#[trigger] fewer.threads[i]).tab_id
        < fewer.next_tab_id && tidy(fewer.threads[i], fewer.next_history_id as int) by {
        assert(tidy(app.threads[before(i)], app.next_history_id as int));
        assert(app.threads[before(i)].tab_id < app.next_tab_id);
    }
}

proof fn lemma_executed(
    app: AppModel,
    dispatch: DispatchView,
    configs: Seq<ConfigView>,
    tools: Seq<ToolView>,
    now: u64,
)
    requires
        orderly(app),
        app.mode == Mode::Command,
        app.settled(),
        app.next_history_id + app.thread().history.len() < u64::MAX,
    ensures
        orderly(app.executed(dispatch, configs, tools, now).0),
{
    match dispatch {
        DispatchView::OpenCommandAfter => lemma_inline_command_opened(app, InlinePosition::After),
        DispatchView::OpenCommandBefore => lemma_inline_command_opened(
            app,
            InlinePosition::Before,
        ),
        DispatchView::ListModels => lemma_command_entered(
            app,
            EntryModel::Command {
                raw: "model ls"@,
                result: lines_joined(config_ids(configs)),
            },
            KindModel::ModelList,
            false,
            tools,
            now,
        ),
        DispatchView::SwitchModel(model_id) => lemma_model_switched(app, model_id, tools, now),
        DispatchView::SetToolsEnabled(enabled) => lemma_command_entered(
            app,
            if enabled {
                EntryModel::Command {
                    raw: "tools enable"@,
                    result: "tools prompt is now enabled"@,
                }
            } else {
                EntryModel::Command {
                    raw: "tools disable"@,
                    result: "tools prompt is now disabled"@,
                }
            },
            KindModel::Tools(enabled),
            true,
            tools,
            now,
        ),
        DispatchView::Break => lemma_break_entered(app, tools, now),
        DispatchView::ActivateTab(target) => {
            lemma_target_index(app.threads, target);
            if let Some(at) = target_index(app.threads, target) {
                lemma_activated(app, at);
                lemma_command_mode_closed(app.activated(at));
            }
        },
        DispatchView::RenameTab { target, new_name } => lemma_tab_renamed(app, target, new_name),
        DispatchView::KillTab(target) => lemma_tab_killed(app, target),
        _ => {},
    }
}

proof fn lemma_model_switched(app: AppModel, model_id: Seq<char>, tools: Seq<ToolView>, now: u64)
    requires
        orderly(app),
        app.next_history_id + app.thread().history.len() < u64::MAX,
    ensures
        orderly(app.model_switched(model_id, tools, now).0),
{
    lemma_command_entered(
        app,
        EntryModel::Command {
            raw: "model "@ + model_id,
            result: "active model: "@ + model_id,
        },
        KindModel::Model(model_id),
        true,
        tools,
        now,
    );
}

proof fn lemma_writing_on(app: AppModel)
    requires
        sound(app),
    ensures
        sound(app.writing_on()),
{
    lemma_thread_touched(
        app,
        app.active as int,
        ThreadModel { compose_target: ComposeTarget::AppendBottom, ..app.thread() },
    );
}

pub(crate) proof fn lemma_prompt_edited(app: AppModel, id: u64, prompt: Seq<char>, now: u64)
    requires
        sound(app),
        app.next_history_id + app.thread().history.len() <= u64::MAX,
    ensures
        app.prompt_edited(id, prompt, now) matches Some(next) ==> sound(next),
{
    let thread = app.thread();
    lemma_index_of_id(thread.history, id);
    if let Some(at) = index_of_id(thread.history, id) {
        let change = |turn: TurnModel| TurnModel { prompt, ..turn_waiting(turn, now) };
        let history = turn_changed(thread.history, id, change);
        lemma_turn_changed_marks(thread.history, id, change);
        let edited = ThreadModel {
            history,
            selected: Some(at as usize),
            queue: Seq::empty(),
            ..thread
        };
        lemma_thread_touched(app, app.active as int, edited);
        let next = app.with_active(edited);
        assert(next.thread() == edited);
        lemma_replay_queued(next, at, thread.history.len() as int, now);
    }
}

pub(crate) proof fn lemma_turn_queued(app: AppModel, id: u64, now: u64)
    requires
        sound(app),
        app.next_history_id < u64::MAX,
    ensures
        app.turn_queued(id, now) matches Some(next) ==> sound(next),
{
    let thread = app.thread();
    lemma_index_of_id(thread.history, id);
    assert(tidy(thread, app.next_history_id as int));
    if let Some(at) = index_of_id(thread.history, id) {
        if let EntryModel::Assistant(turn) = thread.history[at].entry {
            let next = app.turn_queued(id, now).unwrap();
            let after = next.threads[app.active as int];
            if thread.loaded_models.contains(turn.model_id) {
                lemma_thread_changed(app, app.active as int, after, 1);
            } else {
                let status = ModelLoadStatus::Loading { started_at: now };
                let inserted = loading_inserted(
                    thread.history,
                    thread.loaded_models,
                    at,
                    app.next_history_id,
                    now,
                );
                lemma_loading_set_marks(inserted, turn.model_id, status);
                let item = loading_item(app.next_history_id, turn.model_id, now);
                if inserted != thread.history {
                    lemma_insert_keeps(thread.history, at, item, app.next_history_id + 1);
                    lemma_insert_keeps_config(thread.base_config, thread.history, at, item);
                }
                lemma_same_marks_keep(after.history, inserted, app.next_history_id + 1);
                lemma_same_config(thread.base_config, after.history, inserted);
                lemma_thread_changed(app, app.active as int, after, 1);
            }
        }
    }
}

proof fn lemma_prompt_sent(app: AppModel, prompt: Seq<char>, tools: Seq<ToolView>, now: u64)
    requires
        sound(app),
        app.next_history_id + app.thread().history.len() + 1 < u64::MAX,
        app.command_edit_target is None,
    ensures
        orderly(app.prompt_sent(prompt, tools, now).0),
{
    let thread = app.thread();
    match thread.compose_target {
        ComposeTarget::EditEntry(id) => {
            lemma_prompt_edited(app, id, prompt, now);
            lemma_writing_on(app);
            if let Some(next) = app.prompt_edited(id, prompt, now) {
                lemma_active_job_started(next, tools, now);
                lemma_followed_up(next.active_job_started(tools, now), AfterStart::WriteOn);
            }
        },
        ComposeTarget::AppendBottom => {
            let item = new_turn(
                app.next_history_id,
                thread.current_config.model_id,
                prompt,
                Some(AssistantStatus::Queued { started_at: now }),
            );
            let end = thread.history.len() as int;
            assert(thread.history.push(item) =~= thread.history.insert(end, item));
            lemma_entry_inserted(
                app,
                ThreadModel { history: thread.history.push(item), selected: None, ..thread },
                end,
                item,
            );
            let added = app.prompt_added(prompt, now);
            lemma_turn_queued(added, app.next_history_id, now);
            lemma_writing_on(added);
            if let Some(next) = added.turn_queued(app.next_history_id, now) {
                lemma_active_job_started(next, tools, now);
                lemma_followed_up(next.active_job_started(tools, now), AfterStart::WriteOn);
            }
        },
    }
}

proof fn lemma_insert_key(app: AppModel, press: KeyPress, tools: Seq<ToolView>, now: u64)
    requires
        orderly(app),
        app.mode == Mode::Insert,
        app.next_history_id + app.thread().history.len() + 1 < u64::MAX,
    ensures
        orderly(app.insert_key(press, tools, now).0),
{
    let thread = app.thread();
    let active = app.active as int;
    match press.key {
        Key::Esc => lemma_thread_touched(app, active, writing_given_up(thread)),
        Key::Enter => {
            let cleared = ThreadModel { draft: Seq::empty(), ..thread };
            lemma_thread_touched(app, active, cleared);
            assert(app.with_active(cleared).thread() == cleared);
            lemma_prompt_sent(app.with_active(cleared), trimmed(thread.draft), tools, now);
        },
        Key::Backspace => {
            lemma_thread_touched(app, active, app.insert_key(press, tools, now).0.threads[active]);
        },
        Key::Char(ch) => lemma_thread_touched(
            app,
            active,
            ThreadModel { draft: thread.draft.push(ch), ..thread },
        ),
        _ => {},
    }
}

proof fn lemma_selection_moved(app: AppModel, delta: int)
    requires
        sound(app),
    ensures
        sound(app.selection_moved(delta)),
{
    lemma_thread_touched(
        app,
        app.active as int,
        app.selection_moved(delta).threads[app.active as int],
    );
}

proof fn lemma_inline_compose_opened(app: AppModel, position: InlinePosition)
    requires
        sound(app),
        app.settled(),
        app.next_history_id < u64::MAX,
    ensures
        sound(app.inline_compose_opened(position)),
{
    lemma_footer_opened(app);
    let thread = app.thread();
    if let Some(selected) = thread.selected {
        let at = match position {
            InlinePosition::Before => selected as int,
            InlinePosition::After => selected + 1,
        };
        if !(position == InlinePosition::After && at >= thread.history.len()) {
            let item = new_turn(
                app.next_history_id,
                thread.current_config.model_id,
                Seq::empty(),
                None,
            );
            lemma_entry_inserted(
                app,
                ThreadModel {
                    history: thread.history.insert(at, item),
                    selected: Some(at as usize),
                    compose_target: ComposeTarget::EditEntry(app.next_history_id),
                    draft: Seq::empty(),
                    ..thread
                },
                at,
                item,
            );
        }
    }
}

proof fn lemma_normal_key(app: AppModel, press: KeyPress)
    requires
        orderly(app),
        app.mode == Mode::Normal,
        app.settled(),
        app.next_history_id < u64::MAX,
    ensures
        orderly(app.normal_key(press).0),
{
    lemma_footer_opened(app);
    lemma_inline_compose_opened(app, InlinePosition::Before);
    lemma_inline_compose_opened(app, InlinePosition::After);
    lemma_selection_moved(app, 1);
    lemma_selection_moved(app, -1);
    lemma_cycled(app, 1);
    lemma_cycled(app, -1);
    let edited = app.selection_edited();
    lemma_thread_touched(app, app.active as int, edited.threads[app.active as int]);
    assert(edited.threads =~= app.with_active(edited.threads[app.active as int]).threads);
    assert(sound(edited));
    let thread = app.thread();
    assert(tidy(thread, app.next_history_id as int));
    if let Some(at) = selected_of(thread.history.len(), thread.selected) {
        let item = thread.history[at as int];
        if commanded(item.entry) {
            assert forall|i: int|
                0 <= i < thread.history.len() && (#[trigger] thread.history[i]).id
                    == item.id implies commanded(thread.history[i].entry) by {
                if i != at {
                    assert(thread.history[i].id != thread.history[at as int].id);
                }
            }
        }
    }
    assert(orderly(edited));
}

proof fn lemma_inline_command_cancelled(app: AppModel)
    requires
        sound(app),
    ensures
        sound(app.inline_command_cancelled()),
{
    if let Some((id, anchor)) = app.inline_command_placeholder {
        let thread = app.thread();
        assert(tidy(thread, app.next_history_id as int));
        lemma_index_of_id(thread.history, id);
        if let Some(at) = index_of_id(thread.history, id) {
            lemma_remove_keeps(thread.history, at, app.next_history_id as int);
            let next = app.inline_command_cancelled();
            lemma_thread_changed(app, app.active as int, next.threads[app.active as int], 0);
            assert(next.threads =~= app.with_active(next.threads[app.active as int]).threads);
        }
    }
}

proof fn lemma_command_key(
    app: AppModel,
    press: KeyPress,
    configs: Seq<ConfigView>,
    tools: Seq<ToolView>,
    now: u64,
)
    requires
        orderly(app),
        app.mode == Mode::Command,
        app.settled(),
        app.next_history_id + app.thread().history.len() < u64::MAX,
    ensures
        orderly(app.command_key(press, configs, tools, now).0),
{
    lemma_inline_command_cancelled(app);
    if press.key == Key::Enter {
        let (palette, committed) = app.palette.committed();
        if let Ok(CommitView::Execute(dispatch)) = committed {
            lemma_executed(AppModel { palette, ..app }, dispatch, configs, tools, now);
        }
    }
}

proof fn lemma_entry_deleted(app: AppModel, id: u64, tools: Seq<ToolView>, now: u64)
    requires
        sound(app),
        app.command_edit_target is None,
        app.next_history_id + app.thread().history.len() <= u64::MAX,
    ensures
        orderly(app.entry_deleted(id, tools, now).0),
        app.entry_deleted(id, tools, now).0.command_edit_target is None,
{
    let thread = app.thread();
    assert(tidy(thread, app.next_history_id as int));
    lemma_index_of_id(thread.history, id);
    if let Some(at) = index_of_id(thread.history, id) {
        let without_loading = if at + 1 < thread.history.len() && thread.history[at
            + 1].entry is LoadingModel {
            lemma_remove_keeps(thread.history, at + 1, app.next_history_id as int);
            thread.history.remove(at + 1)
        } else {
            thread.history
        };
        lemma_remove_keeps(without_loading, at, app.next_history_id as int);
        lemma_history_replaced(app, without_loading.remove(at));
        let shorter = reconfigured(with_history(thread, without_loading.remove(at)));
        let next = app.with_active(shorter);
        assert(next.thread() == shorter);
        lemma_replay_queued(next, at, shorter.history.len() as int, now);
        lemma_active_job_started(
            next.replay_queued(at, shorter.history.len() as int, now),
            tools,
            now,
        );
    }
}

proof fn lemma_filter_contained(queue: Seq<ThreadJob>, keep: spec_fn(ThreadJob) -> bool)
    ensures
        forall|k: int|
            0 <= k < queue.filter(keep).len() ==> queue.contains(
                #[trigger] queue.filter(keep)[k],
            ),
    decreases queue.len(),
{
    reveal(Seq::filter);
    if queue.len() > 0 {
        let rest = queue.drop_last();
        lemma_filter_contained(rest, keep);
        assert forall|k: int| 0 <= k < queue.filter(keep).len() implies queue.contains(
            #[trigger] queue.filter(keep)[k],
        ) by {
            if k < rest.filter(keep).len() {
                assert(rest.contains(rest.filter(keep)[k]));
                let was = rest.index_of(rest.filter(keep)[k]);
                assert(queue[was] == queue.filter(keep)[k]);
            } else {
                assert(queue[queue.len() - 1] == queue.filter(keep)[k]);
            }
        }
    }
}

proof fn lemma_interrupt_asked(app: AppModel)
    requires
        orderly(app),
    ensures
        orderly(app.interrupt_asked().0),
{
    if let Some((id, sequence_number)) = app.interrupt_target() {
        let thread = app.thread();
        let active = app.active as int;
        let next = app.turn_cancelled(id);
        let after = next.threads[active];
        assert(tidy(thread, app.next_history_id as int));
        assert(names_turn(thread.history, id));
        let other = |job: ThreadJob| job.assistant_entry_id != id;
        assert forall|k: int| 0 <= k < after.queue.len() implies thread.queue.contains(
            #[trigger] after.queue[k],
        ) by {
            lemma_filter_contained(thread.queue, other);
        }
        lemma_index_of_id(thread.history, id);
        if let Some(at) = index_of_id(thread.history, id) {
            lemma_remove_keeps(thread.history, at, app.next_history_id as int);
            lemma_remove_keeps_config(thread.base_config, thread.history, at);
            assert forall|k: int| 0 <= k < after.queue.len() implies names_turn(
                after.history,
                (#[trigger] after.queue[k]).assistant_entry_id,
            ) && after.queue[k].assistant_entry_id < app.next_history_id by {
                let was = thread.queue.index_of(after.queue[k]);
                assert(names_turn(thread.history, thread.queue[was].assistant_entry_id));
            }
            lemma_thread_changed(app, active, after, 0);
            if let Some(edited) = app.command_edit_target {
                assert(names_command(thread.history, edited));
            }
        } else {
            lemma_thread_touched(app, active, after);
        }
    }
}

proof fn lemma_key_pressed(
    app: AppModel,
    press: KeyPress,
    configs: Seq<ConfigView>,
    tools: Seq<ToolView>,
    now: u64,
)
    requires
        orderly(app),
        app.settled(),
        app.next_history_id + app.thread().history.len() + 1 < u64::MAX,
    ensures
        orderly(app.key_pressed(press, configs, tools, now).0),
{
    lemma_interrupt_asked(app);
    lemma_cycled(app, -1);
    lemma_cycled(app, 1);
    match app.mode {
        Mode::Insert => lemma_insert_key(app, press, tools, now),
        Mode::Normal => lemma_normal_key(app, press),
        Mode::Command => lemma_command_key(app, press, configs, tools, now),
        Mode::ConfirmDelete => {
            if let Some(id) = app.delete_target_id {
                let confirmed = AppModel { delete_target_id: None, ..app };
                lemma_entry_deleted(confirmed, id, tools, now);
                lemma_followed_up(
                    confirmed.entry_deleted(id, tools, now),
                    AfterStart::EndDeletion,
                );
            }
        },
    }
}

/// The program starts in order.
pub proof fn program_starts_in_order(
    model_ids: Seq<Seq<char>>,
    model_id: Seq<char>,
    tools_enabled: bool,
)
    ensures
        orderly(AppModel::started(model_ids, model_id, tools_enabled)),
{
    let app = AppModel::started(model_ids, model_id, tools_enabled);
    assert(tidy(app.threads[0], 1));
}

/// Whatever the user does, the program stays in order.
pub proof fn input_keeps_order(
    app: AppModel,
    event: InputEvent,
    configs: Seq<ConfigView>,
    tools: Seq<ToolView>,
    now: u64,
)
    requires
        orderly(app),
        app.settled(),
        app.has_room(),
    ensures
        orderly(app.input_taken(event, configs, tools, now).0),
{
    assert(app.threads[app.active as int] == app.thread());
    let ready = AppModel { palette: app.palette.completing(config_ids(configs)), ..app };
    match event {
        InputEvent::Key(press) => lemma_key_pressed(ready, press, configs, tools, now),
        InputEvent::Mouse(motion) => {
            lemma_selection_moved(ready, -1);
            lemma_selection_moved(ready, 1);
        },
        InputEvent::Other => {},
    }
}

/// A conversation has other entries with the same numbers.
proof fn lemma_entries_touched(app: AppModel, at: int, thread: ThreadModel)
    requires
        orderly(app),
        0 <= at < app.threads.len(),
        thread.tab_id == app.threads[at].tab_id,
        thread.base_config == app.threads[at].base_config,
        thread.current_config == app.threads[at].current_config,
        same_marks(thread.history, app.threads[at].history),
        same_jobs(thread, app.threads[at]),
    ensures
        orderly(app.with_thread(at, thread)),
{
    lemma_thread_touched(app, at, thread);
    assert(tidy(app.threads[at], app.next_history_id as int));
    lemma_same_marks_keep(thread.history, app.threads[at].history, app.next_history_id as int);
    if let Some(id) = app.command_edit_target {
        assert(names_command(app.thread().history, id));
    }
}

proof fn lemma_marked(app: AppModel, at: int)
    requires
        orderly(app),
        0 <= at < app.threads.len(),
    ensures
        orderly(app.marked(at)),
{
    lemma_entries_touched(
        app,
        at,
        ThreadModel { has_unseen_changes: true, ..app.threads[at] },
    );
}

proof fn lemma_next_started(app: AppModel, at: int, tools: Seq<ToolView>, now: u64)
    requires
        orderly(app),
        0 <= at < app.threads.len(),
    ensures
        orderly(app.idle(at).next_started(at, tools, now).0),
{
    let thread = ThreadModel {
        running_job: false,
        running_assistant_id: None,
        ..app.threads[at]
    };
    lemma_entries_touched(app, at, thread);
    let idle = app.idle(at);
    lemma_job_started(idle, at, tools, now);
    lemma_target_kept(idle, idle.job_started(at, tools, now).0);
}

/// What is edited stays a command where entries keep their numbers.
proof fn lemma_target_kept(app: AppModel, next: AppModel)
    requires
        orderly(app),
        sound(next),
        same_surroundings(next, app),
        forall|i: int|
            0 <= i < app.threads.len() ==> same_marks(
                (#[trigger] next.threads[i]).history,
                app.threads[i].history,
            ),
    ensures
        orderly(next),
{
    let active = app.active as int;
    assert(tidy(app.threads[active], app.next_history_id as int));
    lemma_same_marks_keep(
        next.threads[active].history,
        app.threads[active].history,
        app.next_history_id as int,
    );
    if let Some(id) = app.command_edit_target {
        assert(names_command(app.thread().history, id));
    }
}

proof fn lemma_status_heard(app: AppModel, at: int, id: u64, status: StatusView, now: u64)
    requires
        orderly(app),
        0 <= at < app.threads.len(),
    ensures
        orderly(app.status_heard(at, id, status, now)),
{
    lemma_marked(app, at);
    let marked = app.marked(at);
    let history = marked.threads[at].history;
    if let Some(model_id) = turn_model_id(history, id) {
        let after = app.status_heard(at, id, status, now).threads[at];
        let (load, step) = match status {
            StatusView::Queued { .. } => (
                None,
                AssistantStatus::Queued { started_at: now },
            ),
            StatusView::Loading { .. } => (
                Some(ModelLoadStatus::Loading { started_at: now }),
                AssistantStatus::Loading { started_at: now },
            ),
            StatusView::Generating { .. } => (
                Some(ModelLoadStatus::Loaded),
                AssistantStatus::Generating { started_at: now },
            ),
        };
        let loading = match load {
            Some(load) => loading_set(history, model_id, load),
            None => history,
        };
        if let Some(load) = load {
            lemma_loading_set_marks(history, model_id, load);
        }
        let change = |turn: TurnModel| TurnModel { status: Some(step), ..turn };
        lemma_turn_changed_marks(loading, id, change);
        assert(after.history == turn_changed(loading, id, change));
        lemma_entries_touched(marked, at, after);
    }
}

/// Whatever is heard of a turn, the program stays in order.
pub proof fn answers_keep_order(app: AppModel, event: JobModel, tools: Seq<ToolView>, now: u64)
    requires
        orderly(app),
        app.has_room(),
        app.index_of_tab(event.tab_id()) matches Some(at) ==> names_turn(
            app.threads[at].history,
            event.turn_id(),
        ),
    ensures
        orderly(app.job_heard(event, tools, now).0),
{
    lemma_index_of_tab(app.threads, event.tab_id());
    if let Some(at) = app.index_of_tab(event.tab_id()) {
        let thread = app.threads[at];
        let history = thread.history;
        let marked = app.marked(at);
        assert(tidy(thread, app.next_history_id as int));
        lemma_marked(app, at);
        match event {
            JobModel::Status { assistant_entry_id, status, .. } => lemma_status_heard(
                app,
                at,
                assistant_entry_id,
                status,
                now,
            ),
            JobModel::Chunk { assistant_entry_id: id, markdown, .. } => {
                let change = |turn: TurnModel| answering(turn, markdown.blocks);
                let note = |turn: TurnModel|
                    TurnModel {
                        callouts: tool_noted(turn.callouts, markdown.tool_call_detected),
                        ..turn
                    };
                let changed = turn_changed(history, id, change);
                lemma_turn_changed_marks(history, id, change);
                lemma_turn_changed_marks(changed, id, note);
                lemma_entries_touched(
                    marked,
                    at,
                    with_history(marked.threads[at], turn_changed(changed, id, note)),
                );
            },
            JobModel::Complete { assistant_entry_id: id, markdown, callouts, .. } => {
                let noted = if markdown.tool_call_detected {
                    seq!["tool called"@] + callouts
                } else {
                    callouts
                };
                let change = |turn: TurnModel| answered(turn, markdown.blocks, noted);
                let changed = turn_changed(history, id, change);
                lemma_turn_changed_marks(history, id, change);
                let touched = with_history(marked.threads[at], changed);
                lemma_entries_touched(marked, at, touched);
                lemma_next_started(marked.with_thread(at, touched), at, tools, now);
            },
            JobModel::Interrupted { assistant_entry_id: id, markdown, .. } => {
                lemma_interrupted(app, at, id, markdown);
                lemma_next_started(
                    marked.with_entries(
                        at,
                        tool_note_set(
                            interrupted(history, id, markdown.blocks),
                            id,
                            markdown.tool_call_detected,
                        ),
                    ),
                    at,
                    tools,
                    now,
                );
            },
            JobModel::Error { assistant_entry_id: id, error, .. } => {
                lemma_failed(marked, at, id, error);
                let change = |turn: TurnModel| answered(turn, Seq::empty(), Seq::empty());
                lemma_next_started(
                    marked.with_entries(
                        at,
                        turn_changed(history, id, change).push(
                            ItemModel {
                                id: app.next_history_id,
                                entry: EntryModel::SystemNotice(error),
                                meta: MetaModel::Plain,
                            },
                        ),
                    ).ids_taken(1),
                    at,
                    tools,
                    now,
                );
            },
        }
    }
}

proof fn lemma_interrupted(app: AppModel, at: int, id: u64, markdown: MarkdownModel)
    requires
        orderly(app),
        0 <= at < app.threads.len(),
        names_turn(app.threads[at].history, id),
    ensures
        orderly(
            app.marked(at).with_entries(
                at,
                tool_note_set(
                    interrupted(app.threads[at].history, id, markdown.blocks),
                    id,
                    markdown.tool_call_detected,
                ),
            ),
        ),
{
    let thread = app.threads[at];
    let history = thread.history;
    let bound = app.next_history_id as int;
    let marked = app.marked(at);
    lemma_marked(app, at);
    assert(tidy(thread, bound));
    let note = |turn: TurnModel|
        TurnModel { callouts: tool_noted(turn.callouts, markdown.tool_call_detected), ..turn };
    let ended = interrupted(history, id, markdown.blocks);
    lemma_turn_changed_marks(ended, id, note);
    let after = with_history(marked.threads[at], turn_changed(ended, id, note));
    lemma_index_of_id(history, id);
    if markdown.blocks.len() == 0 && index_of_id(history, id) is Some {
        let place = index_of_id(history, id).unwrap();
        lemma_remove_keeps(history, place, bound);
        lemma_remove_keeps_config(thread.base_config, history, place);
        lemma_same_marks_keep(after.history, ended, bound);
        lemma_same_config(thread.base_config, after.history, ended);
        assert forall|k: int| 0 <= k < after.queue.len() implies names_turn(
            after.history,
            (#[trigger] after.queue[k]).assistant_entry_id,
        ) && after.queue[k].assistant_entry_id < bound by {
            assert(names_turn(history, thread.queue[k].assistant_entry_id));
            assert(names_turn(ended, thread.queue[k].assistant_entry_id));
        }
        if let Some(running) = after.running_assistant_id {
            assert(names_turn(history, running));
            assert(names_turn(ended, running));
        }
        lemma_thread_changed(marked, at, after, 0);
        if let Some(edited) = app.command_edit_target {
            assert(names_command(app.thread().history, edited));
            if at == app.active {
                assert(names_command(history, edited));
                assert(names_command(ended, edited));
            }
        }
    } else {
        if markdown.blocks.len() > 0 {
            lemma_turn_changed_marks(
                history,
                id,
                |turn: TurnModel| answered(turn, markdown.blocks, Seq::empty()),
            );
        }
        lemma_entries_touched(marked, at, after);
    }
}

proof fn lemma_failed(app: AppModel, at: int, id: u64, error: Seq<char>)
    requires
        orderly(app),
        0 <= at < app.threads.len(),
        app.next_history_id < u64::MAX,
    ensures
        orderly(
            app.with_entries(
                at,
                turn_changed(
                    app.threads[at].history,
                    id,
                    |turn: TurnModel| answered(turn, Seq::empty(), Seq::empty()),
                ).push(
                    ItemModel {
                        id: app.next_history_id,
                        entry: EntryModel::SystemNotice(error),
                        meta: MetaModel::Plain,
                    },
                ),
            ).ids_taken(1),
        ),
{
    let thread = app.threads[at];
    let history = thread.history;
    let bound = app.next_history_id + 1;
    assert(tidy(thread, app.next_history_id as int));
    let change = |turn: TurnModel| answered(turn, Seq::empty(), Seq::empty());
    let changed = turn_changed(history, id, change);
    let end = changed.len() as int;
    let item = ItemModel {
        id: app.next_history_id,
        entry: EntryModel::SystemNotice(error),
        meta: MetaModel::Plain,
    };
    lemma_turn_changed_marks(history, id, change);
    lemma_same_marks_keep(changed, history, app.next_history_id as int);
    lemma_same_config(thread.base_config, changed, history);
    assert(changed.push(item) =~= changed.insert(end, item));
    lemma_insert_keeps(changed, end, item, bound);
    lemma_insert_keeps_config(thread.base_config, changed, end, item);
    let after = with_history(thread, changed.push(item));
    assert forall|k: int| 0 <= k < after.queue.len() implies names_turn(
        after.history,
        (#[trigger] after.queue[k]).assistant_entry_id,
    ) && after.queue[k].assistant_entry_id < bound by {
        assert(names_turn(history, thread.queue[k].assistant_entry_id));
        assert(names_turn(changed, thread.queue[k].assistant_entry_id));
    }
    if let Some(running) = after.running_assistant_id {
        assert(names_turn(history, running));
        assert(names_turn(changed, running));
    }
    lemma_thread_changed(app, at, after, 1);
    if let Some(edited) = app.command_edit_target {
        assert(names_command(app.thread().history, edited));
        if at == app.active {
            assert(names_command(changed, edited));
        }
    }
}

/// The program stays in order when a turn goes on after its connection was opened,
/// or could not be had.
pub proof fn opened_job_keeps_order(
    app: AppModel,
    at: int,
    job: ThreadJob,
    turn: TurnRequestModel,
    after: AfterStart,
    opened: Result<(), Seq<char>>,
    now: u64,
)
    requires
        orderly(app),
        0 <= at < app.threads.len(),
        after != AfterStart::Nothing ==> app.command_edit_target is None,
    ensures
        orderly(app.job_resumed(at, job, turn, after, opened, now).0),
{
    let model_id = turn.config.model_id;
    let linked = app.connected(at, model_id);
    lemma_entries_touched(app, at, linked.threads[at]);
    lemma_stream_prepared(linked, at, model_id, now);
    lemma_loading_set_marks(
        linked.threads[at].history,
        model_id,
        ModelLoadStatus::Loading { started_at: now },
    );
    let prepared = linked.stream_prepared(at, model_id, now);
    lemma_target_kept(linked, prepared);
    lemma_followed(prepared, after);
}

/// The program stays in order when a model answers a turn, or does not.
pub proof fn begun_answer_keeps_order(
    app: AppModel,
    at: int,
    job: ThreadJob,
    answer: Result<u64, Seq<char>>,
)
    requires
        orderly(app),
        0 <= at < app.threads.len(),
        names_turn(app.threads[at].history, job.assistant_entry_id),
        job.assistant_entry_id < app.next_history_id,
    ensures
        orderly(app.stream_answered(at, job, answer).0),
{
    let thread = app.threads[at];
    let bound = app.next_history_id as int;
    assert(tidy(thread, bound));
    let next = app.stream_answered(at, job, answer).0;
    let after = next.threads[at];
    if let Ok(sequence_number) = answer {
        let change = |turn: TurnModel|
            TurnModel { sequence_number: Some(sequence_number), ..turn };
        lemma_turn_changed_marks(thread.history, job.assistant_entry_id, change);
    }
    assert(same_marks(after.history, thread.history));
    lemma_same_marks_keep(after.history, thread.history, bound);
    lemma_same_config(thread.base_config, after.history, thread.history);
    assert forall|k: int| 0 <= k < after.queue.len() implies names_turn(
        after.history,
        (#[trigger] after.queue[k]).assistant_entry_id,
    ) && after.queue[k].assistant_entry_id < bound by {
        let was = after.queue[k];
        assert(was == job || thread.queue.contains(was));
        if was != job {
            let place = thread.queue.index_of(was);
            assert(names_turn(thread.history, thread.queue[place].assistant_entry_id));
        }
    }
    lemma_thread_changed(app, at, after, 0);
    if let Some(id) = app.command_edit_target {
        assert(names_command(app.thread().history, id));
    }
}

/// The program stays in order when the model is switched after its connection was
/// opened, or could not be had.
pub proof fn opened_switch_keeps_order(
    app: AppModel,
    model_id: Seq<char>,
    opened: Result<(), Seq<char>>,
    tools: Seq<ToolView>,
    now: u64,
)
    requires
        orderly(app),
        app.has_room(),
    ensures
        orderly(app.switch_resumed(model_id, opened, tools, now).0),
{
    let active = app.active as int;
    assert(app.threads[active] == app.thread());
    let linked = app.connected(active, model_id);
    lemma_entries_touched(app, active, linked.threads[active]);
    lemma_model_switched(linked, model_id, tools, now);
}

/// The program stays in order when a conversation is added after its connection
/// was opened, or could not be had.
pub proof fn opened_tab_keeps_order(
    app: AppModel,
    model_id: Seq<char>,
    opened: Result<(), Seq<char>>,
)
    requires
        orderly(app),
        app.has_room(),
    ensures
        orderly(app.tab_resumed(model_id, opened).0),
{
    if opened is Ok {
        let config = ConfigModel {
            model_id,
            tools_enabled: app.thread().current_config.tools_enabled,
        };
        let added = AppModel {
            threads: app.threads.push(fresh_thread(app.next_tab_id, config)),
            next_tab_id: (app.next_tab_id + 1) as usize,
            ..app
        };
        assert forall|i: int| 0 <= i < added.threads.len() implies tidy(
            #[trigger] added.threads[i],
            added.next_history_id as int,
        ) && added.threads[i].tab_id < added.next_tab_id by {
            if i < app.threads.len() {
                assert(tidy(app.threads[i], app.next_history_id as int));
            }
        }
        lemma_activated(added, app.threads.len() as int);
        lemma_command_mode_closed(added.activated(app.threads.len() as int));
    }
}

/// The program stays in order when a notice is added.
pub proof fn notice_keeps_order(app: AppModel, notice: Seq<char>)
    requires
        orderly(app),
        app.next_history_id < u64::MAX,
    ensures
        orderly(app.entry_added(EntryModel::SystemNotice(notice), MetaModel::Plain)),
{
    let thread = app.thread();
    let item = ItemModel {
        id: app.next_history_id,
        entry: EntryModel::SystemNotice(notice),
        meta: MetaModel::Plain,
    };
    let end = thread.history.len() as int;
    assert(tidy(thread, app.next_history_id as int));
    lemma_entry_added(app, item.entry, item.meta);
    assert(thread.history.push(item) =~= thread.history.insert(end, item));
    lemma_insert_keeps(thread.history, end, item, app.next_history_id + 1);
    if let Some(id) = app.command_edit_target {
        assert(names_command(thread.history, id));
    }
}

/// The program stays in order when the conversation that is shown is brought up to
/// date.
pub proof fn settling_keeps_order(app: AppModel)
    requires
        orderly(app),
    ensures
        orderly(app.with_active(normalized(app.thread()))),
{
    lemma_entries_touched(app, app.active as int, normalized(app.thread()));
}

/// Every entry is found by its number.
pub proof fn entry_is_found_by_its_number(app: AppModel, at: int, place: int)
    requires
        sound(app),
        0 <= at < app.threads.len(),
        0 <= place < app.threads[at].history.len(),
    ensures
        index_of_id(app.threads[at].history, app.threads[at].history[place].id) == Some(place),
{
    assert(tidy(app.threads[at], app.next_history_id as int));
    let history = app.threads[at].history;
    lemma_index_of_id(history, history[place].id);
}

/// Every conversation is found by its tab number.
pub proof fn conversation_is_found_by_its_tab(app: AppModel, at: int)
    requires
        sound(app),
        0 <= at < app.threads.len(),
    ensures
        app.index_of_tab(app.threads[at].tab_id) == Some(at),
{
    lemma_index_of_tab(app.threads, app.threads[at].tab_id);
}

} // verus!
