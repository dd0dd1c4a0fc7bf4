//! Answering the turns of a conversation anew.

use std::collections::VecDeque;

use vstd::prelude::*;
use vstd::string::*;

use crate::history::{
    block_models, AssistantStatus, EntryModel, HistoryEntry, ItemModel, ModelLoadStatus, TurnModel,
};
use crate::text::{same_text, texts};
use crate::thread::{
    is_loading_of, lacks_loading_entry, last_loading, loading_inserted, loading_item, loading_set,
    maybe_insert_loading_entry, set_loading_status, ThreadJob, ThreadModel, ThreadState,
};

verus! {

/// A turn that waits for its answer again.
pub open spec fn turn_waiting(turn: TurnModel, now: u64) -> TurnModel {
    TurnModel {
        blocks: Seq::empty(),
        callouts: Seq::empty(),
        status: Some(AssistantStatus::Queued { started_at: now }),
        sequence_number: None,
        ..turn
    }
}

/// An entry that waits for its answer again, where it is a turn.
pub open spec fn waiting(item: ItemModel, now: u64) -> ItemModel {
    match item.entry {
        EntryModel::Assistant(turn) => ItemModel {
            entry: EntryModel::Assistant(turn_waiting(turn, now)),
            ..item
        },
        _ => item,
    }
}

/// The entries with the turns of a range waiting for their answers.
pub open spec fn all_waiting(history: Seq<ItemModel>, start: int, end: int, now: u64) -> Seq<
    ItemModel,
> {
    Seq::new(
        history.len(),
        |i: int|
            if start <= i < end {
                waiting(history[i], now)
            } else {
                history[i]
            },
    )
}

/// The turns of a range, in their order.
pub open spec fn turns_in(history: Seq<ItemModel>, start: int, end: int) -> Seq<ThreadJob>
    decreases end - start,
{
    if end <= start {
        Seq::empty()
    } else {
        let before = turns_in(history, start, end - 1);
        if history[end - 1].entry is Assistant {
            before.push(ThreadJob { assistant_entry_id: history[end - 1].id })
        } else {
            before
        }
    }
}

/// Whether an entry on the loading of its model has to go before the turn at
/// `at`.
pub open spec fn loading_due(history: Seq<ItemModel>, loaded: Set<Seq<char>>, at: int) -> bool {
    history[at].entry matches EntryModel::Assistant(turn) && !loaded.contains(turn.model_id)
        && lacks_loading_entry(history, at, turn.model_id)
}

/// For how many turns of a range that is so.
pub open spec fn due_count(
    history: Seq<ItemModel>,
    loaded: Set<Seq<char>>,
    start: int,
    end: int,
) -> nat
    decreases end - start,
{
    if end <= start {
        0
    } else {
        due_count(history, loaded, start, end - 1) + if loading_due(history, loaded, end - 1) {
            1nat
        } else {
            0nat
        }
    }
}

/// The entries with one on the loading of `model_id` put at `at`, and the last
/// entry on the loading of that model saying that it begins now.
pub open spec fn loading_begun(
    history: Seq<ItemModel>,
    at: int,
    id: u64,
    model_id: Seq<char>,
    now: u64,
) -> Seq<ItemModel> {
    loading_set(
        history.insert(at, loading_item(id, model_id, now)),
        model_id,
        ModelLoadStatus::Loading { started_at: now },
    )
}

/// The entries with those on loading models put before the turns of a range
/// that need one, from the last turn to the first. They are numbered from
/// `first_id` on, in the order in which they stand.
pub open spec fn with_loading_entries(
    history: Seq<ItemModel>,
    loaded: Set<Seq<char>>,
    start: int,
    end: int,
    first_id: u64,
    now: u64,
) -> Seq<ItemModel>
    decreases end - start,
{
    if end <= start {
        history
    } else {
        let at = end - 1;
        let next = match history[at].entry {
            EntryModel::Assistant(turn) => if loading_due(history, loaded, at) {
                loading_begun(
                    history,
                    at,
                    (first_id + due_count(history, loaded, start, at)) as u64,
                    turn.model_id,
                    now,
                )
            } else {
                history
            },
            _ => history,
        };
        with_loading_entries(next, loaded, start, at, first_id, now)
    }
}

/// The conversation with the turns of a range waiting for their answers, and
/// nothing else in the queue.
pub open spec fn replayed(
    thread: ThreadModel,
    start: int,
    end: int,
    first_id: u64,
    now: u64,
) -> ThreadModel {
    ThreadModel {
        history: with_loading_entries(
            all_waiting(thread.history, start, end, now),
            thread.loaded_models,
            start,
            end,
            first_id,
            now,
        ),
        queue: turns_in(thread.history, start, end),
        ..thread
    }
}

proof fn lemma_due_count_bound(
    history: Seq<ItemModel>,
    loaded: Set<Seq<char>>,
    start: int,
    end: int,
)
    requires
        start <= end,
    ensures
        due_count(history, loaded, start, end) <= end - start,
    decreases end - start,
{
    if start < end {
        lemma_due_count_bound(history, loaded, start, end - 1);
    }
}

/// There are no more such turns than there are entries.
pub(crate) proof fn lemma_due_count_fits(
    history: Seq<ItemModel>,
    loaded: Set<Seq<char>>,
    start: int,
    end: int,
)
    requires
        0 <= start,
        end <= history.len(),
    ensures
        due_count(history, loaded, start, end) <= history.len(),
{
    if start <= end {
        lemma_due_count_bound(history, loaded, start, end);
    }
}

/// Whether two lists hold entries of the same make before `upto`: turns of the
/// same models and entries on loading the same models in the same places.
pub open spec fn same_make(a: Seq<ItemModel>, b: Seq<ItemModel>, upto: int) -> bool {
    &&& upto <= a.len()
    &&& upto <= b.len()
    &&& forall|i: int| 0 <= i < upto ==> same_kind((#[trigger] a[i]).entry, b[i].entry)
}

/// Whether two entries are turns of one model, or on loading one model, or
/// neither is either.
pub open spec fn same_kind(a: EntryModel, b: EntryModel) -> bool {
    match (a, b) {
        (EntryModel::Assistant(left), EntryModel::Assistant(right)) => left.model_id
            == right.model_id,
        (
            EntryModel::LoadingModel { model_id: left, .. },
            EntryModel::LoadingModel { model_id: right, .. },
        ) => left == right,
        (EntryModel::Command { .. }, EntryModel::Command { .. }) => true,
        (EntryModel::Break, EntryModel::Break) => true,
        (EntryModel::SystemNotice(_), EntryModel::SystemNotice(_)) => true,
        _ => false,
    }
}

pub(crate) proof fn lemma_same_make_same_due(
    a: Seq<ItemModel>,
    b: Seq<ItemModel>,
    loaded: Set<Seq<char>>,
    start: int,
    end: int,
)
    requires
        0 <= start,
        end <= a.len(),
        same_make(a, b, end),
    ensures
        due_count(a, loaded, start, end) == due_count(b, loaded, start, end),
        start < end ==> loading_due(a, loaded, end - 1) == loading_due(b, loaded, end - 1),
    decreases end - start,
{
    if start < end {
        lemma_same_make_same_due(a, b, loaded, start, end - 1);
        assert(same_kind(a[end - 1].entry, b[end - 1].entry));
        if end - 1 > 0 {
            assert(same_kind(a[end - 2].entry, b[end - 2].entry));
        }
    }
}

proof fn lemma_last_loading(history: Seq<ItemModel>, model_id: Seq<char>, at: int)
    requires
        0 <= at < history.len(),
        is_loading_of(history[at], model_id),
    ensures
        last_loading(history, model_id) matches Some(last) && at <= last < history.len()
            && is_loading_of(history[last], model_id),
    decreases history.len(),
{
    if !is_loading_of(history.last(), model_id) {
        lemma_last_loading(history.drop_last(), model_id, at);
    }
}

/// Beginning to load before a turn leaves the entries before it as they are.
pub(crate) proof fn lemma_loading_begun_keeps_prefix(
    history: Seq<ItemModel>,
    at: int,
    id: u64,
    model_id: Seq<char>,
    now: u64,
)
    requires
        0 <= at < history.len(),
    ensures
        loading_begun(history, at, id, model_id, now).len() == history.len() + 1,
        forall|i: int|
            0 <= i < at ==> #[trigger] loading_begun(history, at, id, model_id, now)[i]
                == history[i],
{
    let inserted = history.insert(at, loading_item(id, model_id, now));
    lemma_last_loading(inserted, model_id, at);
}

proof fn lemma_loading_due_inserts(
    history: Seq<ItemModel>,
    loaded: Set<Seq<char>>,
    at: int,
    id: u64,
    now: u64,
)
    requires
        0 <= at < history.len(),
        loading_due(history, loaded, at),
    ensures
        history[at].entry matches EntryModel::Assistant(turn) && loading_inserted(
            history,
            loaded,
            at,
            id,
            now,
        ) == history.insert(at, loading_item(id, turn.model_id, now)),
{
}

/// Whether an entry on loading is due before the turn at `at`, and for which
/// model.
fn due_model(thread: &ThreadState, at: usize) -> (model_id: Option<String>)
    requires
        at < thread.history@.len(),
    ensures
        model_id is Some <==> loading_due(thread@.history, thread@.loaded_models, at as int),
        model_id matches Some(model_id) ==> thread@.history[at as int].entry
            matches EntryModel::Assistant(turn) && turn.model_id == model_id@,
{
    assert(thread@.history[at as int] == thread.history@[at as int]@);
    match &thread.history[at].entry {
        HistoryEntry::Assistant { model_id, .. } => {
            if thread.loaded_models.contains(model_id.as_str()) {
                return None;
            }
            if at > 0 {
                assert(thread@.history[at - 1] == thread.history@[at - 1]@);
                if let HistoryEntry::LoadingModel { model_id: loading, .. } = &thread.history[at
                    - 1].entry {
                    if same_text(loading.as_str(), model_id.as_str()) {
                        return None;
                    }
                }
            }
            Some(model_id.clone())
        },
        _ => None,
    }
}

/// Queues the turns of a range, to be answered anew. Entries on loading models
/// that have to go before them are numbered from `first_id` on; the result says
/// how many there are.
#[verifier::rlimit(30)]
pub fn replay_range(
    thread: &mut ThreadState,
    start: usize,
    end: usize,
    first_id: u64,
    now: u64,
) -> (used: u64)
    requires
        old(thread).wf(),
        end <= old(thread)@.history.len(),
        first_id + old(thread)@.history.len() <= u64::MAX,
    ensures
        final(thread).wf(),
        final(thread)@ == replayed(old(thread)@, start as int, end as int, first_id, now),
        used == due_count(
            old(thread)@.history,
            old(thread)@.loaded_models,
            start as int,
            end as int,
        ),
{
    let ghost was = thread@;
    let ghost loaded = was.loaded_models;
    let ghost s = start as int;
    thread.queue = VecDeque::new();
    let mut used: u64 = 0;
    let mut at: usize = start;
    assert(thread.queue@ =~= turns_in(was.history, s, s));
    assert(thread@.history =~= all_waiting(was.history, s, s, now));
    while at < end
        invariant
            thread.wf(),
            s == start,
            start <= at,
            at <= end || at == start,
            end <= was.history.len(),
            loaded == was.loaded_models,
            thread@ == (ThreadModel {
                history: all_waiting(was.history, s, at as int, now),
                queue: turns_in(was.history, s, at as int),
                ..was
            }),
            used == due_count(was.history, loaded, s, at as int),
            used <= at - start,
            first_id + was.history.len() <= u64::MAX,
        decreases end - at,
    {
        let ghost before = thread@.history;
        assert(thread.history@.len() == before.len());
        assert(before[at as int] == was.history[at as int]);
        assert(before[at as int] == thread.history@[at as int]@);
        proof {
            assert(same_make(before, was.history, at + 1));
            lemma_same_make_same_due(before, was.history, loaded, s, at + 1);
        }
        if due_model(thread, at).is_some() {
            used = used + 1;
        }
        let id: u64 = thread.history[at].id;
        let mut is_turn = false;
        if let HistoryEntry::Assistant { blocks, callouts, status, sequence_number, .. } =
            &mut thread.history[at].entry {
            *blocks = Vec::new();
            *callouts = Vec::new();
            *status = Some(AssistantStatus::Queued { started_at: now });
            *sequence_number = None;
            is_turn = true;
            assert(block_models(blocks@) =~= Seq::empty());
            assert(texts(callouts@) =~= Seq::empty());
        }
        let ghost queue = thread.queue@;
        if is_turn {
            thread.queue.push_back(ThreadJob { assistant_entry_id: id });
            assert(thread.queue@ =~= queue.push(ThreadJob { assistant_entry_id: id }));
        }
        assert(thread@.history =~= before.update(
            at as int,
            waiting(was.history[at as int], now),
        ));
        assert(thread@.history =~= all_waiting(was.history, s, at + 1, now));
        at = at + 1;
    }
    if end <= start {
        assert(all_waiting(was.history, s, end as int, now) =~= thread@.history);
        assert(thread@ =~= replayed(was, s, end as int, first_id, now));
        return used;
    }
    let ghost marked = thread@.history;
    let mut down: usize = end;
    let mut left: u64 = used;
    proof {
        assert(same_make(marked, was.history, end as int));
        lemma_same_make_same_due(marked, was.history, loaded, s, end as int);
    }
    while down > start
        invariant
            thread.wf(),
            s == start,
            start <= down <= end,
            loaded == was.loaded_models,
            marked == all_waiting(was.history, s, end as int, now),
            end <= marked.len() <= thread@.history.len(),
            first_id + marked.len() <= u64::MAX,
            thread@ == (ThreadModel {
                history: thread@.history,
                queue: turns_in(was.history, s, end as int),
                ..was
            }),
            forall|i: int| 0 <= i < down ==> #[trigger] thread@.history[i] == marked[i],
            left == due_count(thread@.history, loaded, s, down as int),
            with_loading_entries(thread@.history, loaded, s, down as int, first_id, now)
                == with_loading_entries(marked, loaded, s, end as int, first_id, now),
        decreases down,
    {
        let at: usize = down - 1;
        let ghost before = thread@.history;
        assert(thread.history@.len() == before.len());
        proof {
            lemma_due_count_bound(before, loaded, s, at as int);
        }
        if let Some(model_id) = due_model(thread, at) {
            left = left - 1;
            let id: u64 = first_id + left;
            proof {
                lemma_loading_due_inserts(before, loaded, at as int, id, now);
                lemma_loading_begun_keeps_prefix(before, at as int, id, model_id@, now);
            }
            maybe_insert_loading_entry(thread, at, id, now);
            set_loading_status(
                thread,
                model_id.as_str(),
                ModelLoadStatus::Loading { started_at: now },
            );
            proof {
                let after = thread@.history;
                assert(after == loading_begun(before, at as int, id, model_id@, now));
                assert(same_make(after, before, at as int));
                lemma_same_make_same_due(after, before, loaded, s, at as int);
            }
        }
        down = at;
    }
    used
}

} // verus!
