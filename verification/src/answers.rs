//! What the answers of models do to a conversation.

use vstd::prelude::*;

use crate::agent::{calls_in, callouts_for, tool_names, ToolFormat, ToolView};
use crate::app_model::{lemma_index_of_tab, AfterStart, AppModel, EffectModel, PurposeModel};
use crate::history::{
    raw_text, AssistantStatus, BlockModel, EntryModel, ItemModel, MetaModel, ModelLoadStatus,
    TurnModel,
};
use crate::jobs::{answer_of, heard, tool_note_set, ItemView, JobModel, MarkdownModel};
use crate::promises::{lemma_loading_set_touches_loading_only, queued_numbers, sent_number};
use crate::request::{
    conversation, lemma_segment_start, request_for, segment_start, TurnRequestModel,
};
use crate::runtime::StatusView;
use crate::thread::{
    answered, answering, config_after, config_until, index_of_id, interrupted,
    interrupted_turn_keeps_its_answer, is_loading_of, lemma_index_of_id,
    loading_is_noted_in_its_last_entry, loading_set, only_the_named_turn_changes,
    tool_note_stands_once, tool_noted, turn_changed, ThreadJob, ThreadModel,
};
use crate::upkeep::{
    lemma_loading_set_marks, lemma_remove_keeps_config,
    lemma_turn_changed_marks, names_turn, same_marks, sound, tidy,
};

verus! {

/// Two lists of entries differ in entries on the loading of models alone, and in these
/// only in what they say.
pub open spec fn same_but_loading(a: Seq<ItemModel>, b: Seq<ItemModel>) -> bool {
    &&& a.len() == b.len()
    &&& forall|i: int|
        0 <= i < b.len() ==> #[trigger] a[i] == b[i] || a[i].entry is LoadingModel
            && b[i].entry is LoadingModel && a[i].id == b[i].id && a[i].meta == b[i].meta
}

proof fn lemma_loading_says_nothing(a: Seq<ItemModel>, b: Seq<ItemModel>)
    requires
        same_but_loading(a, b),
    ensures
        conversation(a) == conversation(b),
        segment_start(a) == segment_start(b),
    decreases a.len(),
{
    if a.len() > 0 {
        let last = a.len() - 1;
        assert(a[last] == b[last] || a[last].entry is LoadingModel);
        let front_a = a.drop_last();
        let front_b = b.drop_last();
        assert forall|i: int| 0 <= i < front_b.len() implies #[trigger] front_a[i] == front_b[i]
            || front_a[i].entry is LoadingModel && front_b[i].entry is LoadingModel
            && front_a[i].id == front_b[i].id && front_a[i].meta == front_b[i].meta by {
            assert(a[i] == front_a[i]);
        }
        lemma_loading_says_nothing(front_a, front_b);
    }
}

/// What a model is asked does not depend on the entries on loading.
proof fn lemma_loading_is_not_asked(
    a: ThreadModel,
    b: ThreadModel,
    id: u64,
    tools: Seq<ToolView>,
)
    requires
        same_but_loading(a.history, b.history),
        a.base_config == b.base_config,
    ensures
        request_for(a, id, tools) == request_for(b, id, tools),
{
    lemma_index_of_id(a.history, id);
    lemma_index_of_id(b.history, id);
    assert forall|i: int| 0 <= i < a.history.len() implies (#[trigger] a.history[i]).id
        == b.history[i].id && a.history[i].meta == b.history[i].meta by {
        assert(a.history[i] == b.history[i] || a.history[i].entry is LoadingModel);
    }
    let found = index_of_id(a.history, id);
    if let Some(at) = found {
        let there = index_of_id(b.history, id);
        assert(b.history[at].id == id);
        assert(there is Some);
        let other = there.unwrap();
        assert(a.history[other].id == id);
        assert(at == other);
        let upto_a = a.history.take(at + 1);
        let upto_b = b.history.take(at + 1);
        assert forall|i: int| 0 <= i < upto_b.len() implies #[trigger] upto_a[i] == upto_b[i]
            || upto_a[i].entry is LoadingModel && upto_b[i].entry is LoadingModel && upto_a[i].id
            == upto_b[i].id && upto_a[i].meta == upto_b[i].meta by {
            assert(upto_a[i] == a.history[i]);
        }
        lemma_loading_says_nothing(upto_a, upto_b);
        lemma_segment_start(upto_a);
        let start = segment_start(upto_a);
        let part_a = upto_a.skip(start);
        let part_b = upto_b.skip(start);
        assert forall|i: int| 0 <= i < part_b.len() implies #[trigger] part_a[i] == part_b[i]
            || part_a[i].entry is LoadingModel && part_b[i].entry is LoadingModel && part_a[i].id
            == part_b[i].id && part_a[i].meta == part_b[i].meta by {
            assert(part_a[i] == upto_a[start + i]);
        }
        lemma_loading_says_nothing(part_a, part_b);
        lemma_same_metas(a, b, at);
    } else {
        if let Some(at) = index_of_id(b.history, id) {
            assert(a.history[at].id == id);
        }
    }
}

proof fn lemma_same_metas(a: ThreadModel, b: ThreadModel, at: int)
    requires
        0 <= at < a.history.len(),
        at < b.history.len(),
        a.base_config == b.base_config,
        forall|i: int| 0 <= i <= at ==> (#[trigger] a.history[i]).meta == b.history[i].meta,
    ensures
        config_until(a, at) == config_until(b, at),
    decreases at,
{
    let upto_a = a.history.take(at + 1);
    let upto_b = b.history.take(at + 1);
    assert(upto_a.drop_last() =~= a.history.take(at));
    assert(upto_b.drop_last() =~= b.history.take(at));
    assert(a.history[at].meta == b.history[at].meta);
    assert(config_after(a.base_config, a.history.take(0)) == a.base_config);
    assert(config_after(b.base_config, b.history.take(0)) == b.base_config);
    if at > 0 {
        lemma_same_metas(a, b, at - 1);
    }
}

/// Whether a turn can be asked for depends on its settings alone.
proof fn lemma_still_asked(
    a: ThreadModel,
    b: ThreadModel,
    at: int,
    place: int,
    tools: Seq<ToolView>,
)
    requires
        0 <= at < a.history.len(),
        0 <= place < b.history.len(),
        a.history[at].id == b.history[place].id,
        index_of_id(a.history, a.history[at].id) == Some(at),
        index_of_id(b.history, a.history[at].id) == Some(place),
        config_until(a, at) == config_until(b, place),
    ensures
        request_for(a, a.history[at].id, tools) is Ok == request_for(
            b,
            a.history[at].id,
            tools,
        ) is Ok,
        request_for(a, a.history[at].id, tools) matches Ok(first) ==> request_for(
            b,
            a.history[at].id,
            tools,
        ) matches Ok(second) ==> first.config == second.config,
{
}

proof fn lemma_place_of(history: Seq<ItemModel>, at: int)
    requires
        0 <= at < history.len(),
        forall|i: int, j: int|
            0 <= i < j < history.len() ==> (#[trigger] history[i]).id != (#[trigger] history[j]).id,
    ensures
        index_of_id(history, history[at].id) == Some(at),
{
    lemma_index_of_id(history, history[at].id);
    let found = index_of_id(history, history[at].id).unwrap();
    if found < at {
        assert(history[found].id != history[at].id);
    }
    if found > at {
        assert(history[at].id != history[at].id);
    }
}

/// Nothing that is heard of one turn keeps another one from being asked for.
proof fn lemma_other_turn_still_asked(
    thread: ThreadModel,
    next: ThreadModel,
    heard: int,
    removed: bool,
    at: int,
    tools: Seq<ToolView>,
)
    requires
        forall|i: int, j: int|
            0 <= i < j < thread.history.len() ==> (#[trigger] thread.history[i]).id != (
            #[trigger] thread.history[j]).id,
        0 <= at < thread.history.len(),
        next.base_config == thread.base_config,
        removed ==> {
            &&& 0 <= heard < thread.history.len()
            &&& heard != at
            &&& thread.history[heard].meta == MetaModel::Plain
            &&& next.history == thread.history.remove(heard)
        },
        !removed ==> {
            &&& next.history.len() >= thread.history.len()
            &&& forall|i: int|
                0 <= i < thread.history.len() ==> (#[trigger] next.history[i]).id
                    == thread.history[i].id && next.history[i].meta == thread.history[i].meta
        },
    ensures
        request_for(thread, thread.history[at].id, tools) is Ok == request_for(
            next,
            thread.history[at].id,
            tools,
        ) is Ok,
        request_for(thread, thread.history[at].id, tools) matches Ok(first) ==> request_for(
            next,
            thread.history[at].id,
            tools,
        ) matches Ok(second) ==> first.config == second.config,
{
    let history = thread.history;
    lemma_place_of(history, at);
    let id = history[at].id;
    lemma_index_of_id(next.history, id);
    if removed {
        let place = if at < heard {
            at
        } else {
            at - 1
        };
        assert(next.history[place] == history[at]);
        assert forall|i: int| 0 <= i < place implies (#[trigger] next.history[i]).id != id by {
            if i < heard {
                assert(next.history[i] == history[i]);
                assert(history[i].id != history[at].id);
            } else {
                assert(next.history[i] == history[i + 1]);
                assert(history[i + 1].id != history[at].id);
            }
        }
        if at < heard {
            lemma_same_metas(thread, next, at);
        } else {
            let upto = history.take(at + 1);
            lemma_remove_keeps_config(thread.base_config, upto, heard);
            assert(upto.remove(heard) =~= next.history.take(at));
        }
        lemma_still_asked(thread, next, at, place, tools);
    } else {
        assert(next.history[at].id == id);
        assert forall|i: int| 0 <= i < at implies (#[trigger] next.history[i]).id != id by {
            assert(history[i].id != history[at].id);
        }
        lemma_same_metas(thread, next, at);
        lemma_still_asked(thread, next, at, at, tools);
    }
}

/// The entries of a conversation once the end of a turn was heard, before the next turn is
/// sent.
spec fn ended(history: Seq<ItemModel>, event: JobModel, notice: u64) -> Seq<ItemModel> {
    match event {
        JobModel::Complete { assistant_entry_id: id, markdown, callouts, .. } => {
            let noted = if markdown.tool_call_detected {
                seq!["tool called"@] + callouts
            } else {
                callouts
            };
            turn_changed(
                history,
                id,
                |turn: TurnModel| answered(turn, markdown.blocks, noted),
            )
        },
        JobModel::Interrupted { assistant_entry_id: id, markdown, .. } => tool_note_set(
            interrupted(history, id, markdown.blocks),
            id,
            markdown.tool_call_detected,
        ),
        JobModel::Error { assistant_entry_id: id, error, .. } => turn_changed(
            history,
            id,
            |turn: TurnModel| answered(turn, Seq::empty(), Seq::empty()),
        ).push(
            ItemModel {
                id: notice,
                entry: EntryModel::SystemNotice(error),
                meta: MetaModel::Plain,
            },
        ),
        _ => history,
    }
}

/// An event that ends a turn.
pub open spec fn ends_turn(event: JobModel) -> bool {
    event is Complete || event is Interrupted || event is Error
}

proof fn lemma_end_heard(app: AppModel, at: int, event: JobModel, tools: Seq<ToolView>, now: u64)
    requires
        sound(app),
        0 <= at < app.threads.len(),
        event.tab_id() == app.threads[at].tab_id,
        ends_turn(event),
    ensures
        ({
            let thread = app.threads[at];
            let (next, effect) = app.job_heard(event, tools, now);
            let after = next.threads[at];
            let entries = ended(thread.history, event, app.next_history_id);
            let between = ThreadModel { history: entries, ..thread };
            &&& next.threads.len() == app.threads.len()
            &&& !after.running_job
            &&& after.running_assistant_id is None
            &&& same_but_loading(after.history, entries)
            &&& after.base_config == thread.base_config
            &&& after.connections == thread.connections
            &&& thread.queue.len() == 0 ==> effect is Continue && after.queue == thread.queue
                && after.history == entries
            &&& thread.queue.len() > 0 ==> {
                &&& after.queue == thread.queue.drop_first()
                &&& effect == match request_for(
                    between,
                    thread.queue[0].assistant_entry_id,
                    tools,
                ) {
                    Err(_) => EffectModel::Continue,
                    Ok(turn) => if thread.connections.contains(turn.config.model_id) {
                        EffectModel::StartStream {
                            thread_index: at as usize,
                            job: thread.queue[0],
                            turn,
                        }
                    } else {
                        EffectModel::OpenConnection {
                            thread_index: at as usize,
                            model_id: turn.config.model_id,
                            purpose: PurposeModel::RunJob {
                                job: thread.queue[0],
                                turn,
                                after: AfterStart::Nothing,
                            },
                        }
                    },
                }
            }
        }),
{
    lemma_index_of_tab(app.threads, event.tab_id());
    let found = app.index_of_tab(event.tab_id()).unwrap();
    if found < at {
        assert(app.threads[found].tab_id != app.threads[at].tab_id);
    }
    if found > at {
        assert(app.threads[at].tab_id != event.tab_id());
    }
    let thread = app.threads[at];
    let entries = ended(thread.history, event, app.next_history_id);
    let between = ThreadModel { history: entries, ..thread };
    let (next, effect) = app.job_heard(event, tools, now);
    let told = app.marked(at).with_entries(at, entries);
    let idle = if event is Error {
        told.ids_taken(1).idle(at)
    } else {
        told.idle(at)
    };
    assert((next, effect) == idle.next_started(at, tools, now));
    assert(idle.threads[at].history == entries);
    if thread.queue.len() > 0 {
        let id = thread.queue[0].assistant_entry_id;
        assert(request_for(idle.threads[at], id, tools) == request_for(between, id, tools));
        if let Ok(turn) = request_for(between, id, tools) {
            let status = ModelLoadStatus::Loading { started_at: now };
            lemma_loading_set_touches_loading_only(entries, turn.config.model_id, status);
            lemma_loading_set_marks(entries, turn.config.model_id, status);
        }
    }
}

/// When the end of a turn is heard, whether it is complete, interrupted or failed, no turn
/// of the conversation runs, and the first turn that waits leaves the queue. Where it
/// could be asked for, it is sent to its model: at once where there is a connection, and
/// else once there is one. What the model is then asked is what the conversation, with
/// the answer that was heard, asks of it.
pub proof fn end_of_a_turn_starts_the_next(
    app: AppModel,
    at: int,
    event: JobModel,
    tools: Seq<ToolView>,
    now: u64,
    waiting: int,
)
    requires
        sound(app),
        0 <= at < app.threads.len(),
        event.tab_id() == app.threads[at].tab_id,
        event is Complete || event is Interrupted || event is Error,
        names_turn(app.threads[at].history, event.turn_id()),
        app.threads[at].queue.len() > 0,
        0 <= waiting < app.threads[at].history.len(),
        app.threads[at].history[waiting].id == app.threads[at].queue[0].assistant_entry_id,
        app.threads[at].history[waiting].id != event.turn_id(),
    ensures
        ({
            let thread = app.threads[at];
            let (next, effect) = app.job_heard(event, tools, now);
            let after = next.threads[at];
            let id = thread.queue[0].assistant_entry_id;
            &&& !after.running_job
            &&& after.running_assistant_id is None
            &&& queued_numbers(after) == queued_numbers(thread).drop_first()
            &&& request_for(thread, id, tools) is Err ==> effect is Continue
            &&& request_for(thread, id, tools) matches Ok(was) ==> {
                &&& sent_number(effect) == seq![id]
                &&& thread.connections.contains(was.config.model_id) ==> (effect
                    matches EffectModel::StartStream { thread_index, turn, .. } && thread_index
                    == at && request_for(after, id, tools) == Ok::<_, Seq<char>>(turn))
                &&& !thread.connections.contains(was.config.model_id) ==> (effect
                    matches EffectModel::OpenConnection {
                    thread_index,
                    model_id,
                    purpose: PurposeModel::RunJob { turn, .. },
                } && thread_index == at && model_id == was.config.model_id && request_for(
                    after,
                    id,
                    tools,
                ) == Ok::<_, Seq<char>>(turn))
            }
        }),
{
    let thread = app.threads[at];
    let history = thread.history;
    assert(tidy(thread, app.next_history_id as int));
    lemma_end_heard(app, at, event, tools, now);
    let entries = ended(history, event, app.next_history_id);
    let between = ThreadModel { history: entries, ..thread };
    let (next, effect) = app.job_heard(event, tools, now);
    let after = next.threads[at];
    let id = thread.queue[0].assistant_entry_id;
    let heard = event.turn_id();
    assert(queued_numbers(after) =~= queued_numbers(thread).drop_first());
    lemma_index_of_id(history, heard);
    let removed = event is Interrupted && event->Interrupted_markdown.blocks.len() == 0
        && index_of_id(history, heard) is Some;
    if removed {
        let place = index_of_id(history, heard).unwrap();
        assert(history[place].entry is Assistant);
        let shorter = history.remove(place);
        lemma_index_of_id(shorter, heard);
        if let Some(again) = index_of_id(shorter, heard) {
            if again < place {
                assert(shorter[again] == history[again]);
                assert(history[again].id != history[place].id);
            } else {
                assert(shorter[again] == history[again + 1]);
                assert(history[place].id != history[again + 1].id);
            }
        }
        assert(entries == shorter);
        lemma_other_turn_still_asked(thread, between, place, true, waiting, tools);
    } else {
        match event {
            JobModel::Complete { assistant_entry_id, markdown, callouts, .. } => {
                let noted = if markdown.tool_call_detected {
                    seq!["tool called"@] + callouts
                } else {
                    callouts
                };
                lemma_turn_changed_marks(
                    history,
                    assistant_entry_id,
                    |turn: TurnModel| answered(turn, markdown.blocks, noted),
                );
            },
            JobModel::Interrupted { assistant_entry_id, markdown, .. } => {
                let kept = interrupted(history, assistant_entry_id, markdown.blocks);
                lemma_turn_changed_marks(
                    history,
                    assistant_entry_id,
                    |turn: TurnModel| answered(turn, markdown.blocks, Seq::empty()),
                );
                assert(same_marks(kept, history));
                lemma_turn_changed_marks(
                    kept,
                    assistant_entry_id,
                    |turn: TurnModel|
                        TurnModel {
                            callouts: tool_noted(turn.callouts, markdown.tool_call_detected),
                            ..turn
                        },
                );
            },
            JobModel::Error { assistant_entry_id, .. } => {
                lemma_turn_changed_marks(
                    history,
                    assistant_entry_id,
                    |turn: TurnModel| answered(turn, Seq::empty(), Seq::empty()),
                );
            },
            _ => {},
        }
        assert forall|i: int| 0 <= i < history.len() implies (#[trigger] between.history[i]).id
            == history[i].id && between.history[i].meta == history[i].meta by {}
        lemma_other_turn_still_asked(thread, between, 0, false, waiting, tools);
    }
    lemma_loading_is_not_asked(after, between, id, tools);
}

/// Where nothing waits, the end of a turn starts nothing.
pub proof fn end_of_the_last_turn_starts_nothing(
    app: AppModel,
    at: int,
    event: JobModel,
    tools: Seq<ToolView>,
    now: u64,
)
    requires
        sound(app),
        0 <= at < app.threads.len(),
        event.tab_id() == app.threads[at].tab_id,
        event is Complete || event is Interrupted || event is Error,
        app.threads[at].queue.len() == 0,
    ensures
        ({
            let (next, effect) = app.job_heard(event, tools, now);
            &&& effect is Continue
            &&& !next.threads[at].running_job
            &&& next.threads[at].running_assistant_id is None
            &&& next.threads[at].queue.len() == 0
        }),
{
    lemma_end_heard(app, at, event, tools, now);
}

/// A turn has an answer, whole as it was heard, and waits for nothing.
pub open spec fn has_answer(item: ItemModel, was: ItemModel, blocks: Seq<BlockModel>) -> bool {
    &&& item.id == was.id
    &&& item.meta == was.meta
    &&& item.entry matches EntryModel::Assistant(turn) && {
        &&& turn.blocks == blocks
        &&& turn.status is None
        &&& turn.sequence_number is None
        &&& turn.prompt == was.entry->Assistant_0.prompt
        &&& turn.model_id == was.entry->Assistant_0.model_id
    }
}

/// The notes say that a tool was called exactly where one was, and all else that they said.
pub open spec fn notes_the_calls(
    notes: Seq<Seq<char>>,
    were: Seq<Seq<char>>,
    detected: bool,
) -> bool {
    &&& notes.contains("tool called"@) <==> detected
    &&& forall|line: Seq<char>|
        line != "tool called"@ ==> (#[trigger] notes.contains(line) <==> were.contains(line))
}

proof fn lemma_notes_the_calls(were: Seq<Seq<char>>, detected: bool)
    ensures
        notes_the_calls(tool_noted(were, detected), were, detected),
{
    let notes = tool_noted(were, detected);
    let keep = |line: Seq<char>| line != "tool called"@;
    tool_note_stands_once(were, detected);
    if detected {
        assert(notes[0] == "tool called"@);
    }
    assert forall|line: Seq<char>| line != "tool called"@ implies (
    #[trigger] notes.contains(line) <==> were.contains(line)) by {
        if notes.contains(line) {
            let i = notes.index_of(line);
            assert(keep(notes[i]));
            notes.lemma_filter_contains(keep, i);
            let k = were.filter(keep).index_of(line);
            were.lemma_filter_contains_rev(keep, line);
        }
        if were.contains(line) {
            let i = were.index_of(line);
            assert(keep(were[i]));
            were.lemma_filter_contains(keep, i);
            notes.lemma_filter_contains_rev(keep, line);
        }
    }
}

/// A complete answer is kept whole with its turn, with what was called behind the notes
/// that were there. The other entries stay; only those on loading may say something
/// else.
pub proof fn complete_answer_is_kept(
    app: AppModel,
    at: int,
    event: JobModel,
    tools: Seq<ToolView>,
    now: u64,
    place: int,
    i: int,
)
    requires
        sound(app),
        0 <= at < app.threads.len(),
        event.tab_id() == app.threads[at].tab_id,
        event is Complete,
        0 <= place < app.threads[at].history.len(),
        app.threads[at].history[place].id == event.turn_id(),
        app.threads[at].history[place].entry is Assistant,
        0 <= i < app.threads[at].history.len(),
    ensures
        ({
            let history = app.threads[at].history;
            let next = app.job_heard(event, tools, now).0.threads[at].history;
            let markdown = event->Complete_markdown;
            let noted = next[place].entry->Assistant_0.callouts;
            let before = history[place].entry->Assistant_0.callouts;
            &&& next.len() == history.len()
            &&& has_answer(next[place], history[place], markdown.blocks)
            &&& markdown.tool_call_detected ==> noted == before + (seq!["tool called"@]
                + event->callouts)
            &&& !markdown.tool_call_detected ==> noted == before + event->callouts
            &&& i != place && !(history[i].entry is LoadingModel) ==> next[i] == history[i]
        }),
{
    let thread = app.threads[at];
    let history = thread.history;
    assert(tidy(thread, app.next_history_id as int));
    lemma_end_heard(app, at, event, tools, now);
    if let JobModel::Complete { assistant_entry_id: id, markdown, callouts, .. } = event {
        let noted = if markdown.tool_call_detected {
            seq!["tool called"@] + callouts
        } else {
            callouts
        };
        let change = |turn: TurnModel| answered(turn, markdown.blocks, noted);
        only_the_named_turn_changes(history, id, change, place);
        only_the_named_turn_changes(history, id, change, i);
        let entries = ended(history, event, app.next_history_id);
        let next = app.job_heard(event, tools, now).0.threads[at].history;
        assert(next[place] == entries[place]);
        assert(next[i] == entries[i] || entries[i].entry is LoadingModel);
        if i != place {
            if i < place {
                assert(history[i].id != history[place].id);
            } else {
                assert(history[place].id != history[i].id);
            }
        }
    }
}

/// An interrupted turn keeps all that was answered so far. Where that is nothing, the turn
/// goes. The other entries stay, in their order; only those on loading may say something
/// else.
pub proof fn interrupted_answer_is_kept(
    app: AppModel,
    at: int,
    event: JobModel,
    tools: Seq<ToolView>,
    now: u64,
    place: int,
    i: int,
)
    requires
        sound(app),
        0 <= at < app.threads.len(),
        event.tab_id() == app.threads[at].tab_id,
        event is Interrupted,
        0 <= place < app.threads[at].history.len(),
        app.threads[at].history[place].id == event.turn_id(),
        app.threads[at].history[place].entry is Assistant,
        0 <= i < app.threads[at].history.len(),
    ensures
        ({
            let history = app.threads[at].history;
            let next = app.job_heard(event, tools, now).0.threads[at].history;
            let blocks = event->Interrupted_markdown.blocks;
            if blocks.len() > 0 {
                &&& next.len() == history.len()
                &&& has_answer(next[place], history[place], blocks)
                &&& notes_the_calls(
                    next[place].entry->Assistant_0.callouts,
                    history[place].entry->Assistant_0.callouts,
                    event->Interrupted_markdown.tool_call_detected,
                )
                &&& i != place && !(history[i].entry is LoadingModel) ==> next[i] == history[i]
            } else {
                &&& next.len() == history.len() - 1
                &&& i < place && !(history[i].entry is LoadingModel) ==> next[i] == history[i]
                &&& i > place && !(history[i].entry is LoadingModel) ==> next[i - 1] == history[i]
                &&& forall|k: int|
                    0 <= k < next.len() ==> (#[trigger] next[k]).id != history[place].id
            }
        }),
{
    let thread = app.threads[at];
    let history = thread.history;
    assert(tidy(thread, app.next_history_id as int));
    lemma_end_heard(app, at, event, tools, now);
    if let JobModel::Interrupted { assistant_entry_id: id, markdown, .. } = event {
        let blocks = markdown.blocks;
        lemma_notes_the_calls(
            history[place].entry->Assistant_0.callouts,
            markdown.tool_call_detected,
        );
        interrupted_turn_keeps_its_answer(history, place, blocks);
        let kept = interrupted(history, id, blocks);
        let note = |turn: TurnModel|
            TurnModel {
                callouts: tool_noted(turn.callouts, markdown.tool_call_detected),
                ..turn
            };
        let entries = tool_note_set(kept, id, markdown.tool_call_detected);
        let next = app.job_heard(event, tools, now).0.threads[at].history;
        if i != place {
            if i < place {
                assert(history[i].id != history[place].id);
            } else {
                assert(history[place].id != history[i].id);
            }
        }
        if blocks.len() > 0 {
            assert forall|k: int, l: int| 0 <= k < l < kept.len() implies (
            #[trigger] kept[k]).id != (#[trigger] kept[l]).id by {
                assert(kept[k].id == history[k].id);
                assert(kept[l].id == history[l].id);
                assert(history[k].id != history[l].id);
            }
            only_the_named_turn_changes(kept, id, note, place);
            only_the_named_turn_changes(kept, id, note, i);
            assert(next[place] == entries[place]);
            assert(next[i] == entries[i] || entries[i].entry is LoadingModel);
        } else {
            assert forall|k: int| 0 <= k < kept.len() implies (#[trigger] kept[k]).id != id by {
                if k < place {
                    assert(kept[k] == history[k]);
                    assert(history[k].id != history[place].id);
                } else {
                    assert(kept[k] == history[k + 1]);
                    assert(history[place].id != history[k + 1].id);
                }
            }
            lemma_index_of_id(kept, id);
            assert(entries == kept);
            assert forall|k: int| 0 <= k < next.len() implies (#[trigger] next[k]).id
                != history[place].id by {
                assert(next[k] == entries[k] || next[k].id == entries[k].id);
                assert(kept[k].id != id);
            }
            if i < place {
                assert(next[i] == entries[i] || entries[i].entry is LoadingModel);
            }
            if i > place {
                assert(next[i - 1] == entries[i - 1] || entries[i - 1].entry is LoadingModel);
            }
        }
    }
}

/// A turn that failed is left without an answer, and waits for nothing. A notice with the
/// error, under a number of its own, stands at the end. The other entries stay; only those
/// on loading may say something else.
pub proof fn failed_turn_leaves_a_notice(
    app: AppModel,
    at: int,
    event: JobModel,
    tools: Seq<ToolView>,
    now: u64,
    place: int,
    i: int,
)
    requires
        sound(app),
        app.next_history_id < u64::MAX,
        0 <= at < app.threads.len(),
        event.tab_id() == app.threads[at].tab_id,
        event is Error,
        0 <= place < app.threads[at].history.len(),
        app.threads[at].history[place].id == event.turn_id(),
        app.threads[at].history[place].entry is Assistant,
        0 <= i < app.threads[at].history.len(),
    ensures
        ({
            let history = app.threads[at].history;
            let next = app.job_heard(event, tools, now).0.threads[at].history;
            &&& next.len() == history.len() + 1
            &&& next.last().entry == EntryModel::SystemNotice(event->error)
            &&& next.last().meta == MetaModel::Plain
            &&& next.last().id == app.next_history_id
            &&& app.job_heard(event, tools, now).0.next_history_id == app.next_history_id + 1
            &&& has_answer(next[place], history[place], Seq::empty())
            &&& next[place].entry->Assistant_0.callouts
                == history[place].entry->Assistant_0.callouts
            &&& i != place && !(history[i].entry is LoadingModel) ==> next[i] == history[i]
        }),
{
    let thread = app.threads[at];
    let history = thread.history;
    assert(tidy(thread, app.next_history_id as int));
    lemma_end_heard(app, at, event, tools, now);
    lemma_index_of_tab(app.threads, event.tab_id());
    if let JobModel::Error { assistant_entry_id: id, error, .. } = event {
        let change = |turn: TurnModel| answered(turn, Seq::empty(), Seq::empty());
        only_the_named_turn_changes(history, id, change, place);
        only_the_named_turn_changes(history, id, change, i);
        let was = history[place].entry->Assistant_0.callouts;
        assert(was + Seq::<Seq<char>>::empty() =~= was);
        let entries = ended(history, event, app.next_history_id);
        let next = app.job_heard(event, tools, now).0.threads[at].history;
        let last = history.len() as int;
        assert(next[place] == entries[place]);
        assert(next[last] == entries[last] || entries[last].entry is LoadingModel);
        assert(next[i] == entries[i] || entries[i].entry is LoadingModel);
        if i != place {
            if i < place {
                assert(history[i].id != history[place].id);
            } else {
                assert(history[place].id != history[i].id);
            }
        }
    }
}

/// What a model has answered so far is shown, all of it and nothing else, and nothing else
/// in the conversation changes.
pub proof fn piece_of_an_answer_is_shown(
    app: AppModel,
    at: int,
    event: JobModel,
    tools: Seq<ToolView>,
    now: u64,
    place: int,
    i: int,
)
    requires
        sound(app),
        0 <= at < app.threads.len(),
        event.tab_id() == app.threads[at].tab_id,
        event is Chunk,
        0 <= place < app.threads[at].history.len(),
        app.threads[at].history[place].id == event.turn_id(),
        app.threads[at].history[place].entry is Assistant,
        0 <= i < app.threads[at].history.len(),
    ensures
        ({
            let thread = app.threads[at];
            let (next, effect) = app.job_heard(event, tools, now);
            let after = next.threads[at];
            &&& effect is Continue
            &&& after.queue == thread.queue
            &&& after.running_job == thread.running_job
            &&& after.running_assistant_id == thread.running_assistant_id
            &&& after.history.len() == thread.history.len()
            &&& has_answer(
                after.history[place],
                thread.history[place],
                event->Chunk_markdown.blocks,
            )
            &&& notes_the_calls(
                after.history[place].entry->Assistant_0.callouts,
                thread.history[place].entry->Assistant_0.callouts,
                event->Chunk_markdown.tool_call_detected,
            )
            &&& i != place ==> after.history[i] == thread.history[i]
        }),
{
    let thread = app.threads[at];
    let history = thread.history;
    lemma_notes_the_calls(
        history[place].entry->Assistant_0.callouts,
        event->Chunk_markdown.tool_call_detected,
    );
    assert(tidy(thread, app.next_history_id as int));
    lemma_index_of_tab(app.threads, event.tab_id());
    let found = app.index_of_tab(event.tab_id()).unwrap();
    if found < at {
        assert(app.threads[found].tab_id != app.threads[at].tab_id);
    }
    if found > at {
        assert(app.threads[at].tab_id != event.tab_id());
    }
    if let JobModel::Chunk { assistant_entry_id: id, markdown, .. } = event {
        let change = |turn: TurnModel| answering(turn, markdown.blocks);
        let changed = turn_changed(history, id, change);
        let note = |turn: TurnModel|
            TurnModel {
                callouts: tool_noted(turn.callouts, markdown.tool_call_detected),
                ..turn
            };
        only_the_named_turn_changes(history, id, change, place);
        only_the_named_turn_changes(history, id, change, i);
        lemma_turn_changed_marks(history, id, change);
        assert forall|k: int, l: int| 0 <= k < l < changed.len() implies (
        #[trigger] changed[k]).id != (#[trigger] changed[l]).id by {
            assert(changed[k].id == history[k].id);
            assert(changed[l].id == history[l].id);
            assert(history[k].id != history[l].id);
        }
        only_the_named_turn_changes(changed, id, note, place);
        only_the_named_turn_changes(changed, id, note, i);
        if i != place {
            if i < place {
                assert(history[i].id != history[place].id);
            } else {
                assert(history[place].id != history[i].id);
            }
        }
    }
}

/// What the runtime does for a turn is shown with the turn, and since when. Once it
/// generates, its model counts as loaded; before that nothing counts as loaded that was
/// not. The other turns stay as they are.
pub proof fn status_is_shown_with_its_turn(
    app: AppModel,
    at: int,
    event: JobModel,
    tools: Seq<ToolView>,
    now: u64,
    place: int,
    i: int,
)
    requires
        sound(app),
        0 <= at < app.threads.len(),
        event.tab_id() == app.threads[at].tab_id,
        event is Status,
        0 <= place < app.threads[at].history.len(),
        app.threads[at].history[place].id == event.turn_id(),
        app.threads[at].history[place].entry is Assistant,
        0 <= i < app.threads[at].history.len(),
    ensures
        ({
            let thread = app.threads[at];
            let (next, effect) = app.job_heard(event, tools, now);
            let after = next.threads[at];
            let was = thread.history[place].entry->Assistant_0;
            &&& effect is Continue
            &&& after.queue == thread.queue
            &&& after.running_job == thread.running_job
            &&& after.history.len() == thread.history.len()
            &&& after.history[place].id == thread.history[place].id
            &&& after.history[place].entry matches EntryModel::Assistant(turn) && {
                &&& turn.prompt == was.prompt
                &&& turn.blocks == was.blocks
                &&& turn.model_id == was.model_id
                &&& turn.status == Some(
                    match event->status {
                        StatusView::Queued { .. } => AssistantStatus::Queued { started_at: now },
                        StatusView::Loading { .. } => AssistantStatus::Loading { started_at: now },
                        StatusView::Generating { .. } => AssistantStatus::Generating {
                            started_at: now,
                        },
                    },
                )
            }
            &&& i != place && !(thread.history[i].entry is LoadingModel) ==> after.history[i]
                == thread.history[i]
            &&& after.loaded_models == if event->status is Generating {
                thread.loaded_models.insert(was.model_id)
            } else {
                thread.loaded_models
            }
            &&& is_loading_of(thread.history[i], was.model_id) && (forall|k: int|
                i < k < thread.history.len() ==> !is_loading_of(
                    #[trigger] thread.history[k],
                    was.model_id,
                )) ==> {
                &&& event->status is Generating ==> after.history[i].entry == (
                EntryModel::LoadingModel {
                    model_id: was.model_id,
                    status: Some(ModelLoadStatus::Loaded),
                })
                &&& event->status is Loading ==> after.history[i].entry == (
                EntryModel::LoadingModel {
                    model_id: was.model_id,
                    status: Some(ModelLoadStatus::Loading { started_at: now }),
                })
                &&& event->status is Queued ==> after.history[i] == thread.history[i]
            }
        }),
{
    let thread = app.threads[at];
    let history = thread.history;
    assert(tidy(thread, app.next_history_id as int));
    lemma_index_of_tab(app.threads, event.tab_id());
    let found = app.index_of_tab(event.tab_id()).unwrap();
    if found < at {
        assert(app.threads[found].tab_id != app.threads[at].tab_id);
    }
    if found > at {
        assert(app.threads[at].tab_id != event.tab_id());
    }
    if let JobModel::Status { assistant_entry_id: id, status, .. } = event {
        lemma_place_of(history, place);
        let model_id = history[place].entry->Assistant_0.model_id;
        let begun = ModelLoadStatus::Loading { started_at: now };
        let told = match status {
            StatusView::Queued { .. } => history,
            StatusView::Loading { .. } => loading_set(history, model_id, begun),
            StatusView::Generating { .. } => loading_set(
                history,
                model_id,
                ModelLoadStatus::Loaded,
            ),
        };
        let shown = match status {
            StatusView::Queued { .. } => AssistantStatus::Queued { started_at: now },
            StatusView::Loading { .. } => AssistantStatus::Loading { started_at: now },
            StatusView::Generating { .. } => AssistantStatus::Generating { started_at: now },
        };
        lemma_loading_set_marks(history, model_id, begun);
        lemma_loading_set_marks(history, model_id, ModelLoadStatus::Loaded);
        loading_is_noted_in_its_last_entry(history, model_id, begun, i);
        loading_is_noted_in_its_last_entry(history, model_id, ModelLoadStatus::Loaded, i);
        loading_is_noted_in_its_last_entry(history, model_id, begun, place);
        loading_is_noted_in_its_last_entry(history, model_id, ModelLoadStatus::Loaded, place);
        assert(same_marks(told, history));
        assert forall|k: int, l: int| 0 <= k < l < told.len() implies (#[trigger] told[k]).id != (
        #[trigger] told[l]).id by {
            assert(told[k].id == history[k].id);
            assert(told[l].id == history[l].id);
            assert(history[k].id != history[l].id);
        }
        let change = |turn: TurnModel| TurnModel { status: Some(shown), ..turn };
        assert(told[place].id == history[place].id);
        assert(told[i].id == history[i].id);
        only_the_named_turn_changes(told, id, change, place);
        only_the_named_turn_changes(told, id, change, i);
        if i != place {
            if i < place {
                assert(history[i].id != history[place].id);
            } else {
                assert(history[place].id != history[i].id);
            }
        }
    }
}

/// Once a model answers a turn, the turn runs, under the number of its request; no other
/// entry changes, and what waits goes on waiting. Where it could not be asked after all,
/// nothing runs, the turn waits again before all others, and the error is reported for
/// this turn.
pub proof fn begun_turn_runs_or_waits_again(
    app: AppModel,
    at: int,
    place: int,
    answer: Result<u64, Seq<char>>,
    i: int,
)
    requires
        sound(app),
        0 <= at < app.threads.len(),
        0 <= place < app.threads[at].history.len(),
        app.threads[at].history[place].entry is Assistant,
        0 <= i < app.threads[at].history.len(),
    ensures
        ({
            let thread = app.threads[at];
            let id = thread.history[place].id;
            let job = ThreadJob { assistant_entry_id: id };
            let (next, effect) = app.stream_answered(at, job, answer);
            let after = next.threads[at];
            match answer {
                Ok(number) => {
                    &&& effect is Continue
                    &&& after.running_job
                    &&& after.running_assistant_id == Some(id)
                    &&& after.queue == thread.queue
                    &&& after.history.len() == thread.history.len()
                    &&& after.history[place].id == id
                    &&& after.history[place].entry == EntryModel::Assistant(
                        TurnModel {
                            sequence_number: Some(number),
                            ..thread.history[place].entry->Assistant_0
                        },
                    )
                    &&& i != place ==> after.history[i] == thread.history[i]
                },
                Err(message) => {
                    &&& !after.running_job
                    &&& after.running_assistant_id is None
                    &&& queued_numbers(after) == seq![id] + queued_numbers(thread)
                    &&& after.history == thread.history
                    &&& effect matches EffectModel::ReportError {
                        tab_id,
                        assistant_entry_id,
                        error,
                    } && tab_id == thread.tab_id && assistant_entry_id == id && error
                        == "runtime error: "@ + message
                },
            }
        }),
{
    let thread = app.threads[at];
    let history = thread.history;
    assert(tidy(thread, app.next_history_id as int));
    let id = history[place].id;
    let job = ThreadJob { assistant_entry_id: id };
    match answer {
        Ok(number) => {
            let change = |turn: TurnModel| TurnModel { sequence_number: Some(number), ..turn };
            only_the_named_turn_changes(history, id, change, place);
            only_the_named_turn_changes(history, id, change, i);
            if i != place {
                if i < place {
                    assert(history[i].id != history[place].id);
                } else {
                    assert(history[place].id != history[i].id);
                }
            }
        },
        Err(_) => {
            let after = app.stream_answered(at, job, answer).0.threads[at];
            assert(queued_numbers(after) =~= seq![id] + queued_numbers(thread));
        },
    }
}

/// What is heard of a conversation that is gone changes nothing.
pub proof fn gone_conversation_hears_nothing(
    app: AppModel,
    event: JobModel,
    tools: Seq<ToolView>,
    now: u64,
)
    requires
        forall|i: int|
            0 <= i < app.threads.len() ==> (#[trigger] app.threads[i]).tab_id != event.tab_id(),
    ensures
        app.job_heard(event, tools, now) == (app, EffectModel::Continue),
{
    lemma_index_of_tab(app.threads, event.tab_id());
}

/// Once the connection to its model is open, a turn is sent, the one that was meant and as it was
/// asked for, and the conversation is connected to the model; the loading of a model that is not
/// loaded begins. Where the connection could not be had, the program ends with the error.
pub proof fn opened_turn_is_sent(
    app: AppModel,
    at: int,
    job: ThreadJob,
    turn: TurnRequestModel,
    error: Seq<char>,
    now: u64,
    i: int,
)
    requires
        0 <= at < app.threads.len() <= usize::MAX,
        0 <= i < app.threads[at].history.len(),
    ensures
        ({
            let thread = app.threads[at];
            let model_id = turn.config.model_id;
            let (next, effect) = app.job_resumed(at, job, turn, AfterStart::Nothing, Ok(()), now);
            let after = next.threads[at];
            &&& effect == EffectModel::StartStream { thread_index: at as usize, job, turn }
            &&& after.connections == thread.connections.insert(model_id)
            &&& after.queue == thread.queue
            &&& after.history.len() == thread.history.len()
            &&& !(thread.history[i].entry is LoadingModel) ==> after.history[i]
                == thread.history[i]
            &&& !thread.loaded_models.contains(model_id) && is_loading_of(
                thread.history[i],
                model_id,
            ) && (forall|k: int|
                i < k < thread.history.len() ==> !is_loading_of(
                    #[trigger] thread.history[k],
                    model_id,
                )) ==> after.history[i].entry == (EntryModel::LoadingModel {
                model_id,
                status: Some(ModelLoadStatus::Loading { started_at: now }),
            })
            &&& thread.loaded_models.contains(model_id) ==> after.history == thread.history
            &&& app.job_resumed(at, job, turn, AfterStart::Nothing, Err(error), now) == (
                app,
                EffectModel::Fail(error),
            )
        }),
{
    let thread = app.threads[at];
    let status = ModelLoadStatus::Loading { started_at: now };
    loading_is_noted_in_its_last_entry(thread.history, turn.config.model_id, status, i);
    lemma_loading_set_touches_loading_only(thread.history, turn.config.model_id, status);
}

/// What comes out of the stream of a turn is heard for that turn, with the answer up to there. The
/// calls in a complete answer are listed where tools are enabled, and only there.
pub proof fn stream_is_heard_for_its_turn(
    tab_id: usize,
    id: u64,
    item: ItemView,
    markdown: MarkdownModel,
    tools_enabled: bool,
    format: ToolFormat,
    tools: Seq<ToolView>,
)
    ensures
        ({
            let event = heard(tab_id, id, item, markdown, tools_enabled, format, tools);
            &&& event.tab_id() == tab_id
            &&& event.turn_id() == id
            &&& item is Chunk ==> event is Chunk && event->Chunk_markdown == markdown
            &&& item is Interrupted ==> event is Interrupted && event->Interrupted_markdown
                == markdown
            &&& item is Complete ==> event is Complete && event->Complete_markdown == markdown
            &&& item is Complete && !tools_enabled ==> event->callouts.len() == 0
            &&& item is Complete && tools_enabled ==> event->callouts == callouts_for(
                calls_in(format, raw_text(markdown.blocks)),
                Seq::new(tools.len(), |i: int| tools[i].name),
            )
            &&& item matches ItemView::Error(error) ==> event is Error && event->error
                == "runtime error: "@ + error.message()
            &&& item is Closed ==> event is Error && event->error == "runtime stream closed"@
        }),
{
    assert(tool_names(tools) =~= Seq::new(tools.len(), |i: int| tools[i].name));
}

/// An answer is said to call a tool exactly where a call can be read in all that was written in
/// it.
pub proof fn call_is_detected_where_it_can_be_read(blocks: Seq<BlockModel>, format: ToolFormat)
    ensures
        answer_of(blocks, format).blocks == blocks,
        answer_of(blocks, format).tool_call_detected <==> exists|i: int|
            0 <= i < calls_in(format, raw_text(blocks)).len() && (#[trigger] calls_in(
                format,
                raw_text(blocks),
            )[i]).name == calls_in(format, raw_text(blocks))[i].name,
{
    let calls = calls_in(format, raw_text(blocks));
    if calls.len() > 0 {
        assert(calls[0].name == calls[0].name);
    }
}

} // verus!
