//! A conversation: its entries, its settings, and the turns that wait for a
//! model.

use std::collections::VecDeque;

use vstd::prelude::*;
use vstd::string::*;

use crate::history::{
    block_models, entry_models, item_models, AssistantStatus, BlockModel, CommandKind, EntryModel,
    HistoryEntry, HistoryItem, HistoryMeta, ItemModel, KindModel, MarkdownBlock, MetaModel,
    ModelLoadStatus, ScrollAnchor, TurnModel,
};
use crate::model_set::ModelSet;
use crate::text::{decimal, decimal_text, joined3, same_text, text_option, texts};

verus! {

/// What sending the draft does.
#[derive(Debug, Clone, Copy, PartialEq, Eq, Structural)]
pub enum ComposeTarget {
    /// Replaces the prompt of an entry.
    EditEntry(u64),
    /// Adds a turn.
    AppendBottom,
}

/// The settings that a turn is answered with.
#[derive(Debug)]
pub struct ThreadConfig {
    pub model_id: String,
    pub tools_enabled: bool,
}

/// The settings by their contents.
pub struct ConfigModel {
    pub model_id: Seq<char>,
    pub tools_enabled: bool,
}

impl View for ThreadConfig {
    type V = ConfigModel;

    open spec fn view(&self) -> ConfigModel {
        ConfigModel { model_id: self.model_id@, tools_enabled: self.tools_enabled }
    }
}

impl Clone for ThreadConfig {
    fn clone(&self) -> (copy: Self)
        ensures
            copy@ == self@,
    {
        ThreadConfig { model_id: self.model_id.clone(), tools_enabled: self.tools_enabled }
    }
}

/// A turn that waits for a model.
#[derive(Debug, Clone, Copy, PartialEq, Eq, Structural)]
pub struct ThreadJob {
    pub assistant_entry_id: u64,
}

/// A conversation.
#[derive(Debug)]
pub struct ThreadState {
    pub tab_id: usize,
    pub base_config: ThreadConfig,
    pub current_config: ThreadConfig,
    pub name_override: Option<String>,
    pub history: Vec<HistoryItem>,
    pub selected_chat_entry: Option<usize>,
    pub compose_target: ComposeTarget,
    pub draft: String,
    pub scroll_anchor: ScrollAnchor,
    pub queue: VecDeque<ThreadJob>,
    pub running_job: bool,
    pub running_assistant_id: Option<u64>,
    pub loaded_models: ModelSet,
    pub connections: ModelSet,
    pub has_unseen_changes: bool,
}

/// A conversation by its contents.
#[verifier::ext_equal]
pub struct ThreadModel {
    pub tab_id: usize,
    pub base_config: ConfigModel,
    pub current_config: ConfigModel,
    pub name_override: Option<Seq<char>>,
    pub history: Seq<ItemModel>,
    pub selected: Option<usize>,
    pub compose_target: ComposeTarget,
    pub draft: Seq<char>,
    pub scroll_anchor: ScrollAnchor,
    pub queue: Seq<ThreadJob>,
    pub running_job: bool,
    pub running_assistant_id: Option<u64>,
    pub loaded_models: Set<Seq<char>>,
    pub connections: Set<Seq<char>>,
    pub has_unseen_changes: bool,
}

impl View for ThreadState {
    type V = ThreadModel;

    open spec fn view(&self) -> ThreadModel {
        ThreadModel {
            tab_id: self.tab_id,
            base_config: self.base_config@,
            current_config: self.current_config@,
            name_override: text_option(self.name_override),
            history: item_models(self.history@),
            selected: self.selected_chat_entry,
            compose_target: self.compose_target,
            draft: self.draft@,
            scroll_anchor: self.scroll_anchor,
            queue: self.queue@,
            running_job: self.running_job,
            running_assistant_id: self.running_assistant_id,
            loaded_models: self.loaded_models@,
            connections: self.connections@,
            has_unseen_changes: self.has_unseen_changes,
        }
    }
}

/// The contents of a list of conversations.
pub open spec fn thread_models(threads: Seq<ThreadState>) -> Seq<ThreadModel> {
    threads.map_values(|thread: ThreadState| thread@)
}

/// A conversation that nothing was said in.
pub open spec fn fresh_thread(tab_id: usize, config: ConfigModel) -> ThreadModel {
    ThreadModel {
        tab_id,
        base_config: config,
        current_config: config,
        name_override: None,
        history: Seq::empty(),
        selected: None,
        compose_target: ComposeTarget::AppendBottom,
        draft: Seq::empty(),
        scroll_anchor: ScrollAnchor::Bottom,
        queue: Seq::empty(),
        running_job: false,
        running_assistant_id: None,
        loaded_models: Set::empty(),
        connections: Set::empty().insert(config.model_id),
        has_unseen_changes: false,
    }
}

/// The place of the entry with a number.
pub open spec fn index_of_id(history: Seq<ItemModel>, id: u64) -> Option<int>
    decreases history.len(),
{
    if history.len() == 0 {
        None
    } else if history[0].id == id {
        Some(0)
    } else {
        match index_of_id(history.drop_first(), id) {
            Some(at) => Some(at + 1),
            None => None,
        }
    }
}

/// The place found is that of the first entry with the number, and where none is
/// found no entry has it.
pub(crate) proof fn lemma_index_of_id(history: Seq<ItemModel>, id: u64)
    ensures
        match index_of_id(history, id) {
            Some(at) => 0 <= at < history.len() && history[at].id == id && forall|i: int|
                0 <= i < at ==> (#[trigger] history[i]).id != id,
            None => forall|i: int| 0 <= i < history.len() ==> (#[trigger] history[i]).id != id,
        },
    decreases history.len(),
{
    if history.len() > 0 && history[0].id != id {
        let rest = history.drop_first();
        lemma_index_of_id(rest, id);
        assert forall|i: int| 0 < i < history.len() implies #[trigger] history[i] == rest[i
            - 1] by {}
    }
}

/// The conversation with its entries replaced.
pub open spec fn with_history(thread: ThreadModel, history: Seq<ItemModel>) -> ThreadModel {
    ThreadModel { history, ..thread }
}

/// The entries with one turn changed: the one with the number, where that is a
/// turn.
pub open spec fn turn_changed(
    history: Seq<ItemModel>,
    id: u64,
    change: spec_fn(TurnModel) -> TurnModel,
) -> Seq<ItemModel> {
    match index_of_id(history, id) {
        Some(at) => match history[at].entry {
            EntryModel::Assistant(turn) => history.update(
                at,
                ItemModel { entry: EntryModel::Assistant(change(turn)), ..history[at] },
            ),
            _ => history,
        },
        None => history,
    }
}

/// The place of the last entry on the loading of a model.
pub open spec fn last_loading(history: Seq<ItemModel>, model_id: Seq<char>) -> Option<int>
    decreases history.len(),
{
    if history.len() == 0 {
        None
    } else if is_loading_of(history.last(), model_id) {
        Some(history.len() - 1)
    } else {
        last_loading(history.drop_last(), model_id)
    }
}

/// Whether an entry is on the loading of a model.
pub open spec fn is_loading_of(item: ItemModel, model_id: Seq<char>) -> bool {
    item.entry matches EntryModel::LoadingModel { model_id: loaded, .. } && loaded == model_id
}

/// The entries with the status of a model in the last entry on its loading.
pub open spec fn loading_set(
    history: Seq<ItemModel>,
    model_id: Seq<char>,
    status: ModelLoadStatus,
) -> Seq<ItemModel> {
    match last_loading(history, model_id) {
        Some(at) => history.update(
            at,
            ItemModel {
                entry: EntryModel::LoadingModel { model_id, status: Some(status) },
                ..history[at]
            },
        ),
        None => history,
    }
}

/// Whether an entry on the loading of `model_id` is missing before the turn at
/// `at`.
pub open spec fn lacks_loading_entry(history: Seq<ItemModel>, at: int, model_id: Seq<char>) -> bool {
    !(at > 0 && is_loading_of(history[at - 1], model_id))
}

/// The entries with one on the loading of the model of the turn at `at` before
/// it, unless the model is loaded or the entry is there.
pub open spec fn loading_inserted(
    history: Seq<ItemModel>,
    loaded: Set<Seq<char>>,
    at: int,
    id: u64,
    now: u64,
) -> Seq<ItemModel> {
    if 0 <= at < history.len() {
        match history[at].entry {
            EntryModel::Assistant(turn) => if !loaded.contains(turn.model_id)
                && lacks_loading_entry(history, at, turn.model_id) {
                history.insert(at, loading_item(id, turn.model_id, now))
            } else {
                history
            },
            _ => history,
        }
    } else {
        history
    }
}

/// An entry on the loading of a model that begins now.
pub open spec fn loading_item(id: u64, model_id: Seq<char>, now: u64) -> ItemModel {
    ItemModel {
        id,
        entry: EntryModel::LoadingModel {
            model_id,
            status: Some(ModelLoadStatus::Loading { started_at: now }),
        },
        meta: MetaModel::Plain,
    }
}

/// The settings after one entry.
pub open spec fn config_set(config: ConfigModel, meta: MetaModel) -> ConfigModel {
    match meta {
        MetaModel::Command(KindModel::Model(model_id)) => ConfigModel { model_id, ..config },
        MetaModel::Command(KindModel::Tools(enabled)) => ConfigModel {
            tools_enabled: enabled,
            ..config
        },
        _ => config,
    }
}

/// The settings after a list of entries: each command replaces what the ones
/// before it set.
pub open spec fn config_after(config: ConfigModel, history: Seq<ItemModel>) -> ConfigModel
    decreases history.len(),
{
    if history.len() == 0 {
        config
    } else {
        config_set(config_after(config, history.drop_last()), history.last().meta)
    }
}

/// The settings for the entry at `at`: those after it and all entries before it.
pub open spec fn config_until(thread: ThreadModel, at: int) -> ConfigModel {
    config_after(
        thread.base_config,
        thread.history.take(
            if at + 1 < thread.history.len() {
                at + 1
            } else {
                thread.history.len() as int
            },
        ),
    )
}

/// The conversation with its settings made to agree with its entries.
pub open spec fn reconfigured(thread: ThreadModel) -> ThreadModel {
    ThreadModel { current_config: config_after(thread.base_config, thread.history), ..thread }
}

/// A turn that was just asked for.
pub open spec fn new_turn(
    id: u64,
    model_id: Seq<char>,
    prompt: Seq<char>,
    status: Option<AssistantStatus>,
) -> ItemModel {
    ItemModel {
        id,
        entry: EntryModel::Assistant(
            TurnModel {
                model_id,
                prompt,
                blocks: Seq::empty(),
                callouts: Seq::empty(),
                status,
                sequence_number: None,
            },
        ),
        meta: MetaModel::Plain,
    }
}

/// Where moving the selection by `delta` takes it: no further than the first and
/// the last entry. Without a selection the move starts at the last entry.
pub open spec fn moved_selection(count: nat, selected: Option<usize>, delta: int) -> Option<usize> {
    if count == 0 {
        None
    } else {
        let from: int = match selected {
            Some(at) => at as int,
            None => count - 1,
        };
        let to = from + delta;
        Some(
            (if to < 0 {
                0
            } else if to > count - 1 {
                count - 1
            } else {
                to
            }) as usize,
        )
    }
}

/// An entry whose loading is known to be over says so.
pub open spec fn loading_synced(item: ItemModel, loaded: Set<Seq<char>>) -> ItemModel {
    match item.entry {
        EntryModel::LoadingModel { model_id, .. } => if loaded.contains(model_id) {
            ItemModel {
                entry: EntryModel::LoadingModel {
                    model_id,
                    status: Some(ModelLoadStatus::Loaded),
                },
                ..item
            }
        } else {
            item
        },
        _ => item,
    }
}

/// The conversation with its loading entries up to date and its selection on an
/// entry. While an entry is edited something is selected.
pub open spec fn normalized(thread: ThreadModel) -> ThreadModel {
    let count = thread.history.len();
    ThreadModel {
        history: thread.history.map_values(
            |item: ItemModel| loading_synced(item, thread.loaded_models),
        ),
        selected: if count == 0 {
            None
        } else {
            match thread.selected {
                Some(at) => if at >= count {
                    Some((count - 1) as usize)
                } else {
                    Some(at)
                },
                None => if thread.compose_target == ComposeTarget::AppendBottom {
                    None
                } else {
                    Some((count - 1) as usize)
                },
            }
        },
        ..thread
    }
}

impl ThreadState {
    /// The sets hold no model twice.
    pub open spec fn wf(&self) -> bool {
        self.loaded_models.wf() && self.connections.wf()
    }

    /// A conversation that nothing was said in, connected to its model.
    pub fn new(tab_id: usize, model_id: &str, tools_enabled: bool) -> (thread: Self)
        ensures
            thread.wf(),
            thread@ == fresh_thread(tab_id, ConfigModel { model_id: model_id@, tools_enabled }),
    {
        let thread = ThreadState {
            tab_id,
            base_config: ThreadConfig { model_id: model_id.to_string(), tools_enabled },
            current_config: ThreadConfig { model_id: model_id.to_string(), tools_enabled },
            name_override: None,
            history: Vec::new(),
            selected_chat_entry: None,
            compose_target: ComposeTarget::AppendBottom,
            draft: String::new(),
            scroll_anchor: ScrollAnchor::Bottom,
            queue: VecDeque::new(),
            running_job: false,
            running_assistant_id: None,
            loaded_models: ModelSet::new(),
            connections: ModelSet::of(model_id),
            has_unseen_changes: false,
        };
        assert(thread@ =~= fresh_thread(
            tab_id,
            ConfigModel { model_id: model_id@, tools_enabled },
        ));
        thread
    }
}

/// Finds the entry with a number.
pub fn find_history_index(thread: &ThreadState, entry_id: u64) -> (index: Option<usize>)
    ensures
        index_of_id(thread@.history, entry_id) == (match index {
            Some(at) => Some(at as int),
            None => None::<int>,
        }),
        index matches Some(at) ==> at < thread.history@.len() && thread.history@[at as int].id
            == entry_id,
{
    let ghost all = thread@.history;
    let mut at: usize = 0;
    while at < thread.history.len()
        invariant
            at <= thread.history@.len(),
            all == item_models(thread.history@),
            forall|k: int| 0 <= k < at ==> (#[trigger] all[k]).id != entry_id,
        decreases thread.history@.len() - at,
    {
        if thread.history[at].id == entry_id {
            proof {
                lemma_index_of_id(all, entry_id);
                assert(all[at as int].id == entry_id);
                let found = index_of_id(all, entry_id).unwrap();
                if found < at {
                    assert(all[found].id != entry_id);
                }
                if found > at {
                    assert(all[at as int].id != entry_id);
                }
            }
            return Some(at);
        }
        assert(all[at as int].id != entry_id);
        at = at + 1;
    }
    proof {
        lemma_index_of_id(all, entry_id);
    }
    None
}

/// The entries without their numbers.
pub fn history_entries(thread: &ThreadState) -> (entries: Vec<HistoryEntry>)
    ensures
        entry_models(entries@) == thread@.history.map_values(|item: ItemModel| item.entry),
{
    let mut entries: Vec<HistoryEntry> = Vec::new();
    let mut i: usize = 0;
    while i < thread.history.len()
        invariant
            i <= thread.history@.len(),
            entries@.len() == i,
            forall|k: int| 0 <= k < i ==> #[trigger] entries@[k]@ == thread.history@[k].entry@,
        decreases thread.history@.len() - i,
    {
        entries.push(thread.history[i].entry.clone());
        i = i + 1;
    }
    assert(entry_models(entries@) =~= thread@.history.map_values(|item: ItemModel| item.entry));
    entries
}

/// Adds an entry at the end.
pub fn push_history_entry(
    thread: &mut ThreadState,
    id: u64,
    entry: HistoryEntry,
    meta: HistoryMeta,
)
    requires
        old(thread).wf(),
    ensures
        final(thread).wf(),
        final(thread)@ == with_history(
            old(thread)@,
            old(thread)@.history.push(ItemModel { id, entry: entry@, meta: meta@ }),
        ),
{
    let item = HistoryItem { id, entry, meta };
    thread.history.push(item);
    assert(item_models(thread.history@) =~= old(thread)@.history.push(item@));
}

/// The entries with the one of a number replaced.
pub open spec fn entry_replaced(
    history: Seq<ItemModel>,
    id: u64,
    entry: EntryModel,
    meta: MetaModel,
) -> Seq<ItemModel> {
    match index_of_id(history, id) {
        Some(at) => history.update(at, ItemModel { entry, meta, ..history[at] }),
        None => history,
    }
}

/// Replaces the entry with a number.
pub fn replace_history_entry(
    thread: &mut ThreadState,
    entry_id: u64,
    entry: HistoryEntry,
    meta: HistoryMeta,
)
    requires
        old(thread).wf(),
    ensures
        final(thread).wf(),
        final(thread)@ == with_history(
            old(thread)@,
            entry_replaced(old(thread)@.history, entry_id, entry@, meta@),
        ),
{
    if let Some(at) = find_history_index(thread, entry_id) {
        thread.history[at].entry = entry;
        thread.history[at].meta = meta;
        assert(item_models(thread.history@) =~= entry_replaced(
            old(thread)@.history,
            entry_id,
            entry@,
            meta@,
        ));
    }
}

/// Puts a turn without an answer at a place.
pub fn insert_assistant_turn_at(
    thread: &mut ThreadState,
    index: usize,
    assistant_id: u64,
    model_id: String,
    prompt: String,
    status: Option<AssistantStatus>,
)
    requires
        old(thread).wf(),
        index <= old(thread)@.history.len(),
    ensures
        final(thread).wf(),
        final(thread)@ == with_history(
            old(thread)@,
            old(thread)@.history.insert(
                index as int,
                new_turn(assistant_id, model_id@, prompt@, status),
            ),
        ),
{
    let item = HistoryItem {
        id: assistant_id,
        entry: HistoryEntry::Assistant {
            model_id,
            prompt,
            blocks: Vec::new(),
            callouts: Vec::new(),
            status,
            sequence_number: None,
        },
        meta: HistoryMeta::Plain,
    };
    assert(item@ =~= new_turn(assistant_id, model_id@, prompt@, status));
    thread.history.insert(index, item);
    assert(item_models(thread.history@) =~= old(thread)@.history.insert(index as int, item@));
}

/// Puts a turn that waits for its answer at the end.
pub fn insert_pending_assistant_turn(
    thread: &mut ThreadState,
    assistant_id: u64,
    model_id: String,
    prompt: String,
    now: u64,
)
    requires
        old(thread).wf(),
    ensures
        final(thread).wf(),
        final(thread)@ == with_history(
            old(thread)@,
            old(thread)@.history.push(
                new_turn(
                    assistant_id,
                    model_id@,
                    prompt@,
                    Some(AssistantStatus::Queued { started_at: now }),
                ),
            ),
        ),
{
    let end: usize = thread.history.len();
    let status = AssistantStatus::Queued { started_at: now };
    insert_assistant_turn_at(thread, end, assistant_id, model_id, prompt, Some(status));
    assert(old(thread)@.history.insert(
        end as int,
        new_turn(assistant_id, model_id@, prompt@, Some(status)),
    ) =~= old(thread)@.history.push(
        new_turn(assistant_id, model_id@, prompt@, Some(status)),
    ));
}

/// Whether an entry is on the loading of a model.
fn is_loading(item: &HistoryItem, model_id: &str) -> (yes: bool)
    ensures
        yes == is_loading_of(item@, model_id@),
{
    match &item.entry {
        HistoryEntry::LoadingModel { model_id: loaded, .. } => same_text(
            loaded.as_str(),
            model_id,
        ),
        _ => false,
    }
}

/// Puts an entry on the loading of its model before a turn, where one is due.
pub fn maybe_insert_loading_entry(
    thread: &mut ThreadState,
    assistant_index: usize,
    loading_id: u64,
    now: u64,
)
    requires
        old(thread).wf(),
    ensures
        final(thread).wf(),
        final(thread)@ == with_history(
            old(thread)@,
            loading_inserted(
                old(thread)@.history,
                old(thread)@.loaded_models,
                assistant_index as int,
                loading_id,
                now,
            ),
        ),
{
    if assistant_index >= thread.history.len() {
        return;
    }
    let model_id = match &thread.history[assistant_index].entry {
        HistoryEntry::Assistant { model_id, .. } => model_id.clone(),
        _ => return,
    };
    if thread.loaded_models.contains(model_id.as_str()) {
        return;
    }
    if assistant_index > 0 && is_loading(&thread.history[assistant_index - 1], model_id.as_str()) {
        return;
    }
    let item = HistoryItem {
        id: loading_id,
        entry: HistoryEntry::LoadingModel {
            model_id,
            status: Some(ModelLoadStatus::Loading { started_at: now }),
        },
        meta: HistoryMeta::Plain,
    };
    thread.history.insert(assistant_index, item);
    assert(item_models(thread.history@) =~= old(thread)@.history.insert(
        assistant_index as int,
        item@,
    ));
}

/// Notes the status of a model in the last entry on its loading.
pub fn set_loading_status(thread: &mut ThreadState, model_id: &str, status: ModelLoadStatus)
    requires
        old(thread).wf(),
    ensures
        final(thread).wf(),
        final(thread)@ == with_history(
            old(thread)@,
            loading_set(old(thread)@.history, model_id@, status),
        ),
{
    let ghost all = thread@.history;
    let mut upto: usize = thread.history.len();
    assert(all.take(upto as int) =~= all);
    while upto > 0
        invariant
            upto <= thread.history@.len(),
            thread@ == old(thread)@,
            thread.wf(),
            all == old(thread)@.history,
            last_loading(all, model_id@) == last_loading(all.take(upto as int), model_id@),
        decreases upto,
    {
        let at: usize = upto - 1;
        assert(all.take(upto as int).last() == thread.history@[at as int]@);
        if is_loading(&thread.history[at], model_id) {
            if let HistoryEntry::LoadingModel { status: entry_status, .. } = &mut thread.history[at].entry {
                *entry_status = Some(status);
            }
            assert(item_models(thread.history@) =~= loading_set(all, model_id@, status));
            return;
        }
        assert(all.take(upto as int).drop_last() =~= all.take(at as int));
        upto = at;
    }
}

/// Notes what a model is doing with a turn.
pub fn set_assistant_status(thread: &mut ThreadState, assistant_id: u64, status: AssistantStatus)
    requires
        old(thread).wf(),
    ensures
        final(thread).wf(),
        final(thread)@ == with_history(
            old(thread)@,
            turn_changed(
                old(thread)@.history,
                assistant_id,
                |turn: TurnModel| TurnModel { status: Some(status), ..turn },
            ),
        ),
{
    let ghost change = |turn: TurnModel| TurnModel { status: Some(status), ..turn };
    if let Some(at) = find_history_index(thread, assistant_id) {
        if let HistoryEntry::Assistant { status: entry_status, .. } = &mut thread.history[at].entry {
            *entry_status = Some(status);
        }
        assert(item_models(thread.history@) =~= turn_changed(
            old(thread)@.history,
            assistant_id,
            change,
        ));
    }
}

/// A turn whose answer is replaced by blocks as they arrive.
pub open spec fn answering(turn: TurnModel, blocks: Seq<BlockModel>) -> TurnModel {
    TurnModel { blocks, status: None, sequence_number: None, ..turn }
}

/// A turn whose answer is complete.
pub open spec fn answered(
    turn: TurnModel,
    blocks: Seq<BlockModel>,
    callouts: Seq<Seq<char>>,
) -> TurnModel {
    TurnModel {
        blocks,
        callouts: turn.callouts + callouts,
        status: None,
        sequence_number: None,
        ..turn
    }
}

/// Callouts with the note that a tool was called in front, or without it.
pub open spec fn tool_noted(callouts: Seq<Seq<char>>, detected: bool) -> Seq<Seq<char>> {
    let others = callouts.filter(|line: Seq<char>| line != "tool called"@);
    if detected {
        seq!["tool called"@] + others
    } else {
        others
    }
}

/// Shows what a model has answered so far.
pub fn replace_assistant_blocks(
    thread: &mut ThreadState,
    assistant_id: u64,
    blocks: Vec<MarkdownBlock>,
)
    requires
        old(thread).wf(),
    ensures
        final(thread).wf(),
        final(thread)@ == with_history(
            old(thread)@,
            turn_changed(
                old(thread)@.history,
                assistant_id,
                |turn: TurnModel| answering(turn, block_models(blocks@)),
            ),
        ),
{
    let ghost change = |turn: TurnModel| answering(turn, block_models(blocks@));
    if let Some(at) = find_history_index(thread, assistant_id) {
        if let HistoryEntry::Assistant {
            blocks: entry_blocks,
            status,
            sequence_number,
            ..
        } = &mut thread.history[at].entry {
            *status = None;
            *sequence_number = None;
            *entry_blocks = blocks;
        }
        assert(item_models(thread.history@) =~= turn_changed(
            old(thread)@.history,
            assistant_id,
            change,
        ));
    }
}

/// Completes the answer to a turn.
pub fn finalize_assistant(
    thread: &mut ThreadState,
    assistant_id: u64,
    blocks: Vec<MarkdownBlock>,
    callouts: Vec<String>,
)
    requires
        old(thread).wf(),
    ensures
        final(thread).wf(),
        final(thread)@ == with_history(
            old(thread)@,
            turn_changed(
                old(thread)@.history,
                assistant_id,
                |turn: TurnModel| answered(turn, block_models(blocks@), texts(callouts@)),
            ),
        ),
{
    let ghost change = |turn: TurnModel| answered(turn, block_models(blocks@), texts(callouts@));
    let mut callouts = callouts;
    if let Some(at) = find_history_index(thread, assistant_id) {
        if let HistoryEntry::Assistant {
            blocks: entry_blocks,
            callouts: entry_callouts,
            status,
            sequence_number,
            ..
        } = &mut thread.history[at].entry {
            let ghost before = texts(entry_callouts@);
            let ghost added = texts(callouts@);
            *entry_blocks = blocks;
            *status = None;
            *sequence_number = None;
            entry_callouts.append(&mut callouts);
            assert(texts(entry_callouts@) =~= before + added);
        }
        assert(item_models(thread.history@) =~= turn_changed(
            old(thread)@.history,
            assistant_id,
            change,
        ));
    }
}

/// The entries after a turn was interrupted: what was answered stays, and a turn
/// without any answer goes.
pub open spec fn interrupted(
    history: Seq<ItemModel>,
    id: u64,
    blocks: Seq<BlockModel>,
) -> Seq<ItemModel> {
    if blocks.len() == 0 {
        without_id(history, id)
    } else {
        turn_changed(history, id, |turn: TurnModel| answered(turn, blocks, Seq::empty()))
    }
}

/// The entries without the one of a number.
pub open spec fn without_id(history: Seq<ItemModel>, id: u64) -> Seq<ItemModel> {
    match index_of_id(history, id) {
        Some(at) => history.remove(at),
        None => history,
    }
}

/// Takes the entry with a number out.
pub fn remove_history_entry(thread: &mut ThreadState, entry_id: u64)
    requires
        old(thread).wf(),
    ensures
        final(thread).wf(),
        final(thread)@ == with_history(old(thread)@, without_id(old(thread)@.history, entry_id)),
{
    if let Some(at) = find_history_index(thread, entry_id) {
        let _ = thread.history.remove(at);
        assert(item_models(thread.history@) =~= old(thread)@.history.remove(at as int));
    }
}

/// Ends a turn that was interrupted.
pub fn finalize_interrupted_assistant(
    thread: &mut ThreadState,
    assistant_id: u64,
    blocks: Vec<MarkdownBlock>,
)
    requires
        old(thread).wf(),
    ensures
        final(thread).wf(),
        final(thread)@ == with_history(
            old(thread)@,
            interrupted(old(thread)@.history, assistant_id, block_models(blocks@)),
        ),
{
    if blocks.len() == 0 {
        remove_history_entry(thread, assistant_id);
        return;
    }
    let nothing: Vec<String> = Vec::new();
    assert(texts(nothing@) =~= Seq::<Seq<char>>::empty());
    finalize_assistant(thread, assistant_id, blocks, nothing);
}

/// The callouts other than the note that a tool was called.
fn other_callouts(callouts: &Vec<String>) -> (others: Vec<String>)
    ensures
        texts(others@) == texts(callouts@).filter(|line: Seq<char>| line != "tool called"@),
{
    let ghost keep = |line: Seq<char>| line != "tool called"@;
    let ghost all = texts(callouts@);
    let mut others: Vec<String> = Vec::new();
    let mut i: usize = 0;
    proof {
        reveal(Seq::filter);
    }
    assert(texts(others@) =~= all.take(0).filter(keep));
    while i < callouts.len()
        invariant
            i <= callouts@.len(),
            all == texts(callouts@),
            keep == |line: Seq<char>| line != "tool called"@,
            texts(others@) == all.take(i as int).filter(keep),
        decreases callouts@.len() - i,
    {
        let ghost before = texts(others@);
        proof {
            reveal(Seq::filter);
            assert(all.take(i + 1).drop_last() =~= all.take(i as int));
            assert(all.take(i + 1).last() == callouts@[i as int]@);
        }
        if !same_text(callouts[i].as_str(), "tool called") {
            others.push(callouts[i].clone());
            assert(texts(others@) =~= before.push(callouts@[i as int]@));
        }
        i = i + 1;
    }
    assert(all.take(all.len() as int) =~= all);
    others
}

/// Notes with a turn whether a tool was called.
pub fn set_assistant_tool_callout(thread: &mut ThreadState, assistant_id: u64, detected: bool)
    requires
        old(thread).wf(),
    ensures
        final(thread).wf(),
        final(thread)@ == with_history(
            old(thread)@,
            turn_changed(
                old(thread)@.history,
                assistant_id,
                |turn: TurnModel|
                    TurnModel { callouts: tool_noted(turn.callouts, detected), ..turn },
            ),
        ),
{
    let ghost change = |turn: TurnModel|
        TurnModel { callouts: tool_noted(turn.callouts, detected), ..turn };
    if let Some(at) = find_history_index(thread, assistant_id) {
        if let HistoryEntry::Assistant { callouts, .. } = &mut thread.history[at].entry {
            let noted = merge_tool_call_callout(detected, other_callouts(callouts));
            *callouts = noted;
        }
        assert(item_models(thread.history@) =~= turn_changed(
            old(thread)@.history,
            assistant_id,
            change,
        ));
    }
}

/// Puts the note that a tool was called in front of callouts.
pub fn merge_tool_call_callout(detected: bool, callouts: Vec<String>) -> (merged: Vec<String>)
    ensures
        texts(merged@) == (if detected {
            seq!["tool called"@] + texts(callouts@)
        } else {
            texts(callouts@)
        }),
{
    let mut callouts = callouts;
    let ghost before = texts(callouts@);
    if detected {
        callouts.insert(0, "tool called".to_string());
        assert(texts(callouts@) =~= seq!["tool called"@] + before);
    }
    callouts
}

/// Brings the loading entries up to date.
pub fn sync_loaded_model_entries(thread: &mut ThreadState)
    requires
        old(thread).wf(),
    ensures
        final(thread).wf(),
        final(thread)@ == with_history(
            old(thread)@,
            old(thread)@.history.map_values(
                |item: ItemModel| loading_synced(item, old(thread)@.loaded_models),
            ),
        ),
{
    let ghost all = thread@.history;
    let ghost loaded = thread@.loaded_models;
    let mut i: usize = 0;
    while i < thread.history.len()
        invariant
            thread.wf(),
            i <= thread.history@.len() == all.len(),
            all == old(thread)@.history,
            loaded == old(thread)@.loaded_models,
            thread@ == with_history(old(thread)@, thread@.history),
            forall|k: int|
                0 <= k < i ==> #[trigger] thread@.history[k] == loading_synced(all[k], loaded),
            forall|k: int| i <= k < all.len() ==> #[trigger] thread@.history[k] == all[k],
        decreases thread.history@.len() - i,
    {
        let ghost before = thread@.history;
        assert(before[i as int] == all[i as int]);
        let done = match &thread.history[i].entry {
            HistoryEntry::LoadingModel { model_id, .. } => thread.loaded_models.contains(
                model_id.as_str(),
            ),
            _ => false,
        };
        if done {
            if let HistoryEntry::LoadingModel { status, .. } = &mut thread.history[i].entry {
                *status = Some(ModelLoadStatus::Loaded);
            }
        }
        assert(thread@.history =~= before.update(i as int, loading_synced(all[i as int], loaded)));
        i = i + 1;
    }
    assert(thread@.history =~= all.map_values(
        |item: ItemModel| loading_synced(item, old(thread)@.loaded_models),
    ));
}

/// Brings the loading entries and the selection up to date.
pub fn normalize_selection(thread: &mut ThreadState)
    requires
        old(thread).wf(),
    ensures
        final(thread).wf(),
        final(thread)@ == normalized(old(thread)@),
{
    sync_loaded_model_entries(thread);
    let count: usize = thread.history.len();
    assert(count == old(thread)@.history.len()) by {
        assert(thread@.history.len() == old(thread)@.history.len());
    }
    if count == 0 {
        thread.selected_chat_entry = None;
    } else {
        match thread.selected_chat_entry {
            Some(at) => if at >= count {
                thread.selected_chat_entry = Some(count - 1);
            },
            None => if thread.compose_target != ComposeTarget::AppendBottom {
                thread.selected_chat_entry = Some(count - 1);
            },
        }
    }
}

/// After normalizing, a selection is on an entry, and normalizing once more
/// changes nothing.
pub proof fn normalizing_settles_the_selection(thread: ThreadModel)
    requires
        thread.history.len() <= usize::MAX,
    ensures
        normalized(thread).selected matches Some(at) ==> at < thread.history.len(),
        normalized(thread).history.len() == thread.history.len(),
        normalized(normalized(thread)) == normalized(thread),
{
    let once = normalized(thread);
    let twice = normalized(once);
    assert(twice.history =~= once.history);
    assert(twice =~= once);
}

/// Where moving the selection takes it.
pub fn move_selection(thread: &ThreadState, delta: isize) -> (selected: Option<usize>)
    ensures
        selected == moved_selection(thread@.history.len(), thread@.selected, delta as int),
{
    let count: usize = thread.history.len();
    assert(count == thread@.history.len());
    if count == 0 {
        return None;
    }
    let from: usize = match thread.selected_chat_entry {
        Some(at) => at,
        None => count - 1,
    };
    let to: i128 = from as i128 + delta as i128;
    let last: usize = count - 1;
    if to < 0 {
        Some(0)
    } else if to > last as i128 {
        Some(last)
    } else {
        Some(to as usize)
    }
}

/// The conversation after writing is given up.
pub open spec fn writing_given_up(thread: ThreadModel) -> ThreadModel {
    ThreadModel {
        draft: Seq::empty(),
        compose_target: ComposeTarget::AppendBottom,
        selected: moved_selection(thread.history.len(), thread.selected, 0),
        ..thread
    }
}

/// Gives up writing.
pub fn exit_insert_mode(thread: &mut ThreadState)
    requires
        old(thread).wf(),
    ensures
        final(thread).wf(),
        final(thread)@ == writing_given_up(old(thread)@),
{
    thread.draft = String::new();
    thread.compose_target = ComposeTarget::AppendBottom;
    thread.selected_chat_entry = move_selection(thread, 0);
    assert(thread@ =~= writing_given_up(old(thread)@));
}

/// The settings for the entry at `target_index`.
pub fn effective_config_until(thread: &ThreadState, target_index: usize) -> (config: ThreadConfig)
    ensures
        config@ == config_until(thread@, target_index as int),
{
    let count: usize = thread.history.len();
    let upto: usize = if target_index < count {
        target_index + 1
    } else {
        count
    };
    config_after_entries(thread, upto)
}

/// The settings after the first `upto` entries.
fn config_after_entries(thread: &ThreadState, upto: usize) -> (config: ThreadConfig)
    requires
        upto <= thread@.history.len(),
    ensures
        config@ == config_after(thread@.base_config, thread@.history.take(upto as int)),
{
    let ghost all = thread@.history;
    let mut config = thread.base_config.clone();
    let mut i: usize = 0;
    while i < upto
        invariant
            i <= upto <= thread.history@.len(),
            all == item_models(thread.history@),
            config@ == config_after(thread@.base_config, all.take(i as int)),
        decreases upto - i,
    {
        proof {
            assert(all.take(i + 1).drop_last() =~= all.take(i as int));
            assert(all.take(i + 1).last() == thread.history@[i as int]@);
        }
        if let HistoryMeta::Command(kind) = &thread.history[i].meta {
            match kind {
                CommandKind::Model(model_id) => config.model_id = model_id.clone(),
                CommandKind::Tools(enabled) => config.tools_enabled = *enabled,
                CommandKind::ModelList => {},
            }
        }
        i = i + 1;
    }
    config
}

/// Makes the settings agree with the entries.
pub fn recompute_thread_config(thread: &mut ThreadState)
    requires
        old(thread).wf(),
    ensures
        final(thread).wf(),
        final(thread)@ == reconfigured(old(thread)@),
{
    let count: usize = thread.history.len();
    assert(thread@.history.take(count as int) =~= thread@.history);
    thread.current_config = config_after_entries(thread, count);
}

/// The settings of a conversation are those for its last entry.
pub proof fn current_settings_are_those_of_the_last_entry(thread: ThreadModel)
    requires
        thread.history.len() > 0,
    ensures
        reconfigured(thread).current_config == config_until(thread, thread.history.len() - 1),
{
    assert(thread.history.take(thread.history.len() as int) =~= thread.history);
}

/// A command counts for every entry from its own on up to the next command of
/// its family, whatever stands in between: giving it again there would change
/// nothing.
pub proof fn command_holds_until_the_next_of_its_family(
    thread: ThreadModel,
    at: int,
    kind: KindModel,
    later: int,
)
    requires
        0 <= at <= later < thread.history.len(),
        thread.history[at].meta == MetaModel::Command(kind),
        kind.family() is Some,
        forall|i: int|
            at < i <= later ==> !((#[trigger] thread.history[i]).meta matches MetaModel::Command(
                other,
            ) && other.family() == kind.family()),
    ensures
        config_set(config_until(thread, later), MetaModel::Command(kind)) == config_until(
            thread,
            later,
        ),
    decreases later - at,
{
    let upto = thread.history.take(later + 1);
    assert(upto.drop_last() =~= thread.history.take(later));
    assert(upto.last() == thread.history[later]);
    if at < later {
        command_holds_until_the_next_of_its_family(thread, at, kind, later - 1);
    }
}

/// How many of the conversations have no name of their own and run a model.
pub open spec fn unnamed_count(threads: Seq<ThreadModel>, model_id: Seq<char>) -> nat
    decreases threads.len(),
{
    if threads.len() == 0 {
        0
    } else {
        unnamed_count(threads.drop_last(), model_id) + if threads.last().name_override is None
            && threads.last().current_config.model_id == model_id {
            1nat
        } else {
            0nat
        }
    }
}

/// What a conversation is called: by its own name, or else by its model, with a
/// number where several go by that model.
pub open spec fn label_of(threads: Seq<ThreadModel>, at: int) -> Seq<char> {
    let model_id = threads[at].current_config.model_id;
    match threads[at].name_override {
        Some(name) => name,
        None => if unnamed_count(threads, model_id) <= 1 {
            model_id
        } else {
            model_id + "-"@ + decimal(unnamed_count(threads.take(at + 1), model_id))
        },
    }
}

/// What the conversations are called.
pub open spec fn labels_of(threads: Seq<ThreadModel>) -> Seq<Seq<char>> {
    Seq::new(threads.len(), |at: int| label_of(threads, at))
}

/// Counts the unnamed conversations with a model among the first `upto`.
fn count_unnamed(threads: &Vec<ThreadState>, upto: usize, model_id: &str) -> (count: usize)
    requires
        upto <= threads@.len(),
    ensures
        count == unnamed_count(thread_models(threads@).take(upto as int), model_id@),
        count <= upto,
{
    let ghost all = thread_models(threads@);
    let mut count: usize = 0;
    let mut i: usize = 0;
    while i < upto
        invariant
            count <= i <= upto <= threads@.len(),
            all == thread_models(threads@),
            count == unnamed_count(all.take(i as int), model_id@),
        decreases upto - i,
    {
        proof {
            assert(all.take(i + 1).drop_last() =~= all.take(i as int));
            assert(all.take(i + 1).last() == threads@[i as int]@);
        }
        if threads[i].name_override.is_none() && same_text(
            threads[i].current_config.model_id.as_str(),
            model_id,
        ) {
            count = count + 1;
        }
        i = i + 1;
    }
    count
}

/// What the conversations are called.
pub fn tab_labels(threads: &Vec<ThreadState>) -> (labels: Vec<String>)
    ensures
        texts(labels@) == labels_of(thread_models(threads@)),
{
    let ghost all = thread_models(threads@);
    let len: usize = threads.len();
    let mut labels: Vec<String> = Vec::new();
    let mut i: usize = 0;
    while i < len
        invariant
            i <= len == threads@.len(),
            all == thread_models(threads@),
            labels@.len() == i,
            forall|k: int| 0 <= k < i ==> #[trigger] labels@[k]@ == label_of(all, k),
        decreases len - i,
    {
        assert(all[i as int] == threads@[i as int]@);
        let label = match &threads[i].name_override {
            Some(name) => name.clone(),
            None => {
                let model_id = threads[i].current_config.model_id.as_str();
                assert(all.take(len as int) =~= all);
                if count_unnamed(threads, len, model_id) <= 1 {
                    model_id.to_string()
                } else {
                    let number: usize = count_unnamed(threads, i + 1, model_id);
                    joined3(model_id, "-", decimal_text(number as u64).as_str())
                }
            },
        };
        labels.push(label);
        i = i + 1;
    }
    assert(texts(labels@) =~= labels_of(all));
    labels
}

/// Changing the turn with a number changes that turn alone, and keeps its number and its
/// place. Nothing changes where there is no such turn.
pub proof fn only_the_named_turn_changes(
    history: Seq<ItemModel>,
    id: u64,
    change: spec_fn(TurnModel) -> TurnModel,
    at: int,
)
    requires
        0 <= at < history.len(),
        forall|i: int, j: int|
            0 <= i < j < history.len() ==> (#[trigger] history[i]).id != (#[trigger] history[j]).id,
    ensures
        turn_changed(history, id, change).len() == history.len(),
        turn_changed(history, id, change)[at].id == history[at].id,
        turn_changed(history, id, change)[at].meta == history[at].meta,
        turn_changed(history, id, change)[at].entry == if history[at].id == id {
            match history[at].entry {
                EntryModel::Assistant(turn) => EntryModel::Assistant(change(turn)),
                other => other,
            }
        } else {
            history[at].entry
        },
{
    lemma_index_of_id(history, id);
    if history[at].id == id {
        let found = index_of_id(history, id).unwrap();
        if found < at {
            assert(history[found].id != history[at].id);
        }
        if found > at {
            assert(history[at].id != id);
        }
    }
}

/// A turn that is interrupted keeps its place and all that was answered so far, and
/// waits for nothing any more. Where nothing was answered, it goes. The other entries
/// stay as they are.
pub proof fn interrupted_turn_keeps_its_answer(
    history: Seq<ItemModel>,
    at: int,
    blocks: Seq<BlockModel>,
)
    requires
        0 <= at < history.len(),
        history[at].entry is Assistant,
        forall|i: int, j: int|
            0 <= i < j < history.len() ==> (#[trigger] history[i]).id != (#[trigger] history[j]).id,
    ensures
        ({
            let next = interrupted(history, history[at].id, blocks);
            if blocks.len() == 0 {
                next == history.remove(at)
            } else {
                &&& next.len() == history.len()
                &&& forall|i: int|
                    0 <= i < history.len() && i != at ==> #[trigger] next[i] == history[i]
                &&& next[at].id == history[at].id
                &&& next[at].meta == history[at].meta
                &&& next[at].entry matches EntryModel::Assistant(turn) && {
                    &&& turn.blocks == blocks
                    &&& turn.status is None
                    &&& turn.sequence_number is None
                    &&& turn.prompt == history[at].entry->Assistant_0.prompt
                    &&& turn.model_id == history[at].entry->Assistant_0.model_id
                    &&& turn.callouts == history[at].entry->Assistant_0.callouts
                }
            }
        }),
{
    let id = history[at].id;
    lemma_index_of_id(history, id);
    let found = index_of_id(history, id).unwrap();
    if found < at {
        assert(history[found].id != history[at].id);
    }
    if found > at {
        assert(history[at].id != id);
    }
    if blocks.len() > 0 {
        let turn = history[at].entry->Assistant_0;
        assert(turn.callouts + Seq::<Seq<char>>::empty() =~= turn.callouts);
    }
}

/// The model for an entry is the one that the last command on models up to it names, and
/// the one that the conversation began with where there is no such command. With the
/// tools it is the same.
pub proof fn last_command_decides(thread: ThreadModel, at: int, given: int)
    requires
        -1 <= given <= at,
        0 <= at < thread.history.len(),
    ensures
        ({
            let config = config_until(thread, at);
            let history = thread.history;
            &&& (forall|i: int|
                given < i <= at ==> !((#[trigger] history[i]).meta matches MetaModel::Command(
                    KindModel::Model(_),
                ))) ==> {
                &&& given == -1 ==> config.model_id == thread.base_config.model_id
                &&& given >= 0 ==> (history[given].meta matches MetaModel::Command(
                    KindModel::Model(model_id),
                ) ==> config.model_id == model_id)
            }
            &&& (forall|i: int|
                given < i <= at ==> !((#[trigger] history[i]).meta matches MetaModel::Command(
                    KindModel::Tools(_),
                ))) ==> {
                &&& given == -1 ==> config.tools_enabled == thread.base_config.tools_enabled
                &&& given >= 0 ==> (history[given].meta matches MetaModel::Command(
                    KindModel::Tools(enabled),
                ) ==> config.tools_enabled == enabled)
            }
        }),
    decreases at,
{
    let upto = thread.history.take(at + 1);
    assert(upto.drop_last() =~= thread.history.take(at));
    assert(upto.last() == thread.history[at]);
    assert(config_after(thread.base_config, thread.history.take(0)) == thread.base_config);
    if given < at && at > 0 {
        last_command_decides(thread, at - 1, given);
    }
}

/// The settings of a conversation without entries are those that it began with.
pub proof fn settings_begin_as_they_are(thread: ThreadModel)
    requires
        thread.history.len() == 0,
    ensures
        reconfigured(thread).current_config == thread.base_config,
{
}

/// The status of a model is noted in the last entry on its loading, and nowhere else.
pub proof fn loading_is_noted_in_its_last_entry(
    history: Seq<ItemModel>,
    model_id: Seq<char>,
    status: ModelLoadStatus,
    at: int,
)
    requires
        0 <= at < history.len(),
    ensures
        ({
            let next = loading_set(history, model_id, status);
            let last = is_loading_of(history[at], model_id) && forall|i: int|
                at < i < history.len() ==> !is_loading_of(#[trigger] history[i], model_id);
            &&& next.len() == history.len()
            &&& !last ==> next[at] == history[at]
            &&& last ==> next[at].id == history[at].id && next[at].meta == history[at].meta
                && next[at].entry == (EntryModel::LoadingModel { model_id, status: Some(status) })
        }),
{
    lemma_last_loading_is_last(history, model_id);
    if let Some(found) = last_loading(history, model_id) {
        if found < at {
            assert(!is_loading_of(history[at], model_id));
        }
        if at < found {
            assert(is_loading_of(history[found], model_id));
        }
    } else {
        assert(!is_loading_of(history[at], model_id));
    }
}

proof fn lemma_last_loading_is_last(history: Seq<ItemModel>, model_id: Seq<char>)
    ensures
        match last_loading(history, model_id) {
            Some(at) => 0 <= at < history.len() && is_loading_of(history[at], model_id)
                && forall|i: int|
                at < i < history.len() ==> !is_loading_of(#[trigger] history[i], model_id),
            None => forall|i: int|
                0 <= i < history.len() ==> !is_loading_of(#[trigger] history[i], model_id),
        },
    decreases history.len(),
{
    if history.len() > 0 && !is_loading_of(history.last(), model_id) {
        let rest = history.drop_last();
        lemma_last_loading_is_last(rest, model_id);
        assert forall|i: int| 0 <= i < rest.len() implies #[trigger] history[i] == rest[i] by {}
    }
}

/// Moving the selection down and up again comes back, except at the ends; it never
/// leaves the list, and a move goes one entry far where there is one.
pub proof fn selection_moves_by_one(count: nat, at: usize)
    requires
        at < count <= usize::MAX,
    ensures
        moved_selection(count, Some(at), 1) == Some(
            (if at + 1 < count {
                at + 1
            } else {
                at as int
            }) as usize,
        ),
        moved_selection(count, Some(at), -1) == Some(
            (if at > 0 {
                at - 1
            } else {
                0
            }) as usize,
        ),
        moved_selection(count, Some(at), 0) == Some(at),
        moved_selection(count, None, 0) == Some((count - 1) as usize),
        moved_selection(0, Some(at), 1) is None,
{
}

/// A conversation goes by its own name where it has one. One without a name goes by its
/// model, and where several do, they are told apart by their numbers, counted from one in
/// the order of the conversations.
pub proof fn labels_tell_conversations_apart(threads: Seq<ThreadModel>, i: int, j: int)
    requires
        0 <= i < j < threads.len(),
        threads[i].name_override is None,
        threads[j].name_override is None,
        threads[i].current_config.model_id == threads[j].current_config.model_id,
    ensures
        ({
            let model_id = threads[i].current_config.model_id;
            let first = unnamed_count(threads.take(i + 1), model_id);
            let second = unnamed_count(threads.take(j + 1), model_id);
            &&& 1 <= first < second
            &&& labels_of(threads)[i] == model_id + "-"@ + decimal(first)
            &&& labels_of(threads)[j] == model_id + "-"@ + decimal(second)
        }),
{
    let model_id = threads[i].current_config.model_id;
    lemma_unnamed_count_grows(threads, model_id, i, j);
    lemma_unnamed_count_grows(threads, model_id, j, threads.len() - 1);
    assert(threads.take(threads.len() as int) =~= threads);
    assert(threads.take(i + 1).drop_last() =~= threads.take(i));
    assert(threads.take(i + 1).last() == threads[i]);
}

proof fn lemma_unnamed_count_grows(
    threads: Seq<ThreadModel>,
    model_id: Seq<char>,
    from: int,
    to: int,
)
    requires
        0 <= from <= to < threads.len(),
    ensures
        unnamed_count(threads.take(from + 1), model_id) <= unnamed_count(
            threads.take(to + 1),
            model_id,
        ),
        from < to && threads[to].name_override is None && threads[to].current_config.model_id
            == model_id ==> unnamed_count(threads.take(from + 1), model_id) < unnamed_count(
            threads.take(to + 1),
            model_id,
        ),
    decreases to - from,
{
    if from < to {
        lemma_unnamed_count_grows(threads, model_id, from, to - 1);
        assert(threads.take(to + 1).drop_last() =~= threads.take(to));
        assert(threads.take(to + 1).last() == threads[to]);
    }
}

/// A conversation with a name goes by it, and the only one of its model by the model.
pub proof fn named_conversation_goes_by_its_name(threads: Seq<ThreadModel>, at: int)
    requires
        0 <= at < threads.len(),
    ensures
        labels_of(threads).len() == threads.len(),
        threads[at].name_override matches Some(name) ==> labels_of(threads)[at] == name,
        threads[at].name_override is None && (forall|i: int|
            0 <= i < threads.len() && i != at ==> (#[trigger] threads[i]).name_override is Some
                || threads[i].current_config.model_id != threads[at].current_config.model_id)
            ==> labels_of(threads)[at] == threads[at].current_config.model_id,
{
    let model_id = threads[at].current_config.model_id;
    if forall|i: int|
        0 <= i < threads.len() && i != at ==> (#[trigger] threads[i]).name_override is Some
            || threads[i].current_config.model_id != model_id {
        lemma_alone_counts_once(threads, model_id, at, threads.len() as int);
        assert(threads.take(threads.len() as int) =~= threads);
    }
}

proof fn lemma_alone_counts_once(
    threads: Seq<ThreadModel>,
    model_id: Seq<char>,
    at: int,
    upto: int,
)
    requires
        0 <= at < threads.len(),
        0 <= upto <= threads.len(),
        forall|i: int|
            0 <= i < threads.len() && i != at ==> (#[trigger] threads[i]).name_override is Some
                || threads[i].current_config.model_id != model_id,
    ensures
        unnamed_count(threads.take(upto), model_id) <= if at < upto {
            1int
        } else {
            0
        },
    decreases upto,
{
    if upto > 0 {
        lemma_alone_counts_once(threads, model_id, at, upto - 1);
        assert(threads.take(upto).drop_last() =~= threads.take(upto - 1));
        assert(threads.take(upto).last() == threads[upto - 1]);
    }
}

/// The note that a tool was called stands once, in front, where a tool was called, and
/// not at all where none was. The other callouts stay, in their order.
pub proof fn tool_note_stands_once(callouts: Seq<Seq<char>>, detected: bool)
    ensures
        ({
            let noted = tool_noted(callouts, detected);
            &&& noted.filter(|line: Seq<char>| line != "tool called"@) == callouts.filter(
                |line: Seq<char>| line != "tool called"@,
            )
            &&& detected ==> noted.len() > 0 && noted[0] == "tool called"@
            &&& forall|i: int|
                (if detected {
                    1int
                } else {
                    0
                }) <= i < noted.len() ==> #[trigger] noted[i] != "tool called"@
        }),
{
    let keep = |line: Seq<char>| line != "tool called"@;
    let others = callouts.filter(keep);
    broadcast use vstd::seq_lib::group_filter_ensures;

    assert forall|i: int| 0 <= i < others.len() implies #[trigger] others[i] != "tool called"@ by {
        assert(keep(others[i]));
    }
    lemma_all_kept(others, keep);
    if detected {
        Seq::filter_distributes_over_add(seq!["tool called"@], others, keep);
        assert(seq!["tool called"@].filter(keep) =~= Seq::<Seq<char>>::empty()) by {
            reveal(Seq::filter);
            assert(seq!["tool called"@].drop_last() =~= Seq::<Seq<char>>::empty());
            assert(Seq::<Seq<char>>::empty().filter(keep) =~= Seq::<Seq<char>>::empty());
        }
        assert(Seq::<Seq<char>>::empty() + others =~= others);
    }
}

proof fn lemma_all_kept(list: Seq<Seq<char>>, keep: spec_fn(Seq<char>) -> bool)
    requires
        forall|i: int| 0 <= i < list.len() ==> keep(#[trigger] list[i]),
    ensures
        list.filter(keep) == list,
    decreases list.len(),
{
    reveal(Seq::filter);
    if list.len() > 0 {
        lemma_all_kept(list.drop_last(), keep);
        assert(keep(list[list.len() - 1]));
        assert(list.drop_last().push(list.last()) =~= list);
    } else {
        assert(list.filter(keep) =~= list);
    }
}

} // verus!
