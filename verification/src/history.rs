//! The entries of a conversation.

use vstd::prelude::*;
use vstd::string::*;

use crate::text::{copied_texts, has_prefix, joined, joined3, same_text, text_option, texts};

verus! {

/// The kind of a block of Markdown.
#[derive(Debug, Clone, Copy, PartialEq, Eq, Structural)]
pub enum BlockKind {
    Paragraph,
    Heading,
    ThematicBreak,
    CodeFence,
    List,
    BlockQuote,
    Table,
    HtmlBlock,
    MathBlock,
    FootnoteDefinition,
    Unknown,
}

/// A block of Markdown: what was written, and what is to be shown for it where
/// that differs.
#[derive(Debug, PartialEq, Eq)]
pub struct MarkdownBlock {
    pub kind: BlockKind,
    pub raw: String,
    pub display: Option<String>,
}

/// A block by its contents.
pub struct BlockModel {
    pub kind: BlockKind,
    pub raw: Seq<char>,
    pub display: Option<Seq<char>>,
}

impl BlockModel {
    /// What is to be shown.
    pub open spec fn shown(self) -> Seq<char> {
        match self.display {
            Some(display) => display,
            None => self.raw,
        }
    }
}

impl View for MarkdownBlock {
    type V = BlockModel;

    open spec fn view(&self) -> BlockModel {
        BlockModel { kind: self.kind, raw: self.raw@, display: text_option(self.display) }
    }
}

impl Clone for MarkdownBlock {
    fn clone(&self) -> (copy: Self)
        ensures
            copy@ == self@,
    {
        MarkdownBlock {
            kind: self.kind,
            raw: self.raw.clone(),
            display: match &self.display {
                Some(display) => Some(display.clone()),
                None => None,
            },
        }
    }
}

impl MarkdownBlock {
    /// What is to be shown.
    pub fn display_or_raw(&self) -> (shown: &str)
        ensures
            shown@ == self@.shown(),
    {
        match &self.display {
            Some(display) => display.as_str(),
            None => self.raw.as_str(),
        }
    }
}

/// The contents of a list of blocks.
pub open spec fn block_models(blocks: Seq<MarkdownBlock>) -> Seq<BlockModel> {
    blocks.map_values(|block: MarkdownBlock| block@)
}

/// A copy of a list of blocks.
pub fn copied_blocks(blocks: &Vec<MarkdownBlock>) -> (copy: Vec<MarkdownBlock>)
    ensures
        block_models(copy@) == block_models(blocks@),
{
    let mut copy: Vec<MarkdownBlock> = Vec::new();
    let mut i: usize = 0;
    while i < blocks.len()
        invariant
            i <= blocks@.len(),
            copy@.len() == i,
            forall|k: int| 0 <= k < i ==> #[trigger] copy@[k]@ == blocks@[k]@,
        decreases blocks@.len() - i,
    {
        copy.push(blocks[i].clone());
        i = i + 1;
    }
    assert(block_models(copy@) =~= block_models(blocks@));
    copy
}

/// What was written in all blocks together.
pub open spec fn raw_text(blocks: Seq<BlockModel>) -> Seq<char>
    decreases blocks.len(),
{
    if blocks.len() == 0 {
        Seq::empty()
    } else {
        raw_text(blocks.drop_last()) + blocks.last().raw
    }
}

/// What was written in all blocks together.
pub fn blocks_to_raw_text(blocks: &Vec<MarkdownBlock>) -> (text: String)
    ensures
        text@ == raw_text(block_models(blocks@)),
{
    let ghost all = block_models(blocks@);
    let mut text = String::new();
    let mut i: usize = 0;
    assert(text@ =~= raw_text(all.take(0)));
    while i < blocks.len()
        invariant
            i <= blocks@.len(),
            all == block_models(blocks@),
            text@ == raw_text(all.take(i as int)),
        decreases blocks@.len() - i,
    {
        proof {
            assert(all.take(i + 1).drop_last() =~= all.take(i as int));
            assert(all.take(i + 1).last() == blocks@[i as int]@);
        }
        text.append(blocks[i].raw.as_str());
        i = i + 1;
    }
    assert(all.take(all.len() as int) =~= all);
    text
}

/// What a model is doing with a turn, and since when, in milliseconds.
#[derive(Debug, Clone, Copy, PartialEq, Eq, Structural)]
pub enum AssistantStatus {
    Queued { started_at: u64 },
    Loading { started_at: u64 },
    Generating { started_at: u64 },
}

/// Whether a model is loaded, or since when it is being loaded, in
/// milliseconds.
#[derive(Debug, Clone, Copy, PartialEq, Eq, Structural)]
pub enum ModelLoadStatus {
    Loading { started_at: u64 },
    Loaded,
}

/// What the keys mean.
#[derive(Debug, Clone, Copy, PartialEq, Eq, Structural)]
pub enum Mode {
    Insert,
    Normal,
    Command,
    ConfirmDelete,
}

/// Which end of the selected entry is scrolled into view.
#[derive(Debug, Clone, Copy, PartialEq, Eq, Structural)]
pub enum ScrollAnchor {
    Top,
    Bottom,
}

/// An entry of a conversation.
#[derive(Debug, PartialEq, Eq)]
#[allow(inconsistent_fields)]
pub enum HistoryEntry {
    /// A prompt and the answer to it.
    Assistant {
        model_id: String,
        prompt: String,
        blocks: Vec<MarkdownBlock>,
        callouts: Vec<String>,
        status: Option<AssistantStatus>,
        sequence_number: Option<u64>,
    },
    LoadingModel { model_id: String, status: Option<ModelLoadStatus> },
    Command { raw: String, result: String },
    /// What stands before is not shown to the model.
    Break,
    SystemNotice(String),
}

/// A prompt and the answer to it, by their contents.
#[verifier::ext_equal]
pub struct TurnModel {
    pub model_id: Seq<char>,
    pub prompt: Seq<char>,
    pub blocks: Seq<BlockModel>,
    pub callouts: Seq<Seq<char>>,
    pub status: Option<AssistantStatus>,
    pub sequence_number: Option<u64>,
}

/// An entry by its contents.
#[verifier::ext_equal]
#[allow(inconsistent_fields)]
pub enum EntryModel {
    Assistant(TurnModel),
    LoadingModel { model_id: Seq<char>, status: Option<ModelLoadStatus> },
    Command { raw: Seq<char>, result: Seq<char> },
    Break,
    SystemNotice(Seq<char>),
}

impl View for HistoryEntry {
    type V = EntryModel;

    open spec fn view(&self) -> EntryModel {
        match *self {
            HistoryEntry::Assistant {
                model_id,
                prompt,
                blocks,
                callouts,
                status,
                sequence_number,
            } => EntryModel::Assistant(
                TurnModel {
                    model_id: model_id@,
                    prompt: prompt@,
                    blocks: block_models(blocks@),
                    callouts: texts(callouts@),
                    status,
                    sequence_number,
                },
            ),
            HistoryEntry::LoadingModel { model_id, status } => EntryModel::LoadingModel {
                model_id: model_id@,
                status,
            },
            HistoryEntry::Command { raw, result } => EntryModel::Command {
                raw: raw@,
                result: result@,
            },
            HistoryEntry::Break => EntryModel::Break,
            HistoryEntry::SystemNotice(content) => EntryModel::SystemNotice(content@),
        }
    }
}

impl Clone for HistoryEntry {
    fn clone(&self) -> (copy: Self)
        ensures
            copy@ == self@,
    {
        match self {
            HistoryEntry::Assistant {
                model_id,
                prompt,
                blocks,
                callouts,
                status,
                sequence_number,
            } => HistoryEntry::Assistant {
                model_id: model_id.clone(),
                prompt: prompt.clone(),
                blocks: copied_blocks(blocks),
                callouts: copied_texts(callouts),
                status: *status,
                sequence_number: *sequence_number,
            },
            HistoryEntry::LoadingModel { model_id, status } => HistoryEntry::LoadingModel {
                model_id: model_id.clone(),
                status: *status,
            },
            HistoryEntry::Command { raw, result } => HistoryEntry::Command {
                raw: raw.clone(),
                result: result.clone(),
            },
            HistoryEntry::Break => HistoryEntry::Break,
            HistoryEntry::SystemNotice(content) => HistoryEntry::SystemNotice(content.clone()),
        }
    }
}

/// The contents of a list of entries.
pub open spec fn entry_models(entries: Seq<HistoryEntry>) -> Seq<EntryModel> {
    entries.map_values(|entry: HistoryEntry| entry@)
}

/// Which entries can be selected: all of them, in their order.
pub fn chat_entry_positions(entries: &[HistoryEntry]) -> (positions: Vec<usize>)
    ensures
        positions@.len() == entries@.len(),
        forall|i: int| 0 <= i < positions@.len() ==> #[trigger] positions@[i] == i,
{
    let mut positions: Vec<usize> = Vec::new();
    let mut i: usize = 0;
    while i < entries.len()
        invariant
            i <= entries@.len(),
            positions@.len() == i,
            forall|k: int| 0 <= k < i ==> #[trigger] positions@[k] == k,
        decreases entries@.len() - i,
    {
        positions.push(i);
        i = i + 1;
    }
    positions
}

/// What a selection points at among `count` entries.
pub open spec fn selected_of(count: nat, selected: Option<usize>) -> Option<usize> {
    match selected {
        Some(at) => if at < count {
            Some(at)
        } else {
            None
        },
        None => None,
    }
}

/// The entry that a selection points at, if it points at one.
pub fn selected_transcript_index(
    entries: &[HistoryEntry],
    selected_chat_entry: Option<usize>,
) -> (index: Option<usize>)
    ensures
        index == selected_of(entries@.len(), selected_chat_entry),
{
    let positions = chat_entry_positions(entries);
    match selected_chat_entry {
        Some(at) => if at < positions.len() {
            Some(positions[at])
        } else {
            None
        },
        None => None,
    }
}

/// What is copied of an entry.
pub open spec fn copied_text(entry: EntryModel) -> Seq<char> {
    match entry {
        EntryModel::Assistant(turn) => "assistant "@ + turn.model_id + ":\n"@ + turn.prompt
            + "\n\n"@ + raw_text(turn.blocks),
        EntryModel::LoadingModel { model_id, status } => match status {
            Some(ModelLoadStatus::Loading { .. }) => "loading model:\n"@ + model_id,
            _ => "model loaded:\n"@ + model_id,
        },
        EntryModel::Command { raw, result } => "command:\n"@ + raw + "\n\n"@ + result,
        EntryModel::Break => "break"@,
        EntryModel::SystemNotice(content) => "system:\n"@ + content,
    }
}

/// The text for the clipboard of the entry at `index`; nothing where there is
/// no such entry.
pub fn clipboard_text(entries: &[HistoryEntry], index: usize) -> (text: String)
    ensures
        text@ == (if index < entries@.len() {
            copied_text(entries@[index as int]@)
        } else {
            Seq::empty()
        }),
{
    if index >= entries.len() {
        let text = String::new();
        assert(text@ =~= Seq::<char>::empty());
        return text;
    }
    match &entries[index] {
        HistoryEntry::Assistant { model_id, prompt, blocks, .. } => {
            let head = joined3("assistant ", model_id.as_str(), ":\n");
            let asked = joined3(head.as_str(), prompt.as_str(), "\n\n");
            joined(asked.as_str(), blocks_to_raw_text(blocks).as_str())
        },
        HistoryEntry::LoadingModel { model_id, status } => match status {
            Some(ModelLoadStatus::Loading { .. }) => joined(
                "loading model:\n",
                model_id.as_str(),
            ),
            _ => joined("model loaded:\n", model_id.as_str()),
        },
        HistoryEntry::Command { raw, result } => joined(
            joined3("command:\n", raw.as_str(), "\n\n").as_str(),
            result.as_str(),
        ),
        HistoryEntry::Break => "break".to_string(),
        HistoryEntry::SystemNotice(content) => joined("system:\n", content.as_str()),
    }
}

/// What a command in a conversation sets.
#[derive(Debug, PartialEq, Eq)]
pub enum CommandKind {
    Model(String),
    Tools(bool),
    ModelList,
}

/// What a command sets, by its contents.
pub enum KindModel {
    Model(Seq<char>),
    Tools(bool),
    ModelList,
}

/// Commands that replace each other.
#[derive(Debug, Clone, Copy, PartialEq, Eq, Structural)]
pub enum CommandFamily {
    Model,
    Tools,
}

impl KindModel {
    /// The family of the command; listing models belongs to none.
    pub open spec fn family(self) -> Option<CommandFamily> {
        match self {
            KindModel::Model(_) => Some(CommandFamily::Model),
            KindModel::Tools(_) => Some(CommandFamily::Tools),
            KindModel::ModelList => None,
        }
    }
}

impl View for CommandKind {
    type V = KindModel;

    open spec fn view(&self) -> KindModel {
        match *self {
            CommandKind::Model(model_id) => KindModel::Model(model_id@),
            CommandKind::Tools(enabled) => KindModel::Tools(enabled),
            CommandKind::ModelList => KindModel::ModelList,
        }
    }
}

impl Clone for CommandKind {
    fn clone(&self) -> (copy: Self)
        ensures
            copy@ == self@,
    {
        match self {
            CommandKind::Model(model_id) => CommandKind::Model(model_id.clone()),
            CommandKind::Tools(enabled) => CommandKind::Tools(*enabled),
            CommandKind::ModelList => CommandKind::ModelList,
        }
    }
}

impl CommandKind {
    /// The family of the command.
    pub fn family(&self) -> (family: Option<CommandFamily>)
        ensures
            family == self@.family(),
    {
        match self {
            CommandKind::Model(_) => Some(CommandFamily::Model),
            CommandKind::Tools(_) => Some(CommandFamily::Tools),
            CommandKind::ModelList => None,
        }
    }

    /// Whether two commands set the same thing to the same value.
    pub fn matches_semantics(&self, other: &CommandKind) -> (same: bool)
        ensures
            same == (self@ == other@),
    {
        match (self, other) {
            (CommandKind::Model(mine), CommandKind::Model(theirs)) => same_text(
                mine.as_str(),
                theirs.as_str(),
            ),
            (CommandKind::Tools(mine), CommandKind::Tools(theirs)) => *mine == *theirs,
            (CommandKind::ModelList, CommandKind::ModelList) => true,
            _ => false,
        }
    }
}

/// What an entry does to the settings of the conversation.
#[derive(Debug, PartialEq, Eq)]
pub enum HistoryMeta {
    /// Nothing.
    Plain,
    Command(CommandKind),
}

/// What an entry does to the settings, by its contents.
pub enum MetaModel {
    Plain,
    Command(KindModel),
}

impl View for HistoryMeta {
    type V = MetaModel;

    open spec fn view(&self) -> MetaModel {
        match *self {
            HistoryMeta::Plain => MetaModel::Plain,
            HistoryMeta::Command(kind) => MetaModel::Command(kind@),
        }
    }
}

impl Clone for HistoryMeta {
    fn clone(&self) -> (copy: Self)
        ensures
            copy@ == self@,
    {
        match self {
            HistoryMeta::Plain => HistoryMeta::Plain,
            HistoryMeta::Command(kind) => HistoryMeta::Command(kind.clone()),
        }
    }
}

/// An entry with the number by which it is found again.
#[derive(Debug)]
pub struct HistoryItem {
    pub id: u64,
    pub entry: HistoryEntry,
    pub meta: HistoryMeta,
}

/// A numbered entry by its contents.
#[verifier::ext_equal]
pub struct ItemModel {
    pub id: u64,
    pub entry: EntryModel,
    pub meta: MetaModel,
}

impl View for HistoryItem {
    type V = ItemModel;

    open spec fn view(&self) -> ItemModel {
        ItemModel { id: self.id, entry: self.entry@, meta: self.meta@ }
    }
}

impl Clone for HistoryItem {
    fn clone(&self) -> (copy: Self)
        ensures
            copy@ == self@,
    {
        HistoryItem { id: self.id, entry: self.entry.clone(), meta: self.meta.clone() }
    }
}

/// The contents of a list of numbered entries.
pub open spec fn item_models(items: Seq<HistoryItem>) -> Seq<ItemModel> {
    items.map_values(|item: HistoryItem| item@)
}

/// How an entry is edited: its prompt or its command.
#[derive(Debug, PartialEq, Eq)]
pub enum SelectionEditAction {
    Prompt(String),
    Command(String),
}

/// How an entry is edited, by its contents.
pub enum EditModel {
    Prompt(Seq<char>),
    Command(Seq<char>),
}

impl View for SelectionEditAction {
    type V = EditModel;

    open spec fn view(&self) -> EditModel {
        match *self {
            SelectionEditAction::Prompt(text) => EditModel::Prompt(text@),
            SelectionEditAction::Command(text) => EditModel::Command(text@),
        }
    }
}

/// How an entry is edited. Prompts and commands are; what the program itself
/// wrote is not.
pub open spec fn edit_of(entry: EntryModel) -> Option<EditModel> {
    match entry {
        EntryModel::Assistant(turn) => Some(EditModel::Prompt(turn.prompt)),
        EntryModel::Command { raw, .. } => Some(EditModel::Command(raw)),
        EntryModel::Break => Some(EditModel::Command("break"@)),
        EntryModel::LoadingModel { .. } => None,
        EntryModel::SystemNotice(_) => None,
    }
}

/// Decides how an entry is edited.
pub fn selection_edit_action(entry: &HistoryEntry) -> (action: Option<SelectionEditAction>)
    ensures
        (match action {
            Some(action) => Some(action@),
            None => None,
        }) == edit_of(entry@),
{
    match entry {
        HistoryEntry::Assistant { prompt, .. } => Some(SelectionEditAction::Prompt(prompt.clone())),
        HistoryEntry::Command { raw, .. } => Some(SelectionEditAction::Command(raw.clone())),
        HistoryEntry::Break => Some(SelectionEditAction::Command("break".to_string())),
        HistoryEntry::LoadingModel { .. } => None,
        HistoryEntry::SystemNotice(_) => None,
    }
}

/// What was written in blocks reads from the first to the last: the text of blocks
/// followed by others is their text followed by that of the others, and the text of
/// one block is what was written in it.
pub proof fn raw_text_follows_the_blocks(first: Seq<BlockModel>, second: Seq<BlockModel>)
    ensures
        raw_text(first + second) == raw_text(first) + raw_text(second),
        first.len() == 0 ==> raw_text(first) == Seq::<char>::empty(),
        first.len() == 1 ==> raw_text(first) == first[0].raw,
    decreases second.len(),
{
    if second.len() == 0 {
        assert(first + second =~= first);
        assert(raw_text(first) + raw_text(second) =~= raw_text(first));
    } else {
        let rest = second.drop_last();
        raw_text_follows_the_blocks(first, rest);
        assert((first + second).drop_last() =~= first + rest);
        assert((raw_text(first) + raw_text(rest)) + second.last().raw =~= raw_text(first) + (
        raw_text(rest) + second.last().raw));
    }
    if first.len() == 1 {
        assert(raw_text(first.drop_last()) =~= Seq::<char>::empty());
        assert(raw_text(first.drop_last()) + first[0].raw =~= first[0].raw);
    }
}

/// What is copied of a turn names its model, and then says what was asked before
/// what was answered, all of it: after the prompt stands an empty line, and then every
/// block in turn up to the end.
pub proof fn copied_turn_holds_prompt_and_answer(turn: TurnModel, more: Seq<BlockModel>)
    ensures
        ({
            let copied = copied_text(EntryModel::Assistant(turn));
            let head = "assistant "@ + turn.model_id + ":\n"@ + turn.prompt + "\n\n"@;
            &&& has_prefix(copied, head)
            &&& turn.blocks.len() == 0 ==> copied == head
            &&& copied_text(
                EntryModel::Assistant(TurnModel { blocks: turn.blocks + more, ..turn }),
            ) == copied + raw_text(more)
        }),
{
    let head = "assistant "@ + turn.model_id + ":\n"@ + turn.prompt + "\n\n"@;
    let copied = copied_text(EntryModel::Assistant(turn));
    raw_text_follows_the_blocks(turn.blocks, more);
    assert(copied.subrange(0, head.len() as int) =~= head);
    assert(turn.blocks.len() == 0 ==> copied =~= head);
    assert(head + (raw_text(turn.blocks) + raw_text(more)) =~= copied + raw_text(more));
}

/// What is copied of any other entry ends with what it says: the result of a command,
/// a notice, or the model that is loaded.
pub proof fn copied_entry_ends_with_what_it_says(entry: EntryModel)
    ensures
        match entry {
            EntryModel::Assistant(_) => true,
            EntryModel::Command { raw, result } => copied_text(entry) == "command:\n"@ + (raw
                + "\n\n"@ + result),
            EntryModel::SystemNotice(content) => copied_text(entry) == "system:\n"@ + content,
            EntryModel::LoadingModel { model_id, status } => copied_text(entry) == if status
                matches Some(ModelLoadStatus::Loading { .. }) {
                "loading model:\n"@ + model_id
            } else {
                "model loaded:\n"@ + model_id
            },
            EntryModel::Break => copied_text(entry) == "break"@,
        },
{
    if let EntryModel::Command { raw, result } = entry {
        assert(copied_text(entry) =~= "command:\n"@ + (raw + "\n\n"@ + result));
    }
}

/// Editing a turn begins with its prompt, and editing a command with what was typed for
/// it. What the program wrote itself cannot be edited.
pub proof fn editing_begins_with_what_was_typed(entry: EntryModel)
    ensures
        entry matches EntryModel::Assistant(turn) ==> edit_of(entry) == Some(
            EditModel::Prompt(turn.prompt),
        ),
        entry matches EntryModel::Command { raw, .. } ==> edit_of(entry) == Some(
            EditModel::Command(raw),
        ),
        entry is Break ==> edit_of(entry) == Some(EditModel::Command("break"@)),
        entry is LoadingModel || entry is SystemNotice ==> edit_of(entry) is None,
{
}

} // verus!
