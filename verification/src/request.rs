//! What a model is asked for a turn.

use vstd::prelude::*;
use vstd::string::*;

use crate::agent::{
    prompt_for, tool_schema, tool_views, ToolFormat, ToolSpec, ToolView, TOOL_RULES,
};
use crate::history::{
    blocks_to_raw_text, raw_text, EntryModel, HistoryEntry, ItemModel, TurnModel,
};
use crate::json::{json_pretty, JsonView};
use crate::runtime::{
    config_ids, config_named, default_configs, found_config_has_the_id, RuntimeRegistry,
};
use crate::text::{has_prefix, occurs_at};
use crate::thread::{
    config_until, effective_config_until, find_history_index, index_of_id, lemma_index_of_id,
    ConfigModel, ThreadConfig, ThreadModel, ThreadState,
};

verus! {

/// What every model is told first.
pub const SYSTEM_PROMPT: &'static str = "You are a concise assistant. If a user asks for information that an available tool can provide, call the tool instead of answering directly.";

/// How long an answer may become.
pub const MAX_GENERATION_TOKENS: usize = 2048;

/// Who says a message.
#[derive(Debug, Clone, Copy, PartialEq, Eq, Structural)]
pub enum ChatRole {
    System,
    User,
    Assistant,
}

/// A message to a model.
#[derive(Debug, PartialEq, Eq)]
pub struct ChatMessage {
    pub role: ChatRole,
    pub content: String,
}

/// A message by its contents.
pub struct MessageModel {
    pub role: ChatRole,
    pub content: Seq<char>,
}

impl View for ChatMessage {
    type V = MessageModel;

    open spec fn view(&self) -> MessageModel {
        MessageModel { role: self.role, content: self.content@ }
    }
}

/// The contents of a list of messages.
pub open spec fn message_models(messages: Seq<ChatMessage>) -> Seq<MessageModel> {
    messages.map_values(|message: ChatMessage| message@)
}

/// What a model is asked.
#[derive(Debug, PartialEq, Eq)]
pub struct ChatRequest {
    pub messages: Vec<ChatMessage>,
    pub max_tokens: usize,
}

/// What a model is asked for a turn, with the settings for the turn and the way
/// in which the model writes tool calls.
#[derive(Debug)]
pub struct TurnRequest {
    pub request: ChatRequest,
    pub config: ThreadConfig,
    pub tool_format: ToolFormat,
}

/// What a model is asked for a turn, by its contents.
#[verifier::ext_equal]
pub struct TurnRequestModel {
    pub messages: Seq<MessageModel>,
    pub max_tokens: usize,
    pub config: ConfigModel,
    pub tool_format: ToolFormat,
}

impl View for TurnRequest {
    type V = TurnRequestModel;

    open spec fn view(&self) -> TurnRequestModel {
        TurnRequestModel {
            messages: message_models(self.request.messages@),
            max_tokens: self.request.max_tokens,
            config: self.config@,
            tool_format: self.tool_format,
        }
    }
}

/// Where the part of a conversation that its end belongs to starts: after the
/// last break.
pub open spec fn segment_start(history: Seq<ItemModel>) -> int
    decreases history.len(),
{
    if history.len() == 0 {
        0
    } else if history.last().entry is Break {
        history.len() as int
    } else {
        segment_start(history.drop_last())
    }
}

/// The messages of one entry: the prompt of a turn, and its answer where it has
/// one.
pub open spec fn entry_messages(entry: EntryModel) -> Seq<MessageModel> {
    match entry {
        EntryModel::Assistant(turn) => if turn.status is None {
            seq![
                MessageModel { role: ChatRole::User, content: turn.prompt },
                MessageModel { role: ChatRole::Assistant, content: raw_text(turn.blocks) },
            ]
        } else {
            seq![MessageModel { role: ChatRole::User, content: turn.prompt }]
        },
        _ => Seq::empty(),
    }
}

/// The messages of a list of entries.
pub open spec fn conversation(history: Seq<ItemModel>) -> Seq<MessageModel>
    decreases history.len(),
{
    if history.len() == 0 {
        Seq::empty()
    } else {
        conversation(history.drop_last()) + entry_messages(history.last().entry)
    }
}

/// What a model is asked for the turn with a number, or why it cannot be asked.
/// The entries up to the turn count, from the last break on.
pub open spec fn request_for(thread: ThreadModel, id: u64, tools: Seq<ToolView>) -> Result<
    TurnRequestModel,
    Seq<char>,
> {
    match index_of_id(thread.history, id) {
        None => Err("target assistant vanished"@),
        Some(at) => {
            let config = config_until(thread, at);
            match config_named(default_configs(), config.model_id) {
                None => Err("unknown runtime config"@),
                Some(model) => {
                    let format = model.model.tool_format();
                    let told = if config.tools_enabled {
                        tools
                    } else {
                        Seq::empty()
                    };
                    let upto = thread.history.take(at + 1);
                    Ok(
                        TurnRequestModel {
                            messages: seq![
                                MessageModel {
                                    role: ChatRole::System,
                                    content: prompt_for(format, SYSTEM_PROMPT@, told),
                                },
                            ] + conversation(upto.skip(segment_start(upto))),
                            max_tokens: MAX_GENERATION_TOKENS,
                            config,
                            tool_format: format,
                        },
                    )
                },
            }
        },
    }
}

/// A part of a conversation starts within it, and no break stands in it.
pub(crate) proof fn lemma_segment_start(history: Seq<ItemModel>)
    ensures
        0 <= segment_start(history) <= history.len(),
        forall|i: int|
            segment_start(history) <= i < history.len() ==> !((#[trigger] history[i]).entry
                is Break),
        segment_start(history) > 0 ==> history[segment_start(history) - 1].entry is Break,
    decreases history.len(),
{
    if history.len() > 0 && !(history.last().entry is Break) {
        let rest = history.drop_last();
        lemma_segment_start(rest);
        assert forall|i: int| segment_start(history) <= i < history.len() implies !((
        #[trigger] history[i]).entry is Break) by {
            if i < rest.len() {
                assert(rest[i] == history[i]);
            }
        }
    }
}

/// Finds where the part of the conversation that ends before `upto` starts.
fn find_segment_start(thread: &ThreadState, upto: usize) -> (start: usize)
    requires
        upto <= thread.history@.len(),
    ensures
        start == segment_start(thread@.history.take(upto as int)),
        start <= upto,
{
    let ghost all = thread@.history;
    let mut start: usize = upto;
    while start > 0
        invariant
            start <= upto <= thread.history@.len(),
            all == thread@.history,
            segment_start(all.take(upto as int)) == segment_start(all.take(start as int)),
        decreases start,
    {
        assert(all.take(start as int).last() == thread.history@[start - 1]@);
        assert(all.take(start as int).drop_last() =~= all.take(start - 1));
        match &thread.history[start - 1].entry {
            HistoryEntry::Break => return start,
            _ => {},
        }
        start = start - 1;
    }
    0
}

/// Adds the messages of one entry.
fn push_entry_messages(messages: &mut Vec<ChatMessage>, entry: &HistoryEntry)
    ensures
        message_models(final(messages)@) == message_models(old(messages)@) + entry_messages(
            entry@,
        ),
{
    match entry {
        HistoryEntry::Assistant { prompt, blocks, status, .. } => {
            messages.push(ChatMessage { role: ChatRole::User, content: prompt.clone() });
            if status.is_none() {
                messages.push(
                    ChatMessage { role: ChatRole::Assistant, content: blocks_to_raw_text(blocks) },
                );
            }
        },
        _ => {},
    }
    assert(message_models(messages@) =~= message_models(old(messages)@) + entry_messages(entry@));
}

/// Makes up what a model is asked for a turn.
pub fn build_request_for_turn(
    thread: &ThreadState,
    assistant_entry_id: u64,
    tools: &[ToolSpec],
) -> (built: Result<TurnRequest, String>)
    ensures
        (match built {
            Ok(request) => Ok::<TurnRequestModel, Seq<char>>(request@),
            Err(message) => Err(message@),
        }) == request_for(thread@, assistant_entry_id, tool_views(tools@)),
{
    let count: usize = thread.history.len();
    let target_index: usize = match find_history_index(thread, assistant_entry_id) {
        Some(index) => index,
        None => return Err("target assistant vanished".to_string()),
    };
    let config = effective_config_until(thread, target_index);
    let registry = RuntimeRegistry::defaults();
    let tool_format = match registry.get(config.model_id.as_str()) {
        Some(model_config) => model_config.model.tool_format(),
        None => return Err("unknown runtime config".to_string()),
    };
    let system_prompt = if config.tools_enabled {
        tool_format.system_prompt(SYSTEM_PROMPT, tools)
    } else {
        let none: [ToolSpec; 0] = [];
        assert(tool_views(none@) =~= Seq::<ToolView>::empty());
        tool_format.system_prompt(SYSTEM_PROMPT, &none)
    };
    let mut messages: Vec<ChatMessage> = Vec::new();
    messages.push(ChatMessage { role: ChatRole::System, content: system_prompt });
    let ghost head = message_models(messages@);
    let ghost upto = thread@.history.take(target_index + 1);
    let start: usize = find_segment_start(thread, target_index + 1);
    let ghost segment = upto.skip(start as int);
    let mut at: usize = start;
    assert(head + conversation(segment.take(0)) =~= head);
    while at <= target_index
        invariant
            start <= at <= target_index + 1,
            target_index < count == thread.history@.len(),
            upto == thread@.history.take(target_index + 1),
            segment == upto.skip(start as int),
            message_models(messages@) == head + conversation(segment.take(at - start)),
        decreases target_index + 1 - at,
    {
        proof {
            let seen = segment.take(at + 1 - start);
            assert(seen.drop_last() =~= segment.take(at - start));
            assert(seen.last() == thread.history@[at as int]@);
            assert(head + conversation(seen) =~= head + conversation(segment.take(at - start))
                + entry_messages(thread.history@[at as int].entry@));
        }
        push_entry_messages(&mut messages, &thread.history[at].entry);
        at = at + 1;
    }
    assert(segment.take(target_index + 1 - start) =~= segment);
    let turn = TurnRequest {
        request: ChatRequest { messages, max_tokens: MAX_GENERATION_TOKENS },
        config,
        tool_format,
    };
    assert(turn@.messages =~= head + conversation(segment));
    assert(head =~= seq![head[0]]);
    Ok(turn)
}

/// What a model is asked for a turn does not depend on what comes after the
/// turn.
pub proof fn request_ignores_later_entries(
    thread: ThreadModel,
    other: ThreadModel,
    id: u64,
    tools: Seq<ToolView>,
    at: int,
)
    requires
        index_of_id(thread.history, id) == Some(at),
        index_of_id(other.history, id) == Some(at),
        0 <= at < thread.history.len(),
        at < other.history.len(),
        thread.history.take(at + 1) == other.history.take(at + 1),
        thread.base_config == other.base_config,
    ensures
        request_for(thread, id, tools) == request_for(other, id, tools),
{
}

/// What stands before a break is not shown to the model: the messages for a turn
/// after it are those of a conversation that starts after it.
pub proof fn break_hides_what_stands_before(history: Seq<ItemModel>, at: int)
    requires
        0 <= at < history.len(),
        history[at].entry is Break,
    ensures
        conversation(history.skip(segment_start(history))) == conversation(
            history.skip(at + 1).skip(segment_start(history.skip(at + 1))),
        ),
{
    lemma_segment_after_break(history, at);
    let start = segment_start(history);
    lemma_segment_start(history.skip(at + 1));
    assert(history.skip(at + 1).skip(start - (at + 1)) =~= history.skip(start));
}

proof fn lemma_segment_after_break(history: Seq<ItemModel>, at: int)
    requires
        0 <= at < history.len(),
        history[at].entry is Break,
    ensures
        segment_start(history) == at + 1 + segment_start(history.skip(at + 1)),
        segment_start(history.skip(at + 1)) <= history.len() - at - 1,
    decreases history.len(),
{
    let rest = history.skip(at + 1);
    lemma_segment_start(rest);
    if at + 1 < history.len() {
        assert(rest.last() == history.last());
        if !(history.last().entry is Break) {
            lemma_segment_after_break(history.drop_last(), at);
            assert(history.drop_last().skip(at + 1) =~= rest.drop_last());
        }
    }
}

proof fn lemma_conversation_of_parts(first: Seq<ItemModel>, second: Seq<ItemModel>)
    ensures
        conversation(first + second) == conversation(first) + conversation(second),
    decreases second.len(),
{
    if second.len() == 0 {
        assert(first + second =~= first);
        assert(conversation(first) + conversation(second) =~= conversation(first));
    } else {
        let rest = second.drop_last();
        lemma_conversation_of_parts(first, rest);
        assert((first + second).drop_last() =~= first + rest);
        assert(conversation(first) + conversation(rest) + entry_messages(second.last().entry)
            =~= conversation(first) + (conversation(rest) + entry_messages(second.last().entry)));
    }
}

proof fn lemma_no_turns_no_messages(history: Seq<ItemModel>)
    requires
        forall|i: int| 0 <= i < history.len() ==> !((#[trigger] history[i]).entry is Assistant),
    ensures
        conversation(history) == Seq::<MessageModel>::empty(),
    decreases history.len(),
{
    if history.len() > 0 {
        let rest = history.drop_last();
        assert forall|i: int| 0 <= i < rest.len() implies !((
        #[trigger] rest[i]).entry is Assistant) by {
            assert(history[i] == rest[i]);
        }
        lemma_no_turns_no_messages(rest);
        assert(!(history[history.len() - 1].entry is Assistant));
        assert(conversation(history) =~= Seq::<MessageModel>::empty());
    }
}

/// A break, or the beginning, starts the part of the conversation that counts: it begins
/// right behind the last break.
proof fn lemma_segment_is_where_the_break_is(history: Seq<ItemModel>, start: int)
    requires
        0 <= start <= history.len(),
        start > 0 ==> history[start - 1].entry is Break,
        forall|i: int| start <= i < history.len() ==> !((#[trigger] history[i]).entry is Break),
    ensures
        segment_start(history) == start,
{
    lemma_segment_start(history);
    let found = segment_start(history);
    if found < start {
        assert(!(history[start - 1].entry is Break));
    }
    if found > start {
        assert(history[found - 1].entry is Break);
    }
}

/// What a turn adds to the messages: what was asked, and behind it what was answered, all
/// of it, where the turn has its answer.
pub open spec fn says(messages: Seq<MessageModel>, turn: TurnModel) -> bool {
    &&& messages.len() == if turn.status is None {
        2int
    } else {
        1
    }
    &&& messages[0].role == ChatRole::User
    &&& messages[0].content == turn.prompt
    &&& turn.status is None ==> messages[1].role == ChatRole::Assistant
    &&& turn.status is None ==> messages[1].content == raw_text(turn.blocks)
}

/// The first turn behind a break, or of a conversation, is asked for with nothing but the
/// system prompt before it.
pub proof fn first_turn_is_asked_alone(
    thread: ThreadModel,
    tools: Seq<ToolView>,
    start: int,
    at: int,
)
    requires
        0 <= start <= at < thread.history.len(),
        start > 0 ==> thread.history[start - 1].entry is Break,
        thread.history[at].entry is Assistant,
        forall|i: int|
            start <= i < at ==> !((#[trigger] thread.history[i]).entry is Break)
                && !(thread.history[i].entry is Assistant),
        forall|i: int|
            0 <= i < at ==> (#[trigger] thread.history[i]).id != thread.history[at].id,
    ensures
        request_for(thread, thread.history[at].id, tools) matches Ok(request) ==> {
            &&& request.messages.len() > 0
            &&& request.messages[0].role == ChatRole::System
            &&& says(request.messages.skip(1), thread.history[at].entry->Assistant_0)
        },
{
    let history = thread.history;
    let upto = history.take(at + 1);
    lemma_index_of_id(history, history[at].id);
    lemma_segment_is_where_the_break_is(upto, start);
    let segment = upto.skip(start);
    let before = segment.drop_last();
    assert forall|i: int| 0 <= i < before.len() implies !((
    #[trigger] before[i]).entry is Assistant) by {
        assert(before[i] == history[start + i]);
    }
    lemma_no_turns_no_messages(before);
    assert(segment.last() == history[at]);
    let own = entry_messages(history[at].entry);
    assert(conversation(segment) =~= own);
    if let Ok(request) = request_for(thread, history[at].id, tools) {
        assert(request.messages.skip(1) =~= own);
    }
}

/// Every further turn is asked for with all that was said up to the turn before it, and
/// then its own prompt: the messages are those for the turn before, with what the turn
/// itself says behind them.
pub proof fn later_turn_follows_the_earlier(
    thread: ThreadModel,
    tools: Seq<ToolView>,
    before: int,
    at: int,
)
    requires
        0 <= before < at < thread.history.len(),
        thread.history[before].entry is Assistant,
        thread.history[at].entry is Assistant,
        forall|i: int|
            before < i < at ==> !((#[trigger] thread.history[i]).entry is Break)
                && !(thread.history[i].entry is Assistant),
        forall|i: int|
            0 <= i < at ==> (#[trigger] thread.history[i]).id != thread.history[at].id,
        forall|i: int|
            0 <= i < before ==> (#[trigger] thread.history[i]).id != thread.history[before].id,
    ensures
        request_for(thread, thread.history[at].id, tools) matches Ok(later) ==> request_for(
            thread,
            thread.history[before].id,
            tools,
        ) matches Ok(earlier) ==> {
            let shared = earlier.messages.len() as int;
            &&& later.messages.len() > shared
            &&& later.messages.subrange(1, shared) == earlier.messages.skip(1)
            &&& says(later.messages.skip(shared), thread.history[at].entry->Assistant_0)
        },
{
    let history = thread.history;
    let first = history.take(before + 1);
    let whole = history.take(at + 1);
    lemma_index_of_id(history, history[at].id);
    lemma_index_of_id(history, history[before].id);
    lemma_segment_start(first);
    let start = segment_start(first);
    assert(start <= before) by {
        if start == before + 1 {
            assert(first[start - 1].entry is Break);
        }
    }
    assert forall|i: int| start <= i < whole.len() implies !((
    #[trigger] whole[i]).entry is Break) by {
        assert(whole[i] == history[i]);
        if i <= before {
            assert(first[i] == history[i]);
        }
    }
    if start > 0 {
        assert(whole[start - 1] == first[start - 1]);
    }
    lemma_segment_is_where_the_break_is(whole, start);
    let rest = history.subrange(before + 1, at + 1);
    assert(whole.skip(start) =~= first.skip(start) + rest);
    lemma_conversation_of_parts(first.skip(start), rest);
    let between = rest.drop_last();
    assert forall|i: int| 0 <= i < between.len() implies !((
    #[trigger] between[i]).entry is Assistant) by {
        assert(between[i] == history[before + 1 + i]);
    }
    lemma_no_turns_no_messages(between);
    assert(rest.last() == history[at]);
    let own = entry_messages(history[at].entry);
    assert(conversation(rest) =~= own);
    let later = request_for(thread, history[at].id, tools);
    let earlier = request_for(thread, history[before].id, tools);
    if later is Ok && earlier is Ok {
        let later = later->Ok_0.messages;
        let earlier = earlier->Ok_0.messages;
        assert(later.skip(earlier.len() as int) =~= own);
        assert(later.subrange(1, earlier.len() as int) =~= earlier.skip(1));
    }
}

/// A model hears of its tools where they are enabled for the turn: behind the system
/// prompt stand the schemas of all of them, as JSON. Where they are not, or there are
/// none, it hears the system prompt alone.
pub proof fn tools_are_told_where_enabled(thread: ThreadModel, id: u64, tools: Seq<ToolView>)
    ensures
        request_for(thread, id, tools) matches Ok(request) ==> {
            let system = request.messages[0];
            let schemas = json_pretty(
                JsonView::Array(Seq::new(tools.len(), |i: int| tool_schema(tools[i]))),
            );
            &&& request.messages.len() > 0
            &&& system.role == ChatRole::System
            &&& !request.config.tools_enabled || tools.len() == 0 ==> system.content
                == SYSTEM_PROMPT@
            &&& request.config.tools_enabled && tools.len() > 0 ==> {
                &&& has_prefix(system.content, SYSTEM_PROMPT@)
                &&& exists|at: int|
                    at >= SYSTEM_PROMPT@.len() && #[trigger] occurs_at(system.content, schemas, at)
            }
        },
{
    if let Ok(request) = request_for(thread, id, tools) {
        if request.config.tools_enabled && tools.len() > 0 {
            let content = request.messages[0].content;
            let schemas = json_pretty(
                JsonView::Array(Seq::new(tools.len(), |i: int| tool_schema(tools[i]))),
            );
            assert(tools.map_values(|tool: ToolView| tool_schema(tool)) =~= Seq::new(
                tools.len(),
                |i: int| tool_schema(tools[i]),
            ));
            let base = SYSTEM_PROMPT@;
            let at = (base + TOOL_RULES@).len() as int;
            assert(content.subrange(0, base.len() as int) =~= base);
            assert(content.subrange(at, at + schemas.len()) =~= schemas);
            assert(occurs_at(content, schemas, at));
        }
    }
}

/// A turn is asked for with the settings that hold at its place, and in the way in which
/// its model writes tool calls. It can be asked for exactly where it is in the
/// conversation and its model is known.
pub proof fn turn_is_asked_for_with_its_settings(
    thread: ThreadModel,
    tools: Seq<ToolView>,
    at: int,
)
    requires
        0 <= at < thread.history.len(),
        forall|i: int|
            0 <= i < at ==> (#[trigger] thread.history[i]).id != thread.history[at].id,
    ensures
        ({
            let asked = request_for(thread, thread.history[at].id, tools);
            let config = config_until(thread, at);
            &&& asked is Ok <==> exists|k: int|
                0 <= k < default_configs().len() && (#[trigger] default_configs()[k]).id
                    == config.model_id
            &&& asked matches Ok(request) ==> {
                &&& request.config == config
                &&& request.max_tokens == MAX_GENERATION_TOKENS
                &&& exists|k: int|
                    0 <= k < default_configs().len() && (#[trigger] default_configs()[k]).id
                        == config.model_id && request.tool_format
                        == default_configs()[k].model.tool_format()
            }
        }),
{
    let configs = default_configs();
    let model_id = config_until(thread, at).model_id;
    lemma_index_of_id(thread.history, thread.history[at].id);
    found_config_has_the_id(configs, model_id);
    match config_named(configs, model_id) {
        Some(config) => {
            let k = choose|k: int| 0 <= k < configs.len() && configs[k] == config;
            assert(configs[k].id == model_id);
        },
        None => {
            assert forall|k: int| 0 <= k < configs.len() implies (#[trigger] configs[k]).id
                != model_id by {
                assert(config_ids(configs)[k] == configs[k].id);
            }
        },
    }
}

/// A turn that is not in the conversation cannot be asked for.
pub proof fn missing_turn_cannot_be_asked_for(thread: ThreadModel, id: u64, tools: Seq<ToolView>)
    requires
        forall|i: int| 0 <= i < thread.history.len() ==> (#[trigger] thread.history[i]).id != id,
    ensures
        request_for(thread, id, tools) is Err,
{
    lemma_index_of_id(thread.history, id);
}

} // verus!
