//! Tools: what a model is told of them, and the calls it makes.

use vstd::prelude::*;
use vstd::string::*;

use crate::json::{
    copy_json, get_member, get_text, json_array, json_members, json_object, json_pretty, json_read,
    json_text, json_view, json_views, pretty_json, read_json, JsonView,
};
use crate::text::{
    chars_of, decimal, decimal_text, find_from, find_last, first_from, joined, joined3,
    last_position, lemma_first_from, lemma_last_upto, occurs_at, same_text, text_of, texts, trim,
    trimmed,
};

verus! {

/// The kind of value that a tool takes for a parameter.
#[derive(Debug, Clone, Copy, PartialEq, Eq, Structural)]
pub enum ToolParameterKind {
    String,
    Integer,
    Boolean,
}

impl ToolParameterKind {
    /// The name of the kind in JSON schema.
    pub open spec fn json_type(self) -> Seq<char> {
        match self {
            ToolParameterKind::String => "string"@,
            ToolParameterKind::Integer => "integer"@,
            ToolParameterKind::Boolean => "boolean"@,
        }
    }

    /// The name of the kind in JSON schema.
    pub fn as_json_type(self) -> (name: &'static str)
        ensures
            name@ == self.json_type(),
    {
        match self {
            ToolParameterKind::String => "string",
            ToolParameterKind::Integer => "integer",
            ToolParameterKind::Boolean => "boolean",
        }
    }
}

/// A parameter of a tool.
#[derive(Debug, PartialEq, Eq)]
pub struct ToolParameter {
    pub name: String,
    pub description: String,
    pub kind: ToolParameterKind,
    pub required: bool,
}

/// A parameter by its contents.
pub struct ParameterView {
    pub name: Seq<char>,
    pub description: Seq<char>,
    pub kind: ToolParameterKind,
    pub required: bool,
}

impl View for ToolParameter {
    type V = ParameterView;

    open spec fn view(&self) -> ParameterView {
        ParameterView {
            name: self.name@,
            description: self.description@,
            kind: self.kind,
            required: self.required,
        }
    }
}

impl Clone for ToolParameter {
    fn clone(&self) -> (copy: Self)
        ensures
            copy@ == self@,
    {
        ToolParameter {
            name: self.name.clone(),
            description: self.description.clone(),
            kind: self.kind,
            required: self.required,
        }
    }
}

impl ToolParameter {
    /// A parameter that every call has to give.
    pub fn required(name: &str, description: &str, kind: ToolParameterKind) -> (parameter: Self)
        ensures
            parameter@ == (ParameterView {
                name: name@,
                description: description@,
                kind,
                required: true,
            }),
    {
        ToolParameter {
            name: name.to_string(),
            description: description.to_string(),
            kind,
            required: true,
        }
    }

    /// A parameter that a call may leave out.
    pub fn optional(name: &str, description: &str, kind: ToolParameterKind) -> (parameter: Self)
        ensures
            parameter@ == (ParameterView {
                name: name@,
                description: description@,
                kind,
                required: false,
            }),
    {
        ToolParameter {
            name: name.to_string(),
            description: description.to_string(),
            kind,
            required: false,
        }
    }
}

/// A tool that a model may call.
#[derive(Debug, PartialEq, Eq)]
pub struct ToolSpec {
    pub name: String,
    pub description: String,
    pub parameters: Vec<ToolParameter>,
}

/// A tool by its contents.
pub struct ToolView {
    pub name: Seq<char>,
    pub description: Seq<char>,
    pub parameters: Seq<ParameterView>,
}

/// The contents of a list of parameters.
pub open spec fn parameter_views(list: Seq<ToolParameter>) -> Seq<ParameterView> {
    list.map_values(|item: ToolParameter| item@)
}

/// The contents of a list of tools.
pub open spec fn tool_views(list: Seq<ToolSpec>) -> Seq<ToolView> {
    list.map_values(|item: ToolSpec| item@)
}

impl View for ToolSpec {
    type V = ToolView;

    open spec fn view(&self) -> ToolView {
        ToolView {
            name: self.name@,
            description: self.description@,
            parameters: parameter_views(self.parameters@),
        }
    }
}

impl Clone for ToolSpec {
    fn clone(&self) -> (copy: Self)
        ensures
            copy@ == self@,
    {
        let mut parameters: Vec<ToolParameter> = Vec::new();
        let mut i: usize = 0;
        while i < self.parameters.len()
            invariant
                i <= self.parameters@.len(),
                parameters@.len() == i,
                forall|k: int| 0 <= k < i ==> #[trigger] parameters@[k]@ == self.parameters@[k]@,
            decreases self.parameters@.len() - i,
        {
            parameters.push(self.parameters[i].clone());
            i = i + 1;
        }
        assert(parameter_views(parameters@) =~= parameter_views(self.parameters@));
        ToolSpec { name: self.name.clone(), description: self.description.clone(), parameters }
    }
}

/// What the schema says of one parameter.
pub open spec fn parameter_schema(parameter: ParameterView) -> JsonView {
    JsonView::Object(
        Map::empty().insert("type"@, JsonView::Text(parameter.kind.json_type())).insert(
            "description"@,
            JsonView::Text(parameter.description),
        ),
    )
}

/// The schema of the parameters by name: of parameters with the same name the
/// last one counts.
pub open spec fn property_schemas(parameters: Seq<ParameterView>) -> Map<Seq<char>, JsonView>
    decreases parameters.len(),
{
    if parameters.len() == 0 {
        Map::empty()
    } else {
        property_schemas(parameters.drop_last()).insert(
            parameters.last().name,
            parameter_schema(parameters.last()),
        )
    }
}

/// The names of the parameters that every call has to give.
pub open spec fn required_names(parameters: Seq<ParameterView>) -> Seq<JsonView>
    decreases parameters.len(),
{
    if parameters.len() == 0 {
        Seq::empty()
    } else if parameters.last().required {
        required_names(parameters.drop_last()).push(JsonView::Text(parameters.last().name))
    } else {
        required_names(parameters.drop_last())
    }
}

/// The schema of a tool.
pub open spec fn tool_schema(tool: ToolView) -> JsonView {
    JsonView::Object(
        Map::empty().insert("name"@, JsonView::Text(tool.name)).insert(
            "description"@,
            JsonView::Text(tool.description),
        ).insert(
            "parameters"@,
            JsonView::Object(
                Map::empty().insert("type"@, JsonView::Text("object"@)).insert(
                    "properties"@,
                    JsonView::Object(property_schemas(tool.parameters)),
                ).insert("required"@, JsonView::Array(required_names(tool.parameters))),
            ),
        ),
    )
}

/// An object of one field more.
proof fn lemma_members_push(
    fields: Seq<(String, serde_json::Value)>,
    name: String,
    value: serde_json::Value,
)
    ensures
        json_members(fields.push((name, value))) == json_members(fields).insert(
            name@,
            json_view(value),
        ),
{
    assert(fields.push((name, value)).drop_last() =~= fields);
}

/// An object of two fields.
fn object2(
    first: &str,
    first_value: serde_json::Value,
    second: &str,
    second_value: serde_json::Value,
) -> (value: serde_json::Value)
    ensures
        json_view(value) == JsonView::Object(
            Map::empty().insert(first@, json_view(first_value)).insert(
                second@,
                json_view(second_value),
            ),
        ),
{
    let mut fields: Vec<(String, serde_json::Value)> = Vec::new();
    proof {
        reveal_with_fuel(json_members, 3);
    }
    let first = first.to_string();
    let second = second.to_string();
    proof {
        lemma_members_push(fields@, first, first_value);
        lemma_members_push(fields@.push((first, first_value)), second, second_value);
    }
    fields.push((first, first_value));
    fields.push((second, second_value));
    json_object(fields)
}

/// An object of three fields.
fn object3(
    first: &str,
    first_value: serde_json::Value,
    second: &str,
    second_value: serde_json::Value,
    third: &str,
    third_value: serde_json::Value,
) -> (value: serde_json::Value)
    ensures
        json_view(value) == JsonView::Object(
            Map::empty().insert(first@, json_view(first_value)).insert(
                second@,
                json_view(second_value),
            ).insert(third@, json_view(third_value)),
        ),
{
    let mut fields: Vec<(String, serde_json::Value)> = Vec::new();
    let first = first.to_string();
    let second = second.to_string();
    let third = third.to_string();
    proof {
        let one = fields@.push((first, first_value));
        let two = one.push((second, second_value));
        lemma_members_push(fields@, first, first_value);
        lemma_members_push(one, second, second_value);
        lemma_members_push(two, third, third_value);
    }
    fields.push((first, first_value));
    fields.push((second, second_value));
    fields.push((third, third_value));
    json_object(fields)
}

impl ToolSpec {
    /// A tool with its parameters.
    pub fn new(name: &str, description: &str, parameters: Vec<ToolParameter>) -> (tool: Self)
        ensures
            tool@ == (ToolView {
                name: name@,
                description: description@,
                parameters: parameter_views(parameters@),
            }),
    {
        ToolSpec { name: name.to_string(), description: description.to_string(), parameters }
    }

    /// The schema of the tool.
    pub fn schema(&self) -> (schema: serde_json::Value)
        ensures
            json_view(schema) == tool_schema(self@),
    {
        let ghost all = parameter_views(self.parameters@);
        let mut properties: Vec<(String, serde_json::Value)> = Vec::new();
        let mut required: Vec<serde_json::Value> = Vec::new();
        let mut i: usize = 0;
        assert(all.take(0) =~= Seq::<ParameterView>::empty());
        assert(json_views(required@) =~= Seq::<JsonView>::empty());
        while i < self.parameters.len()
            invariant
                i <= self.parameters@.len(),
                all == parameter_views(self.parameters@),
                json_members(properties@) == property_schemas(all.take(i as int)),
                json_views(required@) == required_names(all.take(i as int)),
            decreases self.parameters@.len() - i,
        {
            let parameter = &self.parameters[i];
            let shape = object2(
                "type",
                json_text(parameter.kind.as_json_type()),
                "description",
                json_text(parameter.description.as_str()),
            );
            let name = parameter.name.clone();
            proof {
                let seen = all.take(i + 1);
                assert(seen.drop_last() =~= all.take(i as int));
                assert(seen.last() == parameter@);
                lemma_members_push(properties@, name, shape);
            }
            properties.push((name, shape));
            if parameter.required {
                let ghost before = json_views(required@);
                required.push(json_text(parameter.name.as_str()));
                assert(json_views(required@) =~= before.push(JsonView::Text(parameter@.name)));
            }
            i = i + 1;
        }
        assert(all.take(all.len() as int) =~= all);
        let parameters = object3(
            "type",
            json_text("object"),
            "properties",
            json_object(properties),
            "required",
            json_array(required),
        );
        object3(
            "name",
            json_text(self.name.as_str()),
            "description",
            json_text(self.description.as_str()),
            "parameters",
            parameters,
        )
    }
}

/// How a family of models writes its tool calls.
#[derive(Debug, Clone, Copy, PartialEq, Eq, Structural)]
pub enum ToolFormat {
    XmlJson,
    JsonEnvelope,
}

/// When a model is to use tools.
pub const TOOL_RULES: &'static str = "\n\nUse tools only when the user explicitly asks for project-local search, file reading, or the fake weather tool, or when the request cannot be answered from the conversation alone.\nDo not use tools for greetings, identity questions, casual conversation, or other general knowledge questions.\nOnly use one of the listed tool names. Never invent a new tool name.\nAvailable tools:\n";

/// How a call is written between XML tags.
pub const XML_CALL_RULES: &'static str = "\n\nFor SmolLM3 tool calls, output only this exact XML tag with a JSON object inside:\n<tool_call>{\"name\":\"tool_name\",\"arguments\":{}}</tool_call>\nDo not add prose around a tool call.";

/// How a call is written in a JSON envelope.
pub const ENVELOPE_CALL_RULES: &'static str = "\n\nFor Qwen tool calls, output only this JSON object and no prose:\n{\"tool_call\":{\"name\":\"tool_name\",\"arguments\":{}}}";

/// The schemas of tools, as a model reads them.
pub open spec fn tools_text(tools: Seq<ToolView>) -> Seq<char> {
    json_pretty(JsonView::Array(tools.map_values(|tool: ToolView| tool_schema(tool))))
}

/// The system prompt for a set of tools: the base prompt alone where there are
/// none, and otherwise followed by the rules and schemas.
pub open spec fn prompt_for(format: ToolFormat, base: Seq<char>, tools: Seq<ToolView>) -> Seq<
    char,
> {
    if tools.len() == 0 {
        base
    } else {
        base + TOOL_RULES@ + tools_text(tools) + match format {
            ToolFormat::XmlJson => XML_CALL_RULES@,
            ToolFormat::JsonEnvelope => ENVELOPE_CALL_RULES@,
        }
    }
}

/// Writes the schemas of tools as one JSON text.
pub fn render_tools_json(tools: &[ToolSpec]) -> (text: String)
    ensures
        text@ == tools_text(tool_views(tools@)),
{
    let mut values: Vec<serde_json::Value> = Vec::new();
    let mut i: usize = 0;
    while i < tools.len()
        invariant
            i <= tools@.len(),
            values@.len() == i,
            forall|k: int| 0 <= k < i ==> json_view(#[trigger] values@[k]) == tool_schema(tools@[k]@),
        decreases tools@.len() - i,
    {
        values.push(tools[i].schema());
        i = i + 1;
    }
    assert(json_views(values@) =~= tool_views(tools@).map_values(
        |tool: ToolView| tool_schema(tool),
    ));
    pretty_json(&json_array(values)).unwrap()
}

/// A call of a tool that a model made.
#[derive(Debug, PartialEq)]
pub struct ToolCall {
    pub name: String,
    pub arguments: serde_json::Value,
}

/// A call by its contents.
pub struct CallView {
    pub name: Seq<char>,
    pub arguments: JsonView,
}

impl View for ToolCall {
    type V = CallView;

    open spec fn view(&self) -> CallView {
        CallView { name: self.name@, arguments: json_view(self.arguments) }
    }
}

impl Clone for ToolCall {
    fn clone(&self) -> (copy: Self)
        ensures
            copy@ == self@,
    {
        ToolCall { name: self.name.clone(), arguments: copy_json(&self.arguments) }
    }
}

/// The contents of a list of calls.
pub open spec fn call_views(list: Seq<ToolCall>) -> Seq<CallView> {
    list.map_values(|call: ToolCall| call@)
}

/// The call that an object describes: its name has to be a text, and its
/// arguments are an empty object where it has none.
pub open spec fn described_call(value: JsonView) -> Option<CallView> {
    match value.member("name"@) {
        Some(JsonView::Text(name)) => Some(
            CallView {
                name,
                arguments: match value.member("arguments"@) {
                    Some(arguments) => arguments,
                    None => JsonView::Object(Map::empty()),
                },
            },
        ),
        _ => None,
    }
}

/// The call that a JSON value holds, in an envelope or not.
pub open spec fn held_call(value: JsonView) -> Option<CallView> {
    match value.member("tool_call"@) {
        Some(envelope) => described_call(envelope),
        None => described_call(value),
    }
}

/// The call that a JSON text holds.
pub open spec fn written_call(text: Seq<char>) -> Option<CallView> {
    match json_read(text) {
        Some(value) => held_call(value),
        None => None,
    }
}

/// The contents of an optional call.
pub open spec fn call_option(call: Option<ToolCall>) -> Option<CallView> {
    match call {
        Some(call) => Some(call@),
        None => None,
    }
}

/// Reads a call from the object that describes it.
pub fn tool_call_from_value(value: &serde_json::Value) -> (call: Option<ToolCall>)
    ensures
        call_option(call) == described_call(json_view(*value)),
{
    let name = match get_member(value, "name") {
        Some(name) => match get_text(name) {
            Some(name) => name.to_string(),
            None => return None,
        },
        None => return None,
    };
    let arguments = match get_member(value, "arguments") {
        Some(arguments) => copy_json(arguments),
        None => json_object(Vec::new()),
    };
    Some(ToolCall { name, arguments })
}

/// Reads a call from a JSON value, in an envelope or not.
pub fn tool_call_in_value(value: &serde_json::Value) -> (call: Option<ToolCall>)
    ensures
        call_option(call) == held_call(json_view(*value)),
{
    match get_member(value, "tool_call") {
        Some(envelope) => tool_call_from_value(envelope),
        None => tool_call_from_value(value),
    }
}

/// Reads a call from a JSON text.
pub fn parse_tool_call_value(content: &str) -> (call: Option<ToolCall>)
    ensures
        call_option(call) == written_call(content@),
{
    match read_json(content) {
        Some(value) => tool_call_in_value(&value),
        None => None,
    }
}

/// The tag that opens a call.
pub const CALL_OPEN: &'static str = "<tool_call>";

/// The tag that closes a call.
pub const CALL_CLOSE: &'static str = "</tool_call>";

/// A call, if there is one, as a list.
pub open spec fn as_list(call: Option<CallView>) -> Seq<CallView> {
    match call {
        Some(call) => seq![call],
        None => Seq::empty(),
    }
}

/// The calls between XML tags, in their order. What stands between two tags and
/// is no call is passed over, and an open tag that nothing closes ends the
/// search.
pub open spec fn tagged_calls(content: Seq<char>) -> Seq<CallView>
    decreases content.len(),
{
    match first_from(content, CALL_OPEN@, 0) {
        None => Seq::empty(),
        Some(start) => {
            let rest = content.skip(start + CALL_OPEN@.len());
            match first_from(rest, CALL_CLOSE@, 0) {
                None => Seq::empty(),
                Some(end) => {
                    proof {
                        reveal_strlit("<tool_call>");
                        lemma_first_from(content, CALL_OPEN@, 0);
                        lemma_first_from(rest, CALL_CLOSE@, 0);
                    }
                    as_list(written_call(trimmed(rest.take(end)))) + tagged_calls(
                        rest.skip(end + CALL_CLOSE@.len()),
                    )
                },
            }
        },
    }
}

/// Whether the first `{` of a text stands behind its last `}`, with something in
/// between. Such a text holds no object.
pub open spec fn braces_cross(content: Seq<char>) -> bool {
    match (first_from(content, seq!['{'], 0), last_position(content, seq!['}'])) {
        (Some(start), Some(end)) => start > end + 1,
        _ => false,
    }
}

/// What stands from the first `{` to the last `}` of a text whose braces do not
/// cross.
pub open spec fn braced(content: Seq<char>) -> Option<Seq<char>> {
    match (first_from(content, seq!['{'], 0), last_position(content, seq!['}'])) {
        (Some(start), Some(end)) => Some(content.subrange(start, end + 1)),
        _ => None,
    }
}

/// The call in a text that is JSON as a whole, or else from its first brace to
/// its last.
pub open spec fn enveloped_call(content: Seq<char>) -> Option<CallView> {
    match written_call(trimmed(content)) {
        Some(call) => Some(call),
        None => match braced(content) {
            Some(object) => written_call(object),
            None => None,
        },
    }
}

/// The calls that a model wrote. There is none where braces cross.
pub open spec fn calls_in(format: ToolFormat, content: Seq<char>) -> Seq<CallView> {
    match format {
        ToolFormat::XmlJson => tagged_calls(content),
        ToolFormat::JsonEnvelope => if braces_cross(content) {
            Seq::empty()
        } else {
            as_list(enveloped_call(content))
        },
    }
}

impl ToolFormat {
    /// The system prompt that tells a model of its tools.
    pub fn system_prompt(self, base_prompt: &str, tools: &[ToolSpec]) -> (prompt: String)
        ensures
            prompt@ == prompt_for(self, base_prompt@, tool_views(tools@)),
    {
        if tools.len() == 0 {
            return base_prompt.to_string();
        }
        let tools_json = render_tools_json(tools);
        let head = joined3(base_prompt, TOOL_RULES, tools_json.as_str());
        match self {
            ToolFormat::XmlJson => joined(head.as_str(), XML_CALL_RULES),
            ToolFormat::JsonEnvelope => joined(head.as_str(), ENVELOPE_CALL_RULES),
        }
    }

    /// Reads the calls that a model wrote.
    pub fn parse(self, content: &str) -> (calls: Vec<ToolCall>)
        ensures
            call_views(calls@) == calls_in(self, content@),
    {
        match self {
            ToolFormat::XmlJson => parse_xml_json_tool_calls(content),
            ToolFormat::JsonEnvelope => {
                let mut calls: Vec<ToolCall> = Vec::new();
                if !has_crossed_braces(content) {
                    if let Some(call) = parse_json_envelope_tool_call(content) {
                        calls.push(call);
                    }
                }
                assert(call_views(calls@) =~= calls_in(self, content@));
                calls
            },
        }
    }
}

/// Reads the calls between XML tags.
pub fn parse_xml_json_tool_calls(content: &str) -> (calls: Vec<ToolCall>)
    ensures
        call_views(calls@) == tagged_calls(content@),
{
    proof {
        reveal_strlit("<tool_call>");
        reveal_strlit("</tool_call>");
    }
    let open = chars_of(CALL_OPEN);
    let close = chars_of(CALL_CLOSE);
    let mut calls: Vec<ToolCall> = Vec::new();
    let mut rest = chars_of(content);
    assert(call_views(calls@) + tagged_calls(rest@) =~= tagged_calls(content@));
    loop
        invariant
            open@ == CALL_OPEN@,
            close@ == CALL_CLOSE@,
            open@.len() > 0,
            call_views(calls@) + tagged_calls(rest@) == tagged_calls(content@),
        decreases rest@.len(),
    {
        let len: usize = rest.len();
        let start: usize = match find_from(&rest, &open, 0) {
            Some(start) => start,
            None => {
                assert(call_views(calls@) + Seq::<CallView>::empty() =~= call_views(calls@));
                return calls;
            },
        };
        proof {
            lemma_first_from(rest@, open@, 0);
        }
        let from: usize = start + open.len();
        let ghost inner = rest@.skip(from as int);
        let inside = chars_of(text_of(&rest, from, len).as_str());
        assert(inside@ =~= inner);
        let end: usize = match find_from(&inside, &close, 0) {
            Some(end) => end,
            None => {
                assert(call_views(calls@) + Seq::<CallView>::empty() =~= call_views(calls@));
                return calls;
            },
        };
        proof {
            lemma_first_from(inner, close@, 0);
        }
        let candidate = text_of(&inside, 0, end);
        assert(candidate@ =~= inner.take(end as int));
        let ghost before = call_views(calls@);
        let ghost found = as_list(written_call(trimmed(inner.take(end as int))));
        if let Some(call) = parse_tool_call_value(trim(candidate.as_str())) {
            calls.push(call);
        }
        assert(call_views(calls@) =~= before + found);
        let after: usize = end + close.len();
        let ghost tail = inner.skip(after as int);
        rest = chars_of(text_of(&inside, after, inside.len()).as_str());
        assert(rest@ =~= tail);
        assert(before + (found + tagged_calls(tail)) =~= before + found + tagged_calls(tail));
    }
}

/// Where the first `{` and the last `}` of a text are.
fn find_braces(chars: &Vec<char>) -> (found: Option<(usize, usize)>)
    ensures
        match (first_from(chars@, seq!['{'], 0), last_position(chars@, seq!['}'])) {
            (Some(start), Some(end)) => {
                &&& found matches Some(at) && at.0 == start && at.1 == end
                &&& 0 <= start < chars@.len()
                &&& 0 <= end < chars@.len()
            },
            _ => found is None,
        },
{
    let open = vec!['{'];
    let close = vec!['}'];
    assert(open@ =~= seq!['{']);
    assert(close@ =~= seq!['}']);
    proof {
        lemma_first_from(chars@, seq!['{'], 0);
        lemma_last_upto(chars@, seq!['}'], chars@.len() - 1);
    }
    match (find_from(chars, &open, 0), find_last(chars, &close)) {
        (Some(start), Some(end)) => Some((start, end)),
        _ => None,
    }
}

/// Whether the first `{` of a text stands behind its last `}`, with something in
/// between.
fn has_crossed_braces(content: &str) -> (yes: bool)
    ensures
        yes == braces_cross(content@),
{
    match find_braces(&chars_of(content)) {
        Some((start, end)) => start > end && start - end > 1,
        None => false,
    }
}

/// Reads the call in a text that holds one JSON object.
pub fn parse_json_envelope_tool_call(content: &str) -> (call: Option<ToolCall>)
    requires
        !braces_cross(content@),
    ensures
        call_option(call) == enveloped_call(content@),
{
    match parse_tool_call_value(trim(content)) {
        Some(call) => Some(call),
        None => {
            let chars = chars_of(content);
            match find_braces(&chars) {
                Some((start, end)) => {
                    assert(end < chars.len());
                    parse_tool_call_value(text_of(&chars, start, end + 1).as_str())
                },
                None => None,
            }
        },
    }
}

/// Whether a call names one of the tools.
pub open spec fn is_allowed(call: CallView, names: Seq<Seq<char>>) -> bool {
    names.contains(call.name)
}

/// The two lines on a call: its number and name, and its arguments.
pub open spec fn call_lines(number: nat, call: CallView) -> Seq<Seq<char>> {
    seq![decimal(number) + ". "@ + call.name, json_pretty(call.arguments)]
}

/// The lines on those calls that are, or are not, allowed. The numbers count all
/// calls.
pub open spec fn listed_calls(calls: Seq<CallView>, names: Seq<Seq<char>>, allowed: bool) -> Seq<
    Seq<char>,
>
    decreases calls.len(),
{
    if calls.len() == 0 {
        Seq::empty()
    } else {
        let before = listed_calls(calls.drop_last(), names, allowed);
        if is_allowed(calls.last(), names) == allowed {
            before + call_lines(calls.len(), calls.last())
        } else {
            before
        }
    }
}

/// A heading over lines, where there are any.
pub open spec fn headed(heading: Seq<char>, lines: Seq<Seq<char>>) -> Seq<Seq<char>> {
    if lines.len() == 0 {
        lines
    } else {
        seq![heading] + lines
    }
}

/// What is shown of the calls in an answer: those of known tools, then the
/// others.
pub open spec fn callouts_for(calls: Seq<CallView>, names: Seq<Seq<char>>) -> Seq<Seq<char>> {
    headed("parsed tool calls:"@, listed_calls(calls, names, true)) + headed(
        "ignored unsupported tool calls:"@,
        listed_calls(calls, names, false),
    )
}

/// The names of tools.
pub open spec fn tool_names(tools: Seq<ToolView>) -> Seq<Seq<char>> {
    tools.map_values(|tool: ToolView| tool.name)
}

/// Whether one of the tools has a name.
fn names_tool(tools: &[ToolSpec], name: &str) -> (yes: bool)
    ensures
        yes == tool_names(tool_views(tools@)).contains(name@),
{
    let ghost names = tool_names(tool_views(tools@));
    let mut i: usize = 0;
    while i < tools.len()
        invariant
            i <= tools@.len(),
            names == tool_names(tool_views(tools@)),
            forall|k: int| 0 <= k < i ==> #[trigger] names[k] != name@,
        decreases tools@.len() - i,
    {
        assert(names[i as int] == tools@[i as int].name@);
        if same_text(tools[i].name.as_str(), name) {
            return true;
        }
        i = i + 1;
    }
    false
}

/// The lines on those calls that are, or are not, allowed.
fn list_calls(calls: &Vec<ToolCall>, tools: &[ToolSpec], allowed: bool) -> (lines: Vec<String>)
    ensures
        texts(lines@) == listed_calls(
            call_views(calls@),
            tool_names(tool_views(tools@)),
            allowed,
        ),
{
    let ghost all = call_views(calls@);
    let ghost names = tool_names(tool_views(tools@));
    let mut lines: Vec<String> = Vec::new();
    let mut i: usize = 0;
    assert(texts(lines@) =~= listed_calls(all.take(0), names, allowed));
    while i < calls.len()
        invariant
            i <= calls@.len(),
            all == call_views(calls@),
            names == tool_names(tool_views(tools@)),
            texts(lines@) == listed_calls(all.take(i as int), names, allowed),
        decreases calls@.len() - i,
    {
        let ghost before = texts(lines@);
        proof {
            let seen = all.take(i + 1);
            assert(seen.drop_last() =~= all.take(i as int));
            assert(seen.last() == calls@[i as int]@);
        }
        if names_tool(tools, calls[i].name.as_str()) == allowed {
            let number = decimal_text((i + 1) as u64);
            lines.push(joined3(number.as_str(), ". ", calls[i].name.as_str()));
            lines.push(pretty_json(&calls[i].arguments).unwrap());
            assert(texts(lines@) =~= before + call_lines((i + 1) as nat, calls@[i as int]@));
        }
        i = i + 1;
    }
    assert(all.take(all.len() as int) =~= all);
    lines
}

/// What is shown of the calls in an answer.
pub fn parsed_tool_callouts(tool_calls: &Vec<ToolCall>, tools: &[ToolSpec]) -> (callouts: Vec<
    String,
>)
    ensures
        texts(callouts@) == callouts_for(
            call_views(tool_calls@),
            tool_names(tool_views(tools@)),
        ),
{
    let mut callouts: Vec<String> = Vec::new();
    let mut supported = list_calls(tool_calls, tools, true);
    let mut unsupported = list_calls(tool_calls, tools, false);
    let ghost some = texts(supported@);
    let ghost other = texts(unsupported@);
    if supported.len() > 0 {
        callouts.push("parsed tool calls:".to_string());
        callouts.append(&mut supported);
    }
    assert(texts(callouts@) =~= headed("parsed tool calls:"@, some));
    let ghost before = texts(callouts@);
    if unsupported.len() > 0 {
        callouts.push("ignored unsupported tool calls:".to_string());
        callouts.append(&mut unsupported);
    }
    assert(texts(callouts@) =~= before + headed("ignored unsupported tool calls:"@, other));
    callouts
}

/// The schema of a tool says its name and what it does. It lists every parameter with its type
/// and what it means, where no later one has the same name, and requires exactly those that a
/// call has to give, in their order.
pub proof fn schema_describes_the_tool(tool: ToolView, k: int)
    requires
        0 <= k < tool.parameters.len(),
        forall|i: int|
            k < i < tool.parameters.len() ==> (#[trigger] tool.parameters[i]).name
                != tool.parameters[k].name,
    ensures
        ({
            let schema = tool_schema(tool);
            let parameter = tool.parameters[k];
            &&& schema.member("name"@) == Some(JsonView::Text(tool.name))
            &&& schema.member("description"@) == Some(JsonView::Text(tool.description))
            &&& schema.member("parameters"@) matches Some(parameters) && {
                &&& parameters.member("type"@) == Some(JsonView::Text("object"@))
                &&& parameters.member("properties"@) matches Some(properties)
                    && properties.member(parameter.name) matches Some(property) && {
                    &&& property.member("type"@) == Some(
                        JsonView::Text(parameter.kind.json_type()),
                    )
                    &&& property.member("description"@) == Some(
                        JsonView::Text(parameter.description),
                    )
                }
                &&& parameters.member("required"@) == Some(
                    JsonView::Array(
                        tool.parameters.filter(|one: ParameterView| one.required).map_values(
                            |one: ParameterView| JsonView::Text(one.name),
                        ),
                    ),
                )
            }
        }),
{
    reveal_strlit("name");
    reveal_strlit("description");
    reveal_strlit("parameters");
    reveal_strlit("type");
    reveal_strlit("properties");
    reveal_strlit("required");
    assert("name"@.len() == 4 && "type"@.len() == 4 && "name"@[0] != "type"@[0]);
    assert("description"@.len() == 11);
    assert("parameters"@.len() == 10 && "properties"@.len() == 10 && "parameters"@[1]
        != "properties"@[1]);
    assert("required"@.len() == 8);
    lemma_property_of(tool.parameters, k);
    lemma_required_names(tool.parameters);
}

proof fn lemma_property_of(parameters: Seq<ParameterView>, k: int)
    requires
        0 <= k < parameters.len(),
        forall|i: int|
            k < i < parameters.len() ==> (#[trigger] parameters[i]).name != parameters[k].name,
    ensures
        property_schemas(parameters).dom().contains(parameters[k].name),
        property_schemas(parameters)[parameters[k].name] == parameter_schema(parameters[k]),
    decreases parameters.len(),
{
    if k < parameters.len() - 1 {
        let rest = parameters.drop_last();
        assert forall|i: int| k < i < rest.len() implies (#[trigger] rest[i]).name
            != rest[k].name by {
            assert(rest[i] == parameters[i]);
        }
        lemma_property_of(rest, k);
        assert(parameters[parameters.len() - 1].name != parameters[k].name);
    }
}

proof fn lemma_required_names(parameters: Seq<ParameterView>)
    ensures
        required_names(parameters) == parameters.filter(
            |one: ParameterView| one.required,
        ).map_values(|one: ParameterView| JsonView::Text(one.name)),
    decreases parameters.len(),
{
    reveal(Seq::filter);
    let wanted = |one: ParameterView| one.required;
    let text = |one: ParameterView| JsonView::Text(one.name);
    if parameters.len() > 0 {
        let rest = parameters.drop_last();
        lemma_required_names(rest);
        let before = rest.filter(wanted);
        if parameters.last().required {
            assert(parameters.filter(wanted) == before.push(parameters.last()));
            assert(before.push(parameters.last()).map_values(text) =~= before.map_values(
                text,
            ).push(JsonView::Text(parameters.last().name)));
        } else {
            assert(parameters.filter(wanted) == before);
        }
    } else {
        assert(required_names(parameters) =~= parameters.filter(wanted).map_values(text));
    }
}

/// A model is told of its tools behind the base prompt: when to use them, what they are, and how
/// its family writes calls. Without tools it is told the base prompt alone.
pub proof fn prompt_tells_of_the_tools(format: ToolFormat, base: Seq<char>, tools: Seq<ToolView>)
    ensures
        tools.len() == 0 ==> prompt_for(format, base, tools) == base,
        tools.len() > 0 ==> prompt_for(format, base, tools) == base + (TOOL_RULES@ + json_pretty(
            JsonView::Array(Seq::new(tools.len(), |i: int| tool_schema(tools[i]))),
        ) + if format == ToolFormat::XmlJson {
            XML_CALL_RULES@
        } else {
            ENVELOPE_CALL_RULES@
        }),
{
    if tools.len() > 0 {
        assert(tools.map_values(|tool: ToolView| tool_schema(tool)) =~= Seq::new(
            tools.len(),
            |i: int| tool_schema(tools[i]),
        ));
        let schemas = tools_text(tools);
        let rules = if format == ToolFormat::XmlJson {
            XML_CALL_RULES@
        } else {
            ENVELOPE_CALL_RULES@
        };
        assert(base + TOOL_RULES@ + schemas + rules =~= base + (TOOL_RULES@ + schemas + rules));
    }
}

/// A value that holds a name is a call of that tool, with the arguments that it gives, or none.
/// In an envelope it is the same. A value without a name in text is no call.
pub proof fn value_with_a_name_is_a_call(
    members: Map<Seq<char>, JsonView>,
    name: Seq<char>,
    arguments: JsonView,
)
    requires
        !members.dom().contains("tool_call"@),
    ensures
        ({
            let named = JsonView::Object(members.insert("name"@, JsonView::Text(name)));
            let given = JsonView::Object(
                members.insert("name"@, JsonView::Text(name)).insert("arguments"@, arguments),
            );
            let wrapped = JsonView::Object(Map::empty().insert("tool_call"@, given));
            &&& held_call(given) == Some(CallView { name, arguments })
            &&& held_call(wrapped) == held_call(given)
            &&& !members.dom().contains("arguments"@) ==> held_call(named) == Some(
                CallView { name, arguments: JsonView::Object(Map::empty()) },
            )
            &&& !members.dom().contains("name"@) ==> held_call(JsonView::Object(members)) is None
        }),
{
    reveal_strlit("name");
    reveal_strlit("arguments");
    reveal_strlit("tool_call");
    assert("name"@.len() == 4);
    assert("arguments"@.len() == 9 && "tool_call"@.len() == 9 && "arguments"@[0]
        != "tool_call"@[0]);
}

/// The calls between tags are read in their order: what stands between the first opening tag
/// and the next closing one comes first, where it is a call, and then what is read behind it.
/// Text without a tag, or with one that is never closed, holds no call.
pub proof fn tagged_calls_are_read_in_order(content: Seq<char>, start: int, end: int)
    requires
        occurs_at(content, "<tool_call>"@, start),
        forall|i: int| 0 <= i < start ==> !occurs_at(content, "<tool_call>"@, i),
        start + 11 <= end,
        occurs_at(content, "</tool_call>"@, end),
        forall|i: int| start + 11 <= i < end ==> !occurs_at(content, "</tool_call>"@, i),
    ensures
        ({
            let first = written_call(trimmed(content.subrange(start + 11, end)));
            let rest = calls_in(ToolFormat::XmlJson, content.skip(end + 12));
            calls_in(ToolFormat::XmlJson, content) == match first {
                Some(call) => seq![call] + rest,
                None => rest,
            }
        }),
{
    reveal_strlit("<tool_call>");
    reveal_strlit("</tool_call>");
    lemma_first_from(content, CALL_OPEN@, 0);
    let found = first_from(content, CALL_OPEN@, 0).unwrap();
    assert(found == start);
    let inner = content.skip(start + 11);
    assert forall|i: int| 0 <= i <= inner.len() - 12 implies occurs_at(inner, CALL_CLOSE@, i)
        == occurs_at(content, CALL_CLOSE@, start + 11 + i) by {
        assert(inner.subrange(i, i + 12) =~= content.subrange(start + 11 + i, start + 23 + i));
    }
    lemma_first_from(inner, CALL_CLOSE@, 0);
    assert(occurs_at(inner, CALL_CLOSE@, end - start - 11));
    let close = first_from(inner, CALL_CLOSE@, 0).unwrap();
    assert(close == end - start - 11) by {
        if close < end - start - 11 {
            assert(occurs_at(content, CALL_CLOSE@, start + 11 + close));
        }
    }
    assert(inner.take(close) =~= content.subrange(start + 11, end));
    assert(inner.skip(close + 12) =~= content.skip(end + 12));
    let rest = tagged_calls(content.skip(end + 12));
    assert(Seq::<CallView>::empty() + rest =~= rest);
}

/// Text without an opening tag holds no call.
pub proof fn untagged_text_holds_no_call(content: Seq<char>)
    requires
        forall|i: int| !occurs_at(content, "<tool_call>"@, i),
    ensures
        calls_in(ToolFormat::XmlJson, content).len() == 0,
{
    lemma_first_from(content, CALL_OPEN@, 0);
}

/// An answer that is JSON as a whole, but for white space around it, holds the call that the
/// JSON describes. Where it is not, the call may stand from its first brace to its last.
pub proof fn enveloped_call_is_read(content: Seq<char>, call: CallView, start: int, end: int)
    requires
        0 <= start <= end < content.len(),
        content[start] == '{',
        content[end] == '}',
        forall|i: int| 0 <= i < start ==> #[trigger] content[i] != '{',
        forall|i: int| end < i < content.len() ==> #[trigger] content[i] != '}',
    ensures
        written_call(trimmed(content)) is Some ==> calls_in(ToolFormat::JsonEnvelope, content)
            == seq![written_call(trimmed(content))->0],
        written_call(trimmed(content)) is None && written_call(content.subrange(start, end + 1))
            == Some(call) ==> calls_in(ToolFormat::JsonEnvelope, content) == seq![call],
        written_call(trimmed(content)) is None && written_call(content.subrange(start, end + 1))
            is None ==> calls_in(ToolFormat::JsonEnvelope, content).len() == 0,
{
    let open = seq!['{'];
    let close = seq!['}'];
    lemma_first_from(content, open, 0);
    lemma_last_upto(content, close, content.len() - 1);
    assert(content.subrange(start, start + 1) =~= open);
    assert(occurs_at(content, open, start));
    assert(content.subrange(end, end + 1) =~= close);
    assert(occurs_at(content, close, end));
    let first = first_from(content, open, 0).unwrap();
    if first < start {
        assert(content.subrange(first, first + 1)[0] == '{');
        assert(content[first] == '{');
    }
    let last = last_position(content, close).unwrap();
    if last > end {
        assert(content.subrange(last, last + 1)[0] == '}');
        assert(content[last] == '}');
    }
    assert(first == start);
    assert(last == end);
}

/// What is shown of the calls in an answer names every call, under its place among all of them,
/// with its arguments: one that names a known tool among the calls that were read, any other
/// among those that are ignored. One call more adds its lines at the end of its part.
pub proof fn every_call_is_listed_in_its_part(
    calls: Seq<CallView>,
    call: CallView,
    names: Seq<Seq<char>>,
)
    ensures
        ({
            let lines = seq![
                decimal(calls.len() + 1) + ". "@ + call.name,
                json_pretty(call.arguments),
            ];
            let known = listed_calls(calls, names, true);
            let others = listed_calls(calls, names, false);
            &&& names.contains(call.name) ==> listed_calls(calls.push(call), names, true) == known
                + lines && listed_calls(calls.push(call), names, false) == others
            &&& !names.contains(call.name) ==> listed_calls(calls.push(call), names, false)
                == others + lines && listed_calls(calls.push(call), names, true) == known
        }),
{
    assert(calls.push(call).drop_last() =~= calls);
}

/// The calls of known tools come first, under their heading, and then the others under theirs. A
/// part without calls has no heading.
pub proof fn known_calls_come_before_the_ignored(calls: Seq<CallView>, names: Seq<Seq<char>>)
    ensures
        ({
            let known = listed_calls(calls, names, true);
            let others = listed_calls(calls, names, false);
            let shown = callouts_for(calls, names);
            &&& calls.len() == 0 ==> shown.len() == 0
            &&& known.len() > 0 && others.len() > 0 ==> shown == seq!["parsed tool calls:"@] + known
                + seq!["ignored unsupported tool calls:"@] + others
            &&& known.len() > 0 && others.len() == 0 ==> shown == seq!["parsed tool calls:"@]
                + known
            &&& known.len() == 0 && others.len() > 0 ==> shown == seq![
                "ignored unsupported tool calls:"@,
            ] + others
        }),
{
    let known = listed_calls(calls, names, true);
    let others = listed_calls(calls, names, false);
    let shown = callouts_for(calls, names);
    if known.len() > 0 && others.len() > 0 {
        assert(shown =~= seq!["parsed tool calls:"@] + known + seq![
            "ignored unsupported tool calls:"@,
        ] + others);
    } else if known.len() > 0 {
        assert(shown =~= seq!["parsed tool calls:"@] + known);
    } else if others.len() > 0 {
        assert(shown =~= seq!["ignored unsupported tool calls:"@] + others);
    }
}

} // verus!
