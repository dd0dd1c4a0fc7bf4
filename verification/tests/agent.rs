use kablam::agent::{
    parse_json_envelope_tool_call, parsed_tool_callouts, render_tools_json, tool_call_in_value, ToolFormat, ToolParameter,
    ToolParameterKind, ToolSpec,
};
use serde_json::Value;

fn read(text: &str) -> Value {
    serde_json::from_str(text).unwrap()
}

fn weather() -> ToolSpec {
    ToolSpec::new(
        "weather",
        "Tells the weather.",
        vec![
            ToolParameter::required("city", "Where.", ToolParameterKind::String),
            ToolParameter::optional("days", "How long.", ToolParameterKind::Integer),
            ToolParameter::optional("wind", "With wind.", ToolParameterKind::Boolean),
        ],
    )
}

#[test]
fn smollm_xml_tool_calls_parse_json_payloads() {
    let calls = ToolFormat::XmlJson.parse(
        r#"<tool_call>{"name":"search_docs","arguments":{"query":"cache","limit":3}}</tool_call>"#,
    );

    assert_eq!(calls.len(), 1);
    assert_eq!(calls[0].name, "search_docs");
    assert_eq!(calls[0].arguments["query"], "cache");
    assert_eq!(calls[0].arguments["limit"], 3);
}

#[test]
fn qwen_json_envelope_tool_calls_parse() {
    let calls = ToolFormat::JsonEnvelope
        .parse(r#"{"tool_call":{"name":"search_docs","arguments":{"query":"qwen tools"}}}"#);

    assert_eq!(calls.len(), 1);
    assert_eq!(calls[0].name, "search_docs");
    assert_eq!(calls[0].arguments["query"], "qwen tools");
}

#[test]
fn tagged_calls_are_read_in_order_and_others_passed_over() {
    let calls = ToolFormat::XmlJson.parse(
        "a<tool_call> {\"name\":\"one\"} </tool_call>b<tool_call>none</tool_call>\
         <tool_call>{\"tool_call\":{\"name\":\"two\"}}</tool_call><tool_call>{\"name\":\"three\"}",
    );
    let names: Vec<&str> = calls.iter().map(|call| call.name.as_str()).collect();
    assert_eq!(names, vec!["one", "two"]);
    assert_eq!(calls[0].arguments, read("{}"));
}

#[test]
fn enveloped_call_is_found_within_prose() {
    let calls = ToolFormat::JsonEnvelope.parse("I call {\"name\":\"one\",\"arguments\":{}} now");
    assert_eq!(calls.len(), 1);
    assert_eq!(calls[0].name, "one");
    assert!(ToolFormat::JsonEnvelope.parse("nothing } here {").is_empty());
    assert!(ToolFormat::JsonEnvelope.parse("} {").is_empty());
    assert!(ToolFormat::JsonEnvelope.parse("}{").is_empty());
    assert!(parse_json_envelope_tool_call("}{").is_none());
    assert!(parse_json_envelope_tool_call("only } closed").is_none());
    assert!(ToolFormat::JsonEnvelope.parse("no braces").is_empty());
    assert!(ToolFormat::JsonEnvelope.parse("{\"name\":3}").is_empty());
}

#[test]
fn calls_are_read_from_values() {
    assert!(tool_call_in_value(&read("[]")).is_none());
    assert!(tool_call_in_value(&read("{\"arguments\":{}}")).is_none());
    let call = tool_call_in_value(&read("{\"name\":\"one\",\"arguments\":[1,2]}")).unwrap();
    assert_eq!(call.name, "one");
    assert_eq!(call.arguments, read("[1,2]"));
    assert_eq!(call.clone(), call);
}

#[test]
fn schemas_name_kinds_and_required_parameters() {
    let schema = weather().schema();
    assert_eq!(
        schema,
        read(
            r#"{"name":"weather","description":"Tells the weather.","parameters":{"type":"object",
            "properties":{"city":{"type":"string","description":"Where."},
            "days":{"type":"integer","description":"How long."},
            "wind":{"type":"boolean","description":"With wind."}},"required":["city"]}}"#
        )
    );
    assert_eq!(
        render_tools_json(&[weather()]),
        serde_json::to_string_pretty(&vec![schema]).unwrap()
    );
}

#[test]
fn system_prompt_is_bare_without_tools() {
    assert_eq!(ToolFormat::XmlJson.system_prompt("base", &[]), "base");
    let prompt = ToolFormat::XmlJson.system_prompt("base", &[weather()]);
    let start = "base\n\nUse tools only when the user explicitly asks for project-local search, \
                 file reading, or the fake weather tool, or when the request cannot be answered \
                 from the conversation alone.\nDo not use tools for greetings, identity questions, \
                 casual conversation, or other general knowledge questions.\nOnly use one of the \
                 listed tool names. Never invent a new tool name.\nAvailable tools:\n[\n  {";
    assert!(prompt.starts_with(start));
    assert!(prompt.ends_with(
        "\n]\n\nFor SmolLM3 tool calls, output only this exact XML tag with a JSON object \
         inside:\n<tool_call>{\"name\":\"tool_name\",\"arguments\":{}}</tool_call>\nDo not add \
         prose around a tool call."
    ));
    let other = ToolFormat::JsonEnvelope.system_prompt("base", &[weather()]);
    assert!(other.starts_with(start));
    assert!(other.ends_with(
        "\n]\n\nFor Qwen tool calls, output only this JSON object and no prose:\n\
         {\"tool_call\":{\"name\":\"tool_name\",\"arguments\":{}}}"
    ));
}

#[test]
fn callouts_list_known_tools_before_others() {
    let calls = ToolFormat::XmlJson.parse(
        "<tool_call>{\"name\":\"other\"}</tool_call>\
         <tool_call>{\"name\":\"weather\",\"arguments\":{\"city\":\"Ulm\"}}</tool_call>",
    );
    assert_eq!(
        parsed_tool_callouts(&calls, &[weather()]),
        vec![
            "parsed tool calls:",
            "2. weather",
            "{\n  \"city\": \"Ulm\"\n}",
            "ignored unsupported tool calls:",
            "1. other",
            "{}",
        ]
    );
    assert!(parsed_tool_callouts(&Vec::new(), &[weather()]).is_empty());
}
