use kablam::agent::ToolParameterKind;
use kablam::startup::{
    default_tools, parse_startup_args, parse_tools_flag, StartupOptions, StartupRequest,
};

fn args(list: &[&str]) -> Vec<String> {
    list.iter().map(|arg| arg.to_string()).collect()
}

fn options(model: &str, tools_enabled: bool) -> Result<StartupRequest, String> {
    Ok(StartupRequest::Run(StartupOptions {
        model: model.to_string(),
        tools_enabled,
    }))
}

#[test]
fn parse_startup_args_accepts_tools_enable_and_disable() {
    let startup = parse_startup_args(&vec![
        String::from("--tools"),
        String::from("disable"),
        String::from("--model"),
        String::from("qwen3.5-q2k"),
    ])
    .expect("startup args should parse");

    assert_eq!(
        startup,
        StartupRequest::Run(StartupOptions {
            model: String::from("qwen3.5-q2k"),
            tools_enabled: false,
        })
    );
}

#[test]
fn startup_has_defaults_and_short_forms() {
    assert_eq!(parse_startup_args(&args(&[])), options("smollm2-360m", true));
    assert_eq!(
        parse_startup_args(&args(&["-m", "smollm3", "--tools=ENABLE"])),
        options("smollm3", true)
    );
    assert_eq!(
        parse_startup_args(&args(&["--model=a", "--model", "b"])),
        options("b", true)
    );
    assert_eq!(
        parse_startup_args(&args(&["-h", "--nonsense"])),
        Ok(StartupRequest::ShowUsage)
    );
}

#[test]
fn startup_errors_say_what_is_wrong() {
    assert_eq!(
        parse_startup_args(&args(&["--model"])),
        Err(String::from("missing value for --model"))
    );
    assert_eq!(
        parse_startup_args(&args(&["--tools"])),
        Err(String::from("missing value for --tools"))
    );
    assert_eq!(
        parse_startup_args(&args(&["--tools=maybe"])),
        Err(String::from("tools must be enable or disable"))
    );
    assert_eq!(
        parse_startup_args(&args(&["--model="])),
        Err(String::from("startup model cannot be empty"))
    );
    assert_eq!(
        parse_startup_args(&args(&["extra"])),
        Err(String::from("unrecognized argument: extra"))
    );
    assert_eq!(parse_tools_flag(" Disable "), Ok(false));
}

#[test]
fn default_tools_are_three() {
    let tools = default_tools();
    let names: Vec<_> = tools.iter().map(|tool| tool.name.as_str()).collect();
    assert_eq!(names, vec!["search_docs", "list_files", "read_file"]);
    assert_eq!(tools[0].parameters[1].name, "limit");
    assert_eq!(tools[0].parameters[1].kind, ToolParameterKind::Integer);
    assert!(!tools[0].parameters[1].required);
    assert!(tools[2].parameters[0].required);
}
