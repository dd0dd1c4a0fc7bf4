//! What the program is started with.

use vstd::prelude::*;
use vstd::string::*;

use crate::agent::{
    parameter_views, tool_views, ParameterView, ToolParameter, ToolParameterKind, ToolSpec,
    ToolView,
};
use crate::text::{
    ascii_lower, has_prefix, joined, lower_text, same_text, strip_prefix, texts, trim, trimmed,
    trimmed_end, trimmed_start,
};

verus! {

/// The model and the tool setting that the first tab starts with.
#[derive(Debug, PartialEq, Eq)]
pub struct StartupOptions {
    pub model: String,
    pub tools_enabled: bool,
}

/// What the arguments of the program ask for.
#[derive(Debug, PartialEq, Eq)]
pub enum StartupRequest {
    Run(StartupOptions),
    ShowUsage,
}

/// What the arguments ask for, by its contents.
pub enum StartupView {
    Run { model: Seq<char>, tools_enabled: bool },
    ShowUsage,
}

impl View for StartupRequest {
    type V = StartupView;

    open spec fn view(&self) -> StartupView {
        match *self {
            StartupRequest::Run(options) => StartupView::Run {
                model: options.model@,
                tools_enabled: options.tools_enabled,
            },
            StartupRequest::ShowUsage => StartupView::ShowUsage,
        }
    }
}

/// The tool setting that a text names, in any case and with white space around
/// it.
pub open spec fn tools_flag(value: Seq<char>) -> Result<bool, Seq<char>> {
    let word = lower_text(trimmed(value));
    if word == "enable"@ {
        Ok(true)
    } else if word == "disable"@ {
        Ok(false)
    } else {
        Err("tools must be enable or disable"@)
    }
}

/// What the arguments ask for, after those before them asked for `model` and
/// `tools_enabled`.
pub open spec fn startup_of(args: Seq<Seq<char>>, model: Seq<char>, tools_enabled: bool) -> Result<
    StartupView,
    Seq<char>,
>
    decreases args.len(),
{
    if args.len() == 0 {
        if model.len() == 0 {
            Err("startup model cannot be empty"@)
        } else {
            Ok(StartupView::Run { model, tools_enabled })
        }
    } else if args[0] == "--model"@ || args[0] == "-m"@ {
        if args.len() == 1 {
            Err("missing value for --model"@)
        } else {
            startup_of(args.skip(2), args[1], tools_enabled)
        }
    } else if has_prefix(args[0], "--model="@) {
        startup_of(args.skip(1), args[0].skip("--model="@.len() as int), tools_enabled)
    } else if args[0] == "--tools"@ {
        if args.len() == 1 {
            Err("missing value for --tools"@)
        } else {
            match tools_flag(args[1]) {
                Ok(enabled) => startup_of(args.skip(2), model, enabled),
                Err(message) => Err(message),
            }
        }
    } else if has_prefix(args[0], "--tools="@) {
        match tools_flag(args[0].skip("--tools="@.len() as int)) {
            Ok(enabled) => startup_of(args.skip(1), model, enabled),
            Err(message) => Err(message),
        }
    } else if args[0] == "--help"@ || args[0] == "-h"@ {
        Ok(StartupView::ShowUsage)
    } else {
        Err("unrecognized argument: "@ + args[0])
    }
}

/// The contents of what reading the arguments gave.
pub open spec fn startup_view(parsed: Result<StartupRequest, String>) -> Result<
    StartupView,
    Seq<char>,
> {
    match parsed {
        Ok(request) => Ok(request@),
        Err(message) => Err(message@),
    }
}

/// Reads the tool setting.
pub fn parse_tools_flag(value: &str) -> (parsed: Result<bool, String>)
    ensures
        (match parsed {
            Ok(enabled) => Ok::<bool, Seq<char>>(enabled),
            Err(message) => Err(message@),
        }) == tools_flag(value@),
{
    let word = ascii_lower(trim(value));
    if same_text(word.as_str(), "enable") {
        Ok(true)
    } else if same_text(word.as_str(), "disable") {
        Ok(false)
    } else {
        Err("tools must be enable or disable".to_string())
    }
}

/// Reads the arguments of the program.
pub fn parse_startup_args(args: &Vec<String>) -> (parsed: Result<StartupRequest, String>)
    ensures
        startup_view(parsed) == startup_of(texts(args@), "smollm2-360m"@, true),
{
    let ghost all = texts(args@);
    let mut model = "smollm2-360m".to_string();
    let mut tools_enabled = true;
    let len: usize = args.len();
    let mut at: usize = 0;
    assert(all.skip(0) =~= all);
    while at < len
        invariant
            at <= len == args@.len(),
            all == texts(args@),
            startup_of(all, "smollm2-360m"@, true) == startup_of(
                all.skip(at as int),
                model@,
                tools_enabled,
            ),
        decreases len - at,
    {
        let ghost rest = all.skip(at as int);
        let arg = args[at].as_str();
        assert(rest[0] == arg@);
        if same_text(arg, "--model") || same_text(arg, "-m") {
            if at + 1 == len {
                return Err("missing value for --model".to_string());
            }
            model = args[at + 1].clone();
            assert(rest[1] == model@);
            assert(rest.skip(2) =~= all.skip(at + 2));
            at = at + 2;
        } else if let Some(value) = strip_prefix(arg, "--model=") {
            model = value.to_string();
            assert(rest.skip(1) =~= all.skip(at + 1));
            at = at + 1;
        } else if same_text(arg, "--tools") {
            if at + 1 == len {
                return Err("missing value for --tools".to_string());
            }
            assert(rest[1] == args@[at + 1]@);
            match parse_tools_flag(args[at + 1].as_str()) {
                Ok(enabled) => tools_enabled = enabled,
                Err(message) => return Err(message),
            }
            assert(rest.skip(2) =~= all.skip(at + 2));
            at = at + 2;
        } else if let Some(value) = strip_prefix(arg, "--tools=") {
            match parse_tools_flag(value) {
                Ok(enabled) => tools_enabled = enabled,
                Err(message) => return Err(message),
            }
            assert(rest.skip(1) =~= all.skip(at + 1));
            at = at + 1;
        } else if same_text(arg, "--help") || same_text(arg, "-h") {
            return Ok(StartupRequest::ShowUsage);
        } else {
            return Err(joined("unrecognized argument: ", arg));
        }
    }
    if model.as_str().is_empty() {
        return Err("startup model cannot be empty".to_string());
    }
    Ok(StartupRequest::Run(StartupOptions { model, tools_enabled }))
}

/// The tools that every model is told of, by their contents.
pub open spec fn default_tool_views() -> Seq<ToolView> {
    seq![
        ToolView {
            name: "search_docs"@,
            description: "Search local project documentation when the user asks about this project or its files."@,
            parameters: seq![
                ParameterView {
                    name: "query"@,
                    description: "The search query."@,
                    kind: ToolParameterKind::String,
                    required: true,
                },
                ParameterView {
                    name: "limit"@,
                    description: "Maximum number of results to return."@,
                    kind: ToolParameterKind::Integer,
                    required: false,
                },
            ],
        },
        ToolView {
            name: "list_files"@,
            description: "Lists files in the target directory."@,
            parameters: seq![
                ParameterView {
                    name: "path"@,
                    description: "The project-relative directory to list files or directories for."@,
                    kind: ToolParameterKind::String,
                    required: false,
                },
            ],
        },
        ToolView {
            name: "read_file"@,
            description: "Read a local project file by relative path."@,
            parameters: seq![
                ParameterView {
                    name: "path"@,
                    description: "The project-relative file path to read."@,
                    kind: ToolParameterKind::String,
                    required: true,
                },
            ],
        },
    ]
}

/// The tools that every model is told of.
pub fn default_tools() -> (tools: Vec<ToolSpec>)
    ensures
        tool_views(tools@) == default_tool_views(),
{
    let search_parameters = vec![
        ToolParameter::required("query", "The search query.", ToolParameterKind::String),
        ToolParameter::optional(
            "limit",
            "Maximum number of results to return.",
            ToolParameterKind::Integer,
        ),
    ];
    let list_parameters = vec![
        ToolParameter::optional(
            "path",
            "The project-relative directory to list files or directories for.",
            ToolParameterKind::String,
        ),
    ];
    let read_parameters = vec![
        ToolParameter::required(
            "path",
            "The project-relative file path to read.",
            ToolParameterKind::String,
        ),
    ];
    let ghost expected = default_tool_views();
    assert(parameter_views(search_parameters@) =~= expected[0].parameters);
    assert(parameter_views(list_parameters@) =~= expected[1].parameters);
    assert(parameter_views(read_parameters@) =~= expected[2].parameters);
    let tools = vec![
        ToolSpec::new(
            "search_docs",
            "Search local project documentation when the user asks about this project or its files.",
            search_parameters,
        ),
        ToolSpec::new("list_files", "Lists files in the target directory.", list_parameters),
        ToolSpec::new("read_file", "Read a local project file by relative path.", read_parameters),
    ];
    assert(tool_views(tools@) =~= expected);
    tools
}

/// A model can be asked for in three ways, which all come to the same, and the last one asked
/// for counts. With the tools it is the same, in two ways.
pub proof fn last_option_counts(
    first: Seq<char>,
    second: Seq<char>,
    rest: Seq<Seq<char>>,
    model: Seq<char>,
    tools_enabled: bool,
)
    ensures
        ({
            let alone = startup_of(seq!["--model"@, second] + rest, model, tools_enabled);
            &&& startup_of(seq!["-m"@, second] + rest, model, tools_enabled) == alone
            &&& startup_of(seq!["--model="@ + second] + rest, model, tools_enabled) == alone
            &&& startup_of(
                seq!["--model"@, first, "--model"@, second] + rest,
                model,
                tools_enabled,
            ) == alone
            &&& startup_of(seq!["--tools="@ + second] + rest, model, tools_enabled) == startup_of(
                seq!["--tools"@, second] + rest,
                model,
                tools_enabled,
            )
        }),
{
    reveal_strlit("--model");
    reveal_strlit("-m");
    reveal_strlit("--model=");
    reveal_strlit("--tools");
    reveal_strlit("--tools=");
    let long = seq!["--model"@, second] + rest;
    let short = seq!["-m"@, second] + rest;
    let joined = seq!["--model="@ + second] + rest;
    let twice = seq!["--model"@, first, "--model"@, second] + rest;
    assert(long.skip(2) =~= rest);
    assert(short.skip(2) =~= rest);
    assert(joined.skip(1) =~= rest);
    assert(twice.skip(2) =~= long);
    let text = "--model="@ + second;
    assert(text.len() >= 8);
    assert(text != "--model"@);
    assert(text != "-m"@);
    assert(text.subrange(0, 8) =~= "--model="@);
    assert(text.skip(8) =~= second);
    let tools = seq!["--tools"@, second] + rest;
    let tools_joined = seq!["--tools="@ + second] + rest;
    assert(tools.skip(2) =~= rest);
    assert(tools_joined.skip(1) =~= rest);
    let setting = "--tools="@ + second;
    assert(setting.subrange(0, 8) =~= "--tools="@);
    assert(setting.skip(8) =~= second);
    assert(setting.len() >= 8);
    assert(setting[2] == 't');
    assert("--model="@[2] == 'm');
    assert("--model"@[2] == 'm');
    assert("--tools"@[2] == 't');
    assert(setting != "--model"@);
    assert(setting != "-m"@);
    assert(setting != "--tools"@);
    assert("--tools"@ != "--model"@);
    assert("--tools"@ != "-m"@);
    assert(setting.subrange(0, 8)[2] == 't');
    assert("--tools"@.len() == 7);
    assert(has_prefix(text, "--model="@));
    assert(has_prefix(setting, "--tools="@));
    assert(!has_prefix(setting, "--model="@));
    assert(!has_prefix("--tools"@, "--model="@));
    assert(long[0] == "--model"@ && long[1] == second);
    assert(short[0] == "-m"@ && short[1] == second);
    assert(joined[0] == text);
    assert(twice[0] == "--model"@ && twice[1] == first);
    assert(tools[0] == "--tools"@ && tools[1] == second);
    assert(tools_joined[0] == setting);
    assert(startup_of(long, model, tools_enabled) == startup_of(rest, second, tools_enabled));
    assert(startup_of(short, model, tools_enabled) == startup_of(rest, second, tools_enabled));
    assert(startup_of(joined, model, tools_enabled) == startup_of(rest, second, tools_enabled));
    assert(startup_of(twice, model, tools_enabled) == startup_of(long, first, tools_enabled));
    assert(startup_of(long, first, tools_enabled) == startup_of(rest, second, tools_enabled));
}

/// Without arguments the program runs as it is set; one that is asked for runs with that
/// model; none runs without a model.
pub proof fn program_runs_as_asked(model: Seq<char>, asked: Seq<char>, tools_enabled: bool)
    requires
        asked.len() > 0,
        model.len() > 0,
    ensures
        startup_of(Seq::empty(), model, tools_enabled) == Ok::<StartupView, Seq<char>>(
            StartupView::Run { model, tools_enabled },
        ),
        startup_of(seq!["--model"@, asked], model, tools_enabled) == Ok::<StartupView, Seq<char>>(
            StartupView::Run { model: asked, tools_enabled },
        ),
        startup_of(seq!["--tools"@, "disable"@], model, tools_enabled) == Ok::<
            StartupView,
            Seq<char>,
        >(StartupView::Run { model, tools_enabled: false }),
        startup_of(seq!["--tools"@, "enable"@], model, tools_enabled) == Ok::<
            StartupView,
            Seq<char>,
        >(StartupView::Run { model, tools_enabled: true }),
        startup_of(seq!["--model"@, Seq::empty()], model, tools_enabled) is Err,
        startup_of(seq!["--model"@], model, tools_enabled) is Err,
{
    reveal_strlit("--model");
    reveal_strlit("-m");
    reveal_strlit("--tools");
    reveal_strlit("--model=");
    reveal_strlit("enable");
    reveal_strlit("disable");
    reveal_with_fuel(startup_of, 3);
    assert(seq!["--model"@, asked].skip(2) =~= Seq::<Seq<char>>::empty());
    assert(seq!["--model"@, Seq::<char>::empty()].skip(2) =~= Seq::<Seq<char>>::empty());
    assert(seq!["--tools"@, "disable"@].skip(2) =~= Seq::<Seq<char>>::empty());
    assert(seq!["--tools"@, "enable"@].skip(2) =~= Seq::<Seq<char>>::empty());
    assert("--tools"@[2] == 't');
    assert("--model"@[2] == 'm');
    assert("--tools"@.len() == 7);
    assert(trimmed_start("enable"@) == "enable"@);
    assert(trimmed_end("enable"@) == "enable"@);
    assert(trimmed_start("disable"@) == "disable"@);
    assert(trimmed_end("disable"@) == "disable"@);
    assert(lower_text("enable"@) =~= "enable"@);
    assert(lower_text("disable"@) =~= "disable"@);
    assert("enable"@.len() != "disable"@.len());
}

/// The tools have names of their own, and every one says what it is for, as does everything that can
/// be given to it. What is looked for and which file is read have to be said; how many results, and
/// which directory, need not.
pub proof fn tools_say_what_they_need(i: int, j: int, k: int)
    requires
        0 <= i < j < default_tool_views().len(),
        0 <= k < default_tool_views()[i].parameters.len(),
    ensures
        default_tool_views()[i].name != default_tool_views()[j].name,
        default_tool_views()[i].description.len() > 0,
        default_tool_views()[j].description.len() > 0,
        default_tool_views()[i].parameters[k].description.len() > 0,
        ({
            let tool = default_tool_views()[i];
            let parameter = tool.parameters[k];
            &&& parameter.name == "limit"@ <==> parameter.kind is Integer
            &&& parameter.name != "limit"@ <==> parameter.kind is String
            &&& parameter.required <==> parameter.name == "query"@ || tool.name == "read_file"@
        }),
        default_tool_views()[2].name == "read_file"@,
        default_tool_views()[2].parameters.len() == 1,
        default_tool_views()[2].parameters[0].name == "path"@,
        default_tool_views()[2].parameters[0].kind is String,
        default_tool_views()[2].parameters[0].required,
{
    reveal_strlit("search_docs");
    reveal_strlit("list_files");
    reveal_strlit("read_file");
    reveal_strlit("query");
    reveal_strlit("limit");
    reveal_strlit("path");
    reveal_strlit(
        "Search local project documentation when the user asks about this project or its files.",
    );
    reveal_strlit("Lists files in the target directory.");
    reveal_strlit("Read a local project file by relative path.");
    reveal_strlit("The search query.");
    reveal_strlit("Maximum number of results to return.");
    reveal_strlit("The project-relative directory to list files or directories for.");
    assert("search_docs"@[0] != "list_files"@[0]);
    assert("search_docs"@[0] != "read_file"@[0]);
    assert("list_files"@[0] != "read_file"@[0]);
    assert("query"@[0] != "limit"@[0]);
    assert("path"@[0] != "limit"@[0]);
    assert("path"@[0] != "query"@[0]);
}

} // verus!
