//! The command palette: commands, their grammar, completion and the state of
//! the command line.

use vstd::prelude::*;
use vstd::string::*;

use crate::fuzzy::{
    accepted, distance, edit_distance, finds_near, rank_order, rank_order_is_total, search_texts,
    searchable,
};
use crate::order::{lemma_sorted_listing, sort_texts, text_order, text_order_is_total};
use crate::text::{
    ascii_lower, copied_texts, has_prefix, is_white_space, joined, lemma_trimmed_ends, lower_text,
    same_text,
    same_texts, starts_with, str_option, strip_prefix, strip_prefixes, text_option, texts, trim,
    trim_start, trimmed, trimmed_end, trimmed_start, without_prefixes,
};

verus! {

/// A tab, by its number or by its label.
#[derive(Debug, PartialEq, Eq)]
pub enum TabTarget {
    Id(usize),
    Name(String),
}

/// A tab target by its contents.
pub enum TargetView {
    Id(usize),
    Name(Seq<char>),
}

impl View for TabTarget {
    type V = TargetView;

    open spec fn view(&self) -> TargetView {
        match *self {
            TabTarget::Id(id) => TargetView::Id(id),
            TabTarget::Name(name) => TargetView::Name(name@),
        }
    }
}

impl Clone for TabTarget {
    fn clone(&self) -> (copy: Self)
        ensures
            copy@ == self@,
    {
        match self {
            TabTarget::Id(id) => TabTarget::Id(*id),
            TabTarget::Name(name) => TabTarget::Name(name.clone()),
        }
    }
}

/// What a command asks for.
#[derive(Debug, PartialEq, Eq)]
pub enum CommandDispatch {
    Quit,
    OpenModelPrefix,
    SwitchModel(String),
    OpenToolsPrefix,
    SetToolsEnabled(bool),
    OpenTabPrefix,
    OpenCommandAfter,
    OpenCommandBefore,
    ListModels,
    Break,
    ActivateTab(TabTarget),
    NewTab(String),
    RenameTab { target: TabTarget, new_name: String },
    KillTab(TabTarget),
}

/// What a command asks for, by its contents.
pub enum DispatchView {
    Quit,
    OpenModelPrefix,
    SwitchModel(Seq<char>),
    OpenToolsPrefix,
    SetToolsEnabled(bool),
    OpenTabPrefix,
    OpenCommandAfter,
    OpenCommandBefore,
    ListModels,
    Break,
    ActivateTab(TargetView),
    NewTab(Seq<char>),
    RenameTab { target: TargetView, new_name: Seq<char> },
    KillTab(TargetView),
}

impl View for CommandDispatch {
    type V = DispatchView;

    open spec fn view(&self) -> DispatchView {
        match *self {
            CommandDispatch::Quit => DispatchView::Quit,
            CommandDispatch::OpenModelPrefix => DispatchView::OpenModelPrefix,
            CommandDispatch::SwitchModel(model_id) => DispatchView::SwitchModel(model_id@),
            CommandDispatch::OpenToolsPrefix => DispatchView::OpenToolsPrefix,
            CommandDispatch::SetToolsEnabled(enabled) => DispatchView::SetToolsEnabled(enabled),
            CommandDispatch::OpenTabPrefix => DispatchView::OpenTabPrefix,
            CommandDispatch::OpenCommandAfter => DispatchView::OpenCommandAfter,
            CommandDispatch::OpenCommandBefore => DispatchView::OpenCommandBefore,
            CommandDispatch::ListModels => DispatchView::ListModels,
            CommandDispatch::Break => DispatchView::Break,
            CommandDispatch::ActivateTab(target) => DispatchView::ActivateTab(target@),
            CommandDispatch::NewTab(model_id) => DispatchView::NewTab(model_id@),
            CommandDispatch::RenameTab { target, new_name } => DispatchView::RenameTab {
                target: target@,
                new_name: new_name@,
            },
            CommandDispatch::KillTab(target) => DispatchView::KillTab(target@),
        }
    }
}

impl Clone for CommandDispatch {
    fn clone(&self) -> (copy: Self)
        ensures
            copy@ == self@,
    {
        match self {
            CommandDispatch::Quit => CommandDispatch::Quit,
            CommandDispatch::OpenModelPrefix => CommandDispatch::OpenModelPrefix,
            CommandDispatch::SwitchModel(model_id) => CommandDispatch::SwitchModel(
                model_id.clone(),
            ),
            CommandDispatch::OpenToolsPrefix => CommandDispatch::OpenToolsPrefix,
            CommandDispatch::SetToolsEnabled(enabled) => CommandDispatch::SetToolsEnabled(*enabled),
            CommandDispatch::OpenTabPrefix => CommandDispatch::OpenTabPrefix,
            CommandDispatch::OpenCommandAfter => CommandDispatch::OpenCommandAfter,
            CommandDispatch::OpenCommandBefore => CommandDispatch::OpenCommandBefore,
            CommandDispatch::ListModels => CommandDispatch::ListModels,
            CommandDispatch::Break => CommandDispatch::Break,
            CommandDispatch::ActivateTab(target) => CommandDispatch::ActivateTab(target.clone()),
            CommandDispatch::NewTab(model_id) => CommandDispatch::NewTab(model_id.clone()),
            CommandDispatch::RenameTab { target, new_name } => CommandDispatch::RenameTab {
                target: target.clone(),
                new_name: new_name.clone(),
            },
            CommandDispatch::KillTab(target) => CommandDispatch::KillTab(target.clone()),
        }
    }
}

/// Why a command line is no command.
#[derive(Debug, PartialEq, Eq)]
pub enum CommandParseError {
    Empty,
    Invalid(String),
    Incomplete(String),
}

/// Why a command line is no command, by its contents.
pub enum ParseErrorView {
    Empty,
    Invalid(Seq<char>),
    Incomplete(Seq<char>),
}

impl View for CommandParseError {
    type V = ParseErrorView;

    open spec fn view(&self) -> ParseErrorView {
        match *self {
            CommandParseError::Empty => ParseErrorView::Empty,
            CommandParseError::Invalid(message) => ParseErrorView::Invalid(message@),
            CommandParseError::Incomplete(message) => ParseErrorView::Incomplete(message@),
        }
    }
}

impl Clone for CommandParseError {
    fn clone(&self) -> (copy: Self)
        ensures
            copy@ == self@,
    {
        match self {
            CommandParseError::Empty => CommandParseError::Empty,
            CommandParseError::Invalid(message) => CommandParseError::Invalid(message.clone()),
            CommandParseError::Incomplete(message) => CommandParseError::Incomplete(
                message.clone(),
            ),
        }
    }
}

/// A completion of the command line, and the command it stands for.
#[derive(Debug, PartialEq, Eq)]
pub struct CommandSuggestion {
    pub display: String,
    pub dispatch: CommandDispatch,
}

/// A completion by its contents.
pub struct SuggestionView {
    pub display: Seq<char>,
    pub dispatch: DispatchView,
}

impl View for CommandSuggestion {
    type V = SuggestionView;

    open spec fn view(&self) -> SuggestionView {
        SuggestionView { display: self.display@, dispatch: self.dispatch@ }
    }
}

impl Clone for CommandSuggestion {
    fn clone(&self) -> (copy: Self)
        ensures
            copy@ == self@,
    {
        CommandSuggestion { display: self.display.clone(), dispatch: self.dispatch.clone() }
    }
}

/// What the palette shows.
#[derive(Debug, Clone, Copy)]
pub struct CommandPaletteView<'a> {
    pub draft: &'a str,
    pub preview_text: Option<&'a str>,
    pub suggestions: &'a [CommandSuggestion],
    pub highlighted: Option<usize>,
    pub error_text: Option<&'a str>,
    pub has_error: bool,
}

/// What the palette shows, by its contents.
#[verifier::ext_equal]
pub struct PaletteShown {
    pub draft: Seq<char>,
    pub preview: Option<Seq<char>>,
    pub suggestions: Seq<SuggestionView>,
    pub highlighted: Option<usize>,
    pub error: Option<Seq<char>>,
    pub has_error: bool,
}

impl View for CommandPaletteView<'_> {
    type V = PaletteShown;

    open spec fn view(&self) -> PaletteShown {
        PaletteShown {
            draft: self.draft@,
            preview: str_option(self.preview_text),
            suggestions: suggestion_views(self.suggestions@),
            highlighted: self.highlighted,
            error: str_option(self.error_text),
            has_error: self.has_error,
        }
    }
}

/// What committing the command line comes to.
#[derive(Debug, PartialEq, Eq)]
pub enum CommandCommit {
    Execute(CommandDispatch),
    StayOpen,
}

/// What committing comes to, by its contents.
pub enum CommitView {
    Execute(DispatchView),
    StayOpen,
}

impl View for CommandCommit {
    type V = CommitView;

    open spec fn view(&self) -> CommitView {
        match *self {
            CommandCommit::Execute(dispatch) => CommitView::Execute(dispatch@),
            CommandCommit::StayOpen => CommitView::StayOpen,
        }
    }
}

impl Clone for CommandCommit {
    fn clone(&self) -> (copy: Self)
        ensures
            copy@ == self@,
    {
        match self {
            CommandCommit::Execute(dispatch) => CommandCommit::Execute(dispatch.clone()),
            CommandCommit::StayOpen => CommandCommit::StayOpen,
        }
    }
}

/// What a command line, without the white space around it, says.
///
/// `q` quits, `model <id>` switches to a model, and `tools enable` and `tools
/// disable`, in any case, switch the tools. A command without its argument is
/// incomplete, and anything else is invalid.
pub open spec fn command_of(line: Seq<char>) -> Result<DispatchView, ParseErrorView> {
    let input = trimmed(line);
    let model_id = trimmed(input.skip("model "@.len() as int));
    let state = lower_text(trimmed(input.skip("tools "@.len() as int)));
    if input.len() == 0 {
        Err(ParseErrorView::Empty)
    } else if input == "q"@ {
        Ok(DispatchView::Quit)
    } else if input == "model"@ {
        Err(ParseErrorView::Incomplete("usage: model <model-id>"@))
    } else if input == "tools"@ {
        Err(ParseErrorView::Incomplete("usage: tools enable|disable"@))
    } else if has_prefix(input, "model "@) {
        if model_id.len() == 0 {
            Err(ParseErrorView::Incomplete("usage: model <model-id>"@))
        } else {
            Ok(DispatchView::SwitchModel(model_id))
        }
    } else if has_prefix(input, "tools "@) {
        if state == "enable"@ {
            Ok(DispatchView::SetToolsEnabled(true))
        } else if state == "disable"@ {
            Ok(DispatchView::SetToolsEnabled(false))
        } else if state == ""@ {
            Err(ParseErrorView::Incomplete("usage: tools enable|disable"@))
        } else {
            Err(ParseErrorView::Invalid("usage: tools enable|disable"@))
        }
    } else {
        Err(ParseErrorView::Invalid("unknown command: "@ + input))
    }
}

/// The contents of what parsing gave.
pub open spec fn parse_view(
    parsed: Result<CommandDispatch, CommandParseError>,
) -> Result<DispatchView, ParseErrorView> {
    match parsed {
        Ok(dispatch) => Ok(dispatch@),
        Err(error) => Err(error@),
    }
}

/// Reads a command line.
pub fn parse_command(input: &str) -> (parsed: Result<CommandDispatch, CommandParseError>)
    ensures
        parse_view(parsed) == command_of(input@),
{
    let input = trim(input);
    if input.is_empty() {
        return Err(CommandParseError::Empty);
    }
    if same_text(input, "q") {
        return Ok(CommandDispatch::Quit);
    }
    if same_text(input, "model") {
        return Err(CommandParseError::Incomplete("usage: model <model-id>".to_string()));
    }
    if same_text(input, "tools") {
        return Err(CommandParseError::Incomplete("usage: tools enable|disable".to_string()));
    }
    if let Some(model_id) = strip_prefix(input, "model ") {
        let model_id = trim(model_id);
        if model_id.is_empty() {
            return Err(CommandParseError::Incomplete("usage: model <model-id>".to_string()));
        }
        return Ok(CommandDispatch::SwitchModel(model_id.to_string()));
    }
    if let Some(value) = strip_prefix(input, "tools ") {
        let value = ascii_lower(trim(value));
        return if same_text(value.as_str(), "enable") {
            Ok(CommandDispatch::SetToolsEnabled(true))
        } else if same_text(value.as_str(), "disable") {
            Ok(CommandDispatch::SetToolsEnabled(false))
        } else if same_text(value.as_str(), "") {
            Err(CommandParseError::Incomplete("usage: tools enable|disable".to_string()))
        } else {
            Err(CommandParseError::Invalid("usage: tools enable|disable".to_string()))
        };
    }
    Err(CommandParseError::Invalid(joined("unknown command: ", input)))
}

/// The contents of a list of suggestions.
pub open spec fn suggestion_views(list: Seq<CommandSuggestion>) -> Seq<SuggestionView> {
    list.map_values(|item: CommandSuggestion| item@)
}

/// The texts that suggestions show.
pub open spec fn displays(list: Seq<SuggestionView>) -> Seq<Seq<char>> {
    list.map_values(|item: SuggestionView| item.display)
}

/// The place of the first suggestion that shows `display`.
pub open spec fn first_showing(list: Seq<SuggestionView>, display: Seq<char>) -> int
    decreases list.len(),
{
    if list.len() == 0 || list[0].display == display {
        0
    } else {
        1 + first_showing(list.drop_first(), display)
    }
}

/// The suggestions that match a query, best match first, each with its distance
/// from the query.
///
/// Of suggestions that show the same text the first one counts. Where the query
/// is too long to search for, all of them stay in their order.
pub open spec fn ranked_suggestions(query: Seq<char>, list: Seq<SuggestionView>) -> Seq<
    (SuggestionView, nat),
> {
    if searchable(query) {
        accepted(query, displays(list)).to_sorted_seq(rank_order(query)).map_values(
            |display: Seq<char>|
                (list[first_showing(list, display)], distance(query, display)),
        )
    } else {
        list.map_values(|item: SuggestionView| (item, distance(query, item.display)))
    }
}

/// What is suggested of `list` for a query that is not empty.
pub open spec fn matching_suggestions(query: Seq<char>, list: Seq<SuggestionView>) -> Seq<
    SuggestionView,
> {
    ranked_suggestions(query, list).map_values(|entry: (SuggestionView, nat)| entry.0)
}

/// The suggestion to switch to a model.
pub open spec fn model_suggestion(model_id: Seq<char>) -> SuggestionView {
    SuggestionView {
        display: "model "@ + model_id,
        dispatch: DispatchView::SwitchModel(model_id),
    }
}

/// The suggestions for the start of a command line.
pub open spec fn root_suggestions_for(query: Seq<char>) -> Seq<SuggestionView> {
    let quit = SuggestionView { display: "q"@, dispatch: DispatchView::Quit };
    let model = SuggestionView { display: "model "@, dispatch: DispatchView::OpenModelPrefix };
    let tools = SuggestionView { display: "tools "@, dispatch: DispatchView::OpenToolsPrefix };
    if query.len() == 0 {
        seq![model, quit, tools]
    } else {
        matching_suggestions(query, seq![quit, model, tools])
    }
}

/// The suggestions for the argument of `model`.
pub open spec fn model_suggestions_for(query: Seq<char>, model_ids: Seq<Seq<char>>) -> Seq<
    SuggestionView,
> {
    let suggest = |model_id: Seq<char>| model_suggestion(model_id);
    if query.len() == 0 {
        model_ids.sort_by(text_order()).map_values(suggest)
    } else {
        matching_suggestions(query, model_ids.map_values(suggest))
    }
}

/// The suggestions for the argument of `tools`.
pub open spec fn tool_suggestions_for(query: Seq<char>) -> Seq<SuggestionView> {
    let enable = SuggestionView {
        display: "tools enable"@,
        dispatch: DispatchView::SetToolsEnabled(true),
    };
    let disable = SuggestionView {
        display: "tools disable"@,
        dispatch: DispatchView::SetToolsEnabled(false),
    };
    if query.len() == 0 {
        seq![disable, enable]
    } else {
        matching_suggestions(query, seq![enable, disable])
    }
}

/// The suggestions for a command line.
pub open spec fn suggestions_for(draft: Seq<char>, model_ids: Seq<Seq<char>>) -> Seq<
    SuggestionView,
> {
    let line = trimmed_start(draft);
    if has_prefix(line, "model "@) {
        model_suggestions_for(trimmed_start(without_prefixes(line, "model "@)), model_ids)
    } else if has_prefix(line, "tools "@) {
        tool_suggestions_for(trimmed_start(without_prefixes(line, "tools "@)))
    } else if line == "model"@ {
        seq![SuggestionView { display: "model "@, dispatch: DispatchView::OpenModelPrefix }]
    } else if line == "tools"@ {
        seq![SuggestionView { display: "tools "@, dispatch: DispatchView::OpenToolsPrefix }]
    } else {
        root_suggestions_for(line)
    }
}

/// A suggestion that shows a fixed text.
fn suggestion(display: &str, dispatch: CommandDispatch) -> (made: CommandSuggestion)
    ensures
        made@ == (SuggestionView { display: display@, dispatch: dispatch@ }),
{
    CommandSuggestion { display: display.to_string(), dispatch }
}

/// Finds the first suggestion that shows `display`.
fn find_showing(list: &Vec<CommandSuggestion>, display: &str) -> (at: usize)
    requires
        displays(suggestion_views(list@)).contains(display@),
    ensures
        at < list@.len(),
        at == first_showing(suggestion_views(list@), display@),
{
    let ghost views = suggestion_views(list@);
    let len: usize = list.len();
    let mut at: usize = 0;
    assert(views.skip(0) =~= views);
    while !same_text(list[at].display.as_str(), display)
        invariant
            at < len == list@.len(),
            views == suggestion_views(list@),
            displays(views).contains(display@),
            forall|k: int| 0 <= k < at ==> #[trigger] views[k].display != display@,
            first_showing(views, display@) == at + first_showing(views.skip(at as int), display@),
        decreases list@.len() - at,
    {
        assert(views[at as int].display != display@);
        assert(views.skip(at as int).drop_first() =~= views.skip(at + 1));
        proof {
            let k = choose|k: int| 0 <= k < views.len() && displays(views)[k] == display@;
            assert(views[k].display == display@);
        }
        at = at + 1;
    }
    assert(views.skip(at as int)[0] == views[at as int]);
    at
}

/// Ranks suggestions by how well they match a query.
pub fn fuzzy_rank(query: &str, suggestions: &Vec<CommandSuggestion>) -> (ranked: Vec<
    (CommandSuggestion, usize),
>)
    ensures
        ranked@.map_values(|entry: (CommandSuggestion, usize)| (entry.0@, entry.1 as nat))
            == ranked_suggestions(query@, suggestion_views(suggestions@)),
        searchable(query@) ==> finds_near(query@, displays(suggestion_views(suggestions@))),
{
    let ghost views = suggestion_views(suggestions@);
    let ghost seen = |entry: (CommandSuggestion, usize)| (entry.0@, entry.1 as nat);
    let mut candidates: Vec<String> = Vec::new();
    let mut i: usize = 0;
    while i < suggestions.len()
        invariant
            i <= suggestions@.len(),
            candidates@.len() == i,
            forall|k: int| 0 <= k < i ==> #[trigger] candidates@[k]@ == suggestions@[k].display@,
        decreases suggestions@.len() - i,
    {
        candidates.push(suggestions[i].display.clone());
        i = i + 1;
    }
    assert(texts(candidates@) =~= displays(views));
    let mut ranked: Vec<(CommandSuggestion, usize)> = Vec::new();
    match search_texts(query, &candidates) {
        Some(found) => {
            let ghost listed = texts(found@);
            let mut at: usize = 0;
            proof {
                rank_order_is_total(query@);
                vstd::seq_lib::seq_to_set_is_finite(displays(views));
                lemma_sorted_listing(
                    accepted(query@, displays(views)),
                    rank_order(query@),
                );
            }
            while at < found.len()
                invariant
                    at <= found@.len(),
                    ranked@.len() == at,
                    listed == texts(found@),
                    views == suggestion_views(suggestions@),
                    listed.to_set() == accepted(query@, displays(views)),
                    seen == |entry: (CommandSuggestion, usize)| (entry.0@, entry.1 as nat),
                    forall|k: int|
                        0 <= k < at ==> seen(#[trigger] ranked@[k]) == (
                            views[first_showing(views, listed[k])],
                            distance(query@, listed[k]),
                        ),
                decreases found@.len() - at,
            {
                proof {
                    assert(listed[at as int] == found@[at as int]@);
                    assert(listed.to_set().contains(found@[at as int]@));
                    assert(displays(views).to_set().contains(found@[at as int]@));
                }
                let place: usize = find_showing(suggestions, found[at].as_str());
                let edits: usize = edit_distance(query, found[at].as_str());
                ranked.push((suggestions[place].clone(), edits));
                at = at + 1;
            }
            assert(ranked@.map_values(seen) =~= ranked_suggestions(query@, views));
        },
        None => {
            let mut at: usize = 0;
            while at < suggestions.len()
                invariant
                    at <= suggestions@.len(),
                    ranked@.len() == at,
                    views == suggestion_views(suggestions@),
                    seen == |entry: (CommandSuggestion, usize)| (entry.0@, entry.1 as nat),
                    forall|k: int|
                        0 <= k < at ==> seen(#[trigger] ranked@[k]) == (
                            views[k],
                            distance(query@, views[k].display),
                        ),
                decreases suggestions@.len() - at,
            {
                let edits: usize = edit_distance(query, suggestions[at].display.as_str());
                ranked.push((suggestions[at].clone(), edits));
                at = at + 1;
            }
            assert(ranked@.map_values(seen) =~= ranked_suggestions(query@, views));
        },
    }
    ranked
}

/// The suggestions that match a query, best match first.
fn matching(query: &str, suggestions: &Vec<CommandSuggestion>) -> (found: Vec<CommandSuggestion>)
    ensures
        suggestion_views(found@) == matching_suggestions(query@, suggestion_views(suggestions@)),
{
    let ranked = fuzzy_rank(query, suggestions);
    let mut found: Vec<CommandSuggestion> = Vec::new();
    let mut i: usize = 0;
    while i < ranked.len()
        invariant
            i <= ranked@.len(),
            found@.len() == i,
            forall|k: int| 0 <= k < i ==> #[trigger] found@[k]@ == ranked@[k].0@,
        decreases ranked@.len() - i,
    {
        found.push(ranked[i].0.clone());
        i = i + 1;
    }
    proof {
        let seen = |entry: (CommandSuggestion, usize)| (entry.0@, entry.1 as nat);
        let all = ranked_suggestions(query@, suggestion_views(suggestions@));
        assert(ranked@.map_values(seen) == all);
        assert forall|k: int| 0 <= k < found@.len() implies #[trigger] suggestion_views(
            found@,
        )[k] == all[k].0 by {
            assert(ranked@.map_values(seen)[k] == seen(ranked@[k]));
        }
        assert(suggestion_views(found@) =~= matching_suggestions(
            query@,
            suggestion_views(suggestions@),
        ));
    }
    found
}

/// The suggestions for the start of a command line.
pub fn root_suggestions(query: &str, _model_ids: &[String]) -> (found: Vec<CommandSuggestion>)
    ensures
        suggestion_views(found@) == root_suggestions_for(query@),
{
    let quit = suggestion("q", CommandDispatch::Quit);
    let model = suggestion("model ", CommandDispatch::OpenModelPrefix);
    let tools = suggestion("tools ", CommandDispatch::OpenToolsPrefix);
    if query.is_empty() {
        let sorted = vec![model, quit, tools];
        assert(suggestion_views(sorted@) =~= root_suggestions_for(query@));
        return sorted;
    }
    let suggestions = vec![quit, model, tools];
    assert(suggestion_views(suggestions@) =~= seq![quit@, model@, tools@]);
    matching(query, &suggestions)
}

/// The suggestions for the argument of `model`.
fn model_id_suggestions(query: &str, model_ids: &Vec<String>) -> (found: Vec<CommandSuggestion>)
    ensures
        suggestion_views(found@) == model_suggestions_for(query@, texts(model_ids@)),
{
    let ordered = if query.is_empty() {
        sort_texts(model_ids)
    } else {
        copied_texts(model_ids)
    };
    let mut suggestions: Vec<CommandSuggestion> = Vec::new();
    let mut i: usize = 0;
    while i < ordered.len()
        invariant
            i <= ordered@.len(),
            suggestions@.len() == i,
            forall|k: int|
                0 <= k < i ==> #[trigger] suggestions@[k]@ == model_suggestion(ordered@[k]@),
        decreases ordered@.len() - i,
    {
        suggestions.push(
            CommandSuggestion {
                display: joined("model ", ordered[i].as_str()),
                dispatch: CommandDispatch::SwitchModel(ordered[i].clone()),
            },
        );
        i = i + 1;
    }
    assert(suggestion_views(suggestions@) =~= texts(ordered@).map_values(
        |model_id: Seq<char>| model_suggestion(model_id),
    ));
    if query.is_empty() {
        suggestions
    } else {
        matching(query, &suggestions)
    }
}

/// The suggestions for the argument of `tools`.
fn tool_state_suggestions(query: &str) -> (found: Vec<CommandSuggestion>)
    ensures
        suggestion_views(found@) == tool_suggestions_for(query@),
{
    let enable = suggestion("tools enable", CommandDispatch::SetToolsEnabled(true));
    let disable = suggestion("tools disable", CommandDispatch::SetToolsEnabled(false));
    if query.is_empty() {
        let sorted = vec![disable, enable];
        assert(suggestion_views(sorted@) =~= tool_suggestions_for(query@));
        return sorted;
    }
    let suggestions = vec![enable, disable];
    assert(suggestion_views(suggestions@) =~= seq![enable@, disable@]);
    matching(query, &suggestions)
}

/// Completes a command line.
pub fn autocomplete_suggestions(draft: &str, model_ids: &Vec<String>) -> (found: Vec<
    CommandSuggestion,
>)
    ensures
        suggestion_views(found@) == suggestions_for(draft@, texts(model_ids@)),
{
    proof {
        reveal_strlit("model ");
        reveal_strlit("tools ");
    }
    let line = trim_start(draft);
    if starts_with(line, "model ") {
        let query = trim_start(strip_prefixes(line, "model "));
        return model_id_suggestions(query, model_ids);
    }
    if starts_with(line, "tools ") {
        let query = trim_start(strip_prefixes(line, "tools "));
        return tool_state_suggestions(query);
    }
    if same_text(line, "model") {
        let found = vec![suggestion("model ", CommandDispatch::OpenModelPrefix)];
        assert(suggestion_views(found@) =~= suggestions_for(draft@, texts(model_ids@)));
        return found;
    }
    if same_text(line, "tools") {
        let found = vec![suggestion("tools ", CommandDispatch::OpenToolsPrefix)];
        assert(suggestion_views(found@) =~= suggestions_for(draft@, texts(model_ids@)));
        return found;
    }
    root_suggestions(line, model_ids.as_slice())
}

/// The state of the command line: what was typed, what is suggested for it,
/// which suggestion is highlighted, and the error shown with it.
#[derive(Debug)]
pub struct CommandPaletteState {
    draft: String,
    highlighted: Option<usize>,
    suggestions: Vec<CommandSuggestion>,
    model_ids: Vec<String>,
    error_text: Option<String>,
}

/// The state of the command line by its contents.
#[verifier::ext_equal]
pub struct PaletteModel {
    pub draft: Seq<char>,
    pub highlighted: Option<usize>,
    pub suggestions: Seq<SuggestionView>,
    pub model_ids: Seq<Seq<char>>,
    pub error: Option<Seq<char>>,
}

impl PaletteModel {
    /// A highlighted place is one of the suggestions.
    pub open spec fn wf(self) -> bool {
        self.highlighted matches Some(at) ==> at < self.suggestions.len()
    }

    /// What is shown of the line: the highlighted suggestion previews it.
    pub open spec fn shown(self) -> PaletteShown {
        PaletteShown {
            draft: self.draft,
            preview: match self.highlighted {
                Some(at) => Some(self.suggestions[at as int].display),
                None => None,
            },
            suggestions: self.suggestions,
            highlighted: self.highlighted,
            error: self.error,
            has_error: self.error is Some,
        }
    }

    /// The line with other models to complete. Where they changed, the
    /// suggestions are made anew, and a highlight that no longer points at one is
    /// gone.
    pub open spec fn completing(self, model_ids: Seq<Seq<char>>) -> PaletteModel {
        let found = suggestions_for(self.draft, model_ids);
        if self.model_ids == model_ids {
            self
        } else {
            PaletteModel {
                highlighted: match self.highlighted {
                    Some(at) if at < found.len() => Some(at),
                    _ => None,
                },
                suggestions: found,
                model_ids,
                ..self
            }
        }
    }

    /// The closed palette: the line is empty and suggests nothing.
    pub open spec fn closed(self) -> PaletteModel {
        PaletteModel {
            draft: Seq::empty(),
            highlighted: None,
            suggestions: Seq::empty(),
            model_ids: self.model_ids,
            error: None,
        }
    }

    /// The line with an error shown.
    pub open spec fn failing(self, message: Seq<char>) -> PaletteModel {
        PaletteModel { error: Some(message), ..self }
    }

    /// The line after the highlight was moved a number of times.
    pub open spec fn cycled_times(self, moves: nat) -> PaletteModel
        decreases moves,
    {
        if moves == 0 {
            self
        } else {
            self.cycled_times((moves - 1) as nat).cycled()
        }
    }

    /// Whether the next move takes the highlight out of the list.
    pub open spec fn wraps(self) -> bool {
        self.suggestions.len() > 0 && self.cycled().highlighted is None
    }

    /// The line with the highlight moved to the next suggestion, and off the last
    /// one.
    pub open spec fn cycled(self) -> PaletteModel {
        PaletteModel {
            highlighted: next_highlight(self.suggestions.len(), self.highlighted),
            ..self
        }
    }

    /// The line with one character more.
    pub open spec fn typed(self, ch: char) -> PaletteModel {
        self.drafted(self.draft.push(ch))
    }

    /// The line with its last character taken back, if there is one.
    pub open spec fn taken_back(self) -> PaletteModel {
        self.drafted(
            if self.draft.len() == 0 {
                self.draft
            } else {
                self.draft.drop_last()
            },
        )
    }

    /// The line after it is committed, and what that comes to. With a suggestion
    /// highlighted, the line becomes what it shows, and its command is executed,
    /// except that the prefix `model ` only waits for its argument. Otherwise the
    /// line is read as it was typed.
    pub open spec fn committed(self) -> (PaletteModel, Result<CommitView, ParseErrorView>) {
        match self.highlighted {
            Some(at) => {
                let chosen = self.suggestions[at as int];
                (
                    self.drafted(chosen.display),
                    Ok(
                        if chosen.dispatch == DispatchView::OpenModelPrefix {
                            CommitView::StayOpen
                        } else {
                            CommitView::Execute(chosen.dispatch)
                        },
                    ),
                )
            },
            None => (
                self,
                match command_of(self.draft) {
                    Ok(dispatch) => Ok(CommitView::Execute(dispatch)),
                    Err(error) => Err(error),
                },
            ),
        }
    }

    /// The line with a new draft: nothing is highlighted, no error is shown, and
    /// the suggestions are those for the draft.
    pub open spec fn drafted(self, draft: Seq<char>) -> PaletteModel {
        PaletteModel {
            draft,
            highlighted: None,
            suggestions: suggestions_for(draft, self.model_ids),
            model_ids: self.model_ids,
            error: None,
        }
    }
}

/// The contents of what committing gave.
pub open spec fn commit_view(committed: Result<CommandCommit, CommandParseError>) -> Result<
    CommitView,
    ParseErrorView,
> {
    match committed {
        Ok(commit) => Ok(commit@),
        Err(error) => Err(error@),
    }
}

impl CommandPaletteState {
    /// The state by its contents.
    pub closed spec fn model(&self) -> PaletteModel {
        PaletteModel {
            draft: self.draft@,
            highlighted: self.highlighted,
            suggestions: suggestion_views(self.suggestions@),
            model_ids: texts(self.model_ids@),
            error: text_option(self.error_text),
        }
    }

    /// An empty command line that can complete `model_ids`.
    pub fn new(model_ids: Vec<String>) -> (state: Self)
        ensures
            state.model().wf(),
            state.model() == (PaletteModel {
                draft: Seq::empty(),
                highlighted: None,
                suggestions: suggestions_for(Seq::empty(), texts(model_ids@)),
                model_ids: texts(model_ids@),
                error: None,
            }),
    {
        let mut state = CommandPaletteState {
            draft: String::new(),
            highlighted: None,
            suggestions: Vec::new(),
            model_ids,
            error_text: None,
        };
        state.refresh_suggestions();
        assert(state.model() =~= PaletteModel {
            draft: Seq::empty(),
            highlighted: None,
            suggestions: suggestions_for(Seq::empty(), texts(model_ids@)),
            model_ids: texts(model_ids@),
            error: None,
        });
        state
    }

    /// Opens the palette on an empty line.
    pub fn open(&mut self)
        ensures
            final(self).model().wf(),
            final(self).model() == old(self).model().drafted(Seq::empty()),
    {
        self.set_draft(String::new());
        assert(self.draft@ =~= Seq::<char>::empty());
    }

    /// Opens the palette on a line that says `draft` already.
    pub fn open_with_draft(&mut self, draft: &str)
        ensures
            final(self).model().wf(),
            final(self).model() == old(self).model().drafted(draft@),
    {
        self.set_draft(draft.to_string());
    }

    /// Closes the palette.
    pub fn close(&mut self)
        ensures
            final(self).model().wf(),
            final(self).model() == old(self).model().closed(),
    {
        self.draft = String::new();
        self.highlighted = None;
        self.suggestions = Vec::new();
        self.error_text = None;
        assert(self.draft@ =~= Seq::<char>::empty());
        assert(suggestion_views(self.suggestions@) =~= Seq::<SuggestionView>::empty());
    }

    /// Gives the palette the models that it completes.
    pub fn set_model_ids(&mut self, model_ids: Vec<String>)
        requires
            old(self).model().wf(),
        ensures
            final(self).model().wf(),
            final(self).model() == old(self).model().completing(texts(model_ids@)),
    {
        if !same_texts(&self.model_ids, &model_ids) {
            self.model_ids = model_ids;
            self.refresh_suggestions();
        }
    }

    /// What was typed.
    pub fn draft(&self) -> (draft: &str)
        ensures
            draft@ == self.model().draft,
    {
        self.draft.as_str()
    }

    /// What is suggested.
    pub fn suggestions(&self) -> (suggestions: &[CommandSuggestion])
        ensures
            suggestion_views(suggestions@) == self.model().suggestions,
    {
        self.suggestions.as_slice()
    }

    /// The place of the highlighted suggestion.
    pub fn highlighted(&self) -> (highlighted: Option<usize>)
        ensures
            highlighted == self.model().highlighted,
    {
        self.highlighted
    }

    /// What the highlighted suggestion shows.
    pub fn preview_text(&self) -> (preview: Option<&str>)
        requires
            self.model().wf(),
        ensures
            str_option(preview) == (match self.model().highlighted {
                Some(at) => Some(self.model().suggestions[at as int].display),
                None => None,
            }),
    {
        match self.highlighted {
            Some(at) => Some(self.suggestions[at].display.as_str()),
            None => None,
        }
    }

    /// What the palette shows.
    pub fn view(&self) -> (view: CommandPaletteView<'_>)
        requires
            self.model().wf(),
        ensures
            view@ == self.model().shown(),
    {
        CommandPaletteView {
            draft: self.draft(),
            preview_text: self.preview_text(),
            suggestions: self.suggestions(),
            highlighted: self.highlighted(),
            error_text: match &self.error_text {
                Some(text) => Some(text.as_str()),
                None => None,
            },
            has_error: self.error_text.is_some(),
        }
    }

    /// Shows an error with the line.
    pub fn set_error(&mut self, message: String)
        ensures
            final(self).model() == old(self).model().failing(message@),
    {
        self.error_text = Some(message);
    }

    /// Types a character.
    pub fn input_char(&mut self, ch: char)
        ensures
            final(self).model().wf(),
            final(self).model() == old(self).model().typed(ch),
    {
        let mut draft = self.draft.clone();
        draft.push(ch);
        self.set_draft(draft);
    }

    /// Takes the last character back, if there is one.
    pub fn backspace(&mut self)
        ensures
            final(self).model().wf(),
            final(self).model() == old(self).model().taken_back(),
    {
        let mut draft = self.draft.clone();
        let _ = draft.pop();
        self.set_draft(draft);
    }

    /// Moves the highlight to the next suggestion, and off the last one. The
    /// result says that the highlight left the list.
    pub fn cycle_selection(&mut self) -> (wrapped: bool)
        requires
            old(self).model().wf(),
        ensures
            final(self).model().wf(),
            final(self).model() == old(self).model().cycled(),
            wrapped == old(self).model().wraps(),
    {
        if self.suggestions.len() == 0 {
            return false;
        }
        self.highlighted = match self.highlighted {
            None => Some(0),
            Some(at) => if at + 1 < self.suggestions.len() {
                Some(at + 1)
            } else {
                None
            },
        };
        self.highlighted.is_none()
    }

    /// Commits the line.
    pub fn commit(&mut self) -> (committed: Result<CommandCommit, CommandParseError>)
        requires
            old(self).model().wf(),
        ensures
            final(self).model().wf(),
            final(self).model() == old(self).model().committed().0,
            commit_view(committed) == old(self).model().committed().1,
    {
        if let Some(at) = self.highlighted {
            let chosen = self.suggestions[at].clone();
            self.set_draft(chosen.display.clone());
            return match chosen.dispatch {
                CommandDispatch::OpenModelPrefix => Ok(CommandCommit::StayOpen),
                dispatch => Ok(CommandCommit::Execute(dispatch)),
            };
        }
        match parse_command(self.draft()) {
            Ok(dispatch) => Ok(CommandCommit::Execute(dispatch)),
            Err(error) => Err(error),
        }
    }

    /// Replaces the draft and everything that goes with it.
    fn set_draft(&mut self, draft: String)
        ensures
            final(self).model().wf(),
            final(self).model() == old(self).model().drafted(draft@),
    {
        self.draft = draft;
        self.highlighted = None;
        self.error_text = None;
        self.refresh_suggestions();
    }

    /// Makes the suggestions anew.
    fn refresh_suggestions(&mut self)
        ensures
            final(self).model().wf(),
            ({
                let was = old(self).model();
                let found = suggestions_for(was.draft, was.model_ids);
                final(self).model() == PaletteModel {
                    highlighted: match was.highlighted {
                        Some(at) if at < found.len() => Some(at),
                        _ => None,
                    },
                    suggestions: found,
                    ..was
                }
            }),
    {
        self.suggestions = autocomplete_suggestions(self.draft.as_str(), &self.model_ids);
        assert(self.suggestions@.len() == suggestion_views(self.suggestions@).len());
        if let Some(at) = self.highlighted {
            if at >= self.suggestions.len() {
                self.highlighted = None;
            }
        }
    }
}

/// Where one move takes the highlight in a list of `count` suggestions.
pub open spec fn next_highlight(count: nat, highlighted: Option<usize>) -> Option<usize> {
    match highlighted {
        None => if count == 0 {
            None
        } else {
            Some(0)
        },
        Some(at) => if at + 1 < count {
            Some((at + 1) as usize)
        } else {
            None
        },
    }
}

/// Where a number of moves takes the highlight.
pub open spec fn highlight_after(
    count: nat,
    highlighted: Option<usize>,
    moves: nat,
) -> Option<usize>
    decreases moves,
{
    if moves == 0 {
        highlighted
    } else {
        next_highlight(count, highlight_after(count, highlighted, (moves - 1) as nat))
    }
}

/// The highlight in the round of no highlight and all suggestions.
pub open spec fn place_in_round(highlighted: Option<usize>) -> int {
    match highlighted {
        None => 0,
        Some(at) => at + 1,
    }
}

/// Moving the highlight goes round: through every suggestion in turn, out of the
/// list, and to the first suggestion again.
pub proof fn cycling_visits_every_suggestion(
    count: nat,
    highlighted: Option<usize>,
    moves: nat,
)
    requires
        count <= usize::MAX,
        highlighted matches Some(at) ==> at < count,
        moves <= count + 1,
    ensures
        ({
            let reached = place_in_round(highlighted) + moves;
            place_in_round(highlight_after(count, highlighted, moves)) == if reached <= count {
                reached
            } else {
                reached - (count + 1)
            }
        }),
    decreases moves,
{
    if moves > 0 {
        cycling_visits_every_suggestion(count, highlighted, (moves - 1) as nat);
    }
}

proof fn lemma_cycled_times(palette: PaletteModel, moves: nat)
    ensures
        palette.cycled_times(moves) == (PaletteModel {
            highlighted: highlight_after(palette.suggestions.len(), palette.highlighted, moves),
            ..palette
        }),
    decreases moves,
{
    if moves > 0 {
        lemma_cycled_times(palette, (moves - 1) as nat);
    }
}

/// As many moves as there are suggestions, and one more, bring the line back to
/// what it was, wherever the highlight stood. Exactly one of them takes the highlight
/// out of the list, unless the list is empty.
pub proof fn cycling_comes_back(palette: PaletteModel)
    requires
        palette.wf(),
        palette.suggestions.len() <= usize::MAX,
    ensures
        palette.cycled_times(palette.suggestions.len() + 1) == palette,
        forall|moves: nat|
            moves <= palette.suggestions.len() ==> (#[trigger] palette.cycled_times(moves).wraps()
                <==> palette.suggestions.len() > 0 && moves == palette.suggestions.len()
                - place_in_round(palette.highlighted)),
{
    let count = palette.suggestions.len();
    lemma_cycled_times(palette, count + 1);
    cycling_visits_every_suggestion(count, palette.highlighted, count + 1);
    assert forall|moves: nat| moves <= count implies (#[trigger] palette.cycled_times(moves).wraps()
        <==> count > 0 && moves == count - place_in_round(palette.highlighted)) by {
        lemma_cycled_times(palette, moves);
        lemma_cycled_times(palette, moves + 1);
        cycling_visits_every_suggestion(count, palette.highlighted, moves + 1);
    }
}

proof fn lemma_untrimmed(text: Seq<char>)
    ensures
        text.len() > 0 && !is_white_space(text[0]) && !is_white_space(text.last()) ==> trimmed(
            text,
        ) == text,
        trimmed(text) == text && text.len() > 0 ==> !is_white_space(text[0]) && !is_white_space(
            text.last(),
        ),
{
    lemma_trimmed_start_shortens(text);
    lemma_trimmed_end_shortens(trimmed_start(text));
    lemma_trimmed_end_shortens(text);
}

proof fn lemma_trimmed_start_shortens(text: Seq<char>)
    ensures
        trimmed_start(text).len() <= text.len(),
        text.len() > 0 && is_white_space(text[0]) ==> trimmed_start(text).len() < text.len(),
    decreases text.len(),
{
    if text.len() > 0 && is_white_space(text[0]) {
        lemma_trimmed_start_shortens(text.drop_first());
    }
}

proof fn lemma_trimmed_end_shortens(text: Seq<char>)
    ensures
        trimmed_end(text).len() <= text.len(),
        text.len() > 0 && is_white_space(text.last()) ==> trimmed_end(text).len() < text.len(),
    decreases text.len(),
{
    if text.len() > 0 && is_white_space(text.last()) {
        lemma_trimmed_end_shortens(text.drop_last());
    }
}

/// Typing what a suggestion shows comes to the same as choosing it. The beginning
/// of a command is incomplete, and its usage is shown.
pub open spec fn says_what_it_does(suggestion: SuggestionView) -> bool {
    command_of(suggestion.display) == match suggestion.dispatch {
        DispatchView::OpenModelPrefix => Err::<DispatchView, ParseErrorView>(
            ParseErrorView::Incomplete("usage: model <model-id>"@),
        ),
        DispatchView::OpenToolsPrefix => Err(
            ParseErrorView::Incomplete("usage: tools enable|disable"@),
        ),
        dispatch => Ok(dispatch),
    }
}

proof fn lemma_model_suggestion(model_id: Seq<char>)
    requires
        model_id.len() > 0,
        trimmed(model_id) == model_id,
    ensures
        says_what_it_does(model_suggestion(model_id)),
{
    reveal_strlit("model ");
    reveal_strlit("model");
    reveal_strlit("tools");
    reveal_strlit("q");
    let line = "model "@ + model_id;
    lemma_untrimmed(model_id);
    lemma_untrimmed(line);
    assert(line.last() == model_id.last());
    assert(line.len() > 6);
    assert(line.skip(6) =~= model_id);
    assert(has_prefix(line, "model "@)) by {
        assert(line.subrange(0, 6) =~= "model "@);
    }
}

proof fn lemma_fixed_suggestions()
    ensures
        says_what_it_does(SuggestionView { display: "q"@, dispatch: DispatchView::Quit }),
        says_what_it_does(
            SuggestionView {
                display: "tools enable"@,
                dispatch: DispatchView::SetToolsEnabled(true),
            },
        ),
        says_what_it_does(
            SuggestionView {
                display: "tools disable"@,
                dispatch: DispatchView::SetToolsEnabled(false),
            },
        ),
        says_what_it_does(
            SuggestionView { display: "model "@, dispatch: DispatchView::OpenModelPrefix },
        ),
        says_what_it_does(
            SuggestionView { display: "tools "@, dispatch: DispatchView::OpenToolsPrefix },
        ),
{
    reveal_strlit("q");
    reveal_strlit("model");
    reveal_strlit("model ");
    reveal_strlit("tools");
    reveal_strlit("tools ");
    reveal_strlit("enable");
    reveal_strlit("disable");
    reveal_strlit("tools enable");
    reveal_strlit("tools disable");
    lemma_untrimmed("q"@);
    lemma_untrimmed("tools enable"@);
    lemma_untrimmed("tools disable"@);
    lemma_untrimmed("enable"@);
    lemma_untrimmed("disable"@);
    assert("tools enable"@.skip(6) =~= "enable"@);
    assert("tools disable"@.skip(6) =~= "disable"@);
    assert(lower_text("enable"@) =~= "enable"@);
    assert(lower_text("disable"@) =~= "disable"@);
    assert("tools enable"@.subrange(0, 6) =~= "tools "@);
    assert("tools disable"@.subrange(0, 6) =~= "tools "@);
    assert("tools enable"@[0] != "model "@[0]);
    assert("tools disable"@[0] != "model "@[0]);
    assert("enable"@.len() != "disable"@.len());
    lemma_untrimmed("model"@);
    lemma_untrimmed("tools"@);
    assert("model "@.drop_last() =~= "model"@);
    assert("tools "@.drop_last() =~= "tools"@);
    assert(trimmed_start("model "@) == "model "@);
    assert(trimmed_start("tools "@) == "tools "@);
    assert(trimmed_end("model"@) == "model"@);
    assert(trimmed_end("tools"@) == "tools"@);
    assert(trimmed("model "@) == "model"@);
    assert(trimmed("tools "@) == "tools"@);
    assert("model"@[0] != "tools"@[0]);
}

proof fn lemma_first_showing(list: Seq<SuggestionView>, display: Seq<char>)
    requires
        displays(list).contains(display),
    ensures
        0 <= first_showing(list, display) < list.len(),
    decreases list.len(),
{
    if list[0].display != display {
        let rest = list.drop_first();
        let at = displays(list).index_of(display);
        assert(displays(rest)[at - 1] == display);
        lemma_first_showing(rest, display);
    }
}

/// What is suggested for a query stands in the list.
proof fn lemma_matching_from_list(query: Seq<char>, list: Seq<SuggestionView>, k: int)
    requires
        0 <= k < matching_suggestions(query, list).len(),
    ensures
        list.contains(matching_suggestions(query, list)[k]),
{
    if searchable(query) {
        let found = accepted(query, displays(list));
        let listed = found.to_sorted_seq(rank_order(query));
        rank_order_is_total(query);
        vstd::seq_lib::seq_to_set_is_finite(displays(list));
        lemma_sorted_listing(found, rank_order(query));
        assert(listed.to_set().contains(listed[k]));
        assert(displays(list).to_set().contains(listed[k]));
        lemma_first_showing(list, listed[k]);
        assert(list[first_showing(list, listed[k])] == matching_suggestions(query, list)[k]);
    } else {
        assert(list[k] == matching_suggestions(query, list)[k]);
    }
}

/// Whatever is suggested, typing what it shows comes to the same as choosing it; the
/// beginnings of commands only wait for their arguments, and are incomplete.
pub proof fn suggestions_say_what_they_do(draft: Seq<char>, model_ids: Seq<Seq<char>>, k: int)
    requires
        0 <= k < suggestions_for(draft, model_ids).len(),
        forall|i: int|
            0 <= i < model_ids.len() ==> (#[trigger] model_ids[i]).len() > 0 && trimmed(
                model_ids[i],
            ) == model_ids[i],
    ensures
        says_what_it_does(suggestions_for(draft, model_ids)[k]),
{
    let line = trimmed_start(draft);
    lemma_fixed_suggestions();
    if has_prefix(line, "model "@) {
        let query = trimmed_start(without_prefixes(line, "model "@));
        let suggest = |model_id: Seq<char>| model_suggestion(model_id);
        let chosen = suggestions_for(draft, model_ids)[k];
        if query.len() == 0 {
            let sorted = model_ids.sort_by(text_order());
            text_order_is_total();
            model_ids.lemma_sort_by_ensures(text_order());
            assert(chosen == suggest(sorted[k]));
            broadcast use vstd::seq_lib::group_to_multiset_ensures;

            assert(sorted.to_multiset().contains(sorted[k]));
            assert(model_ids.contains(sorted[k]));
            lemma_model_suggestion(sorted[k]);
        } else {
            let all = model_ids.map_values(suggest);
            lemma_matching_from_list(query, all, k);
            let at = all.index_of(chosen);
            assert(all[at] == suggest(model_ids[at]));
            lemma_model_suggestion(model_ids[at]);
        }
    } else if has_prefix(line, "tools "@) {
        let query = trimmed_start(without_prefixes(line, "tools "@));
        if query.len() > 0 {
            lemma_matching_from_list(
                query,
                seq![
                    SuggestionView {
                        display: "tools enable"@,
                        dispatch: DispatchView::SetToolsEnabled(true),
                    },
                    SuggestionView {
                        display: "tools disable"@,
                        dispatch: DispatchView::SetToolsEnabled(false),
                    },
                ],
                k,
            );
        }
    } else if line != "model"@ && line != "tools"@ && line.len() > 0 {
        lemma_matching_from_list(
            line,
            seq![
                SuggestionView { display: "q"@, dispatch: DispatchView::Quit },
                SuggestionView { display: "model "@, dispatch: DispatchView::OpenModelPrefix },
                SuggestionView { display: "tools "@, dispatch: DispatchView::OpenToolsPrefix },
            ],
            k,
        );
    }
}

/// What is typed on the command line stands behind what was typed before, and taking it back
/// restores the line. Typing leaves no highlight and no error, and what is suggested is what is
/// suggested for the line.
pub proof fn typing_extends_the_line(palette: PaletteModel, ch: char)
    ensures
        palette.typed(ch).draft == palette.draft.push(ch),
        palette.typed(ch).highlighted is None,
        palette.typed(ch).error is None,
        palette.typed(ch).model_ids == palette.model_ids,
        palette.typed(ch).suggestions == suggestions_for(
            palette.draft.push(ch),
            palette.model_ids,
        ),
        palette.typed(ch).taken_back().draft == palette.draft,
        palette.typed(ch).taken_back().suggestions == suggestions_for(
            palette.draft,
            palette.model_ids,
        ),
        palette.draft.len() == 0 ==> palette.taken_back().draft.len() == 0,
{
    assert(palette.draft.push(ch).drop_last() =~= palette.draft);
}

/// Committing a highlighted suggestion puts it on the line and runs its command; only the beginning
/// of a command on models waits for its argument. Without a highlight, the line is run as it is
/// typed.
pub proof fn committing_runs_what_is_highlighted_or_typed(palette: PaletteModel)
    requires
        palette.wf(),
    ensures
        palette.highlighted matches Some(at) ==> {
            let chosen = palette.suggestions[at as int];
            &&& palette.committed().0.draft == chosen.display
            &&& palette.committed().0.highlighted is None
            &&& chosen.dispatch == DispatchView::OpenModelPrefix ==> palette.committed().1 == Ok::<
                CommitView,
                ParseErrorView,
            >(CommitView::StayOpen)
            &&& chosen.dispatch != DispatchView::OpenModelPrefix ==> palette.committed().1 == Ok::<
                CommitView,
                ParseErrorView,
            >(CommitView::Execute(chosen.dispatch))
        },
        palette.highlighted is None ==> {
            &&& palette.committed().0 == palette
            &&& command_of(palette.draft) matches Ok(dispatch) ==> palette.committed().1 == Ok::<
                CommitView,
                ParseErrorView,
            >(CommitView::Execute(dispatch))
            &&& command_of(palette.draft) matches Err(error) ==> palette.committed().1 == Err::<
                CommitView,
                ParseErrorView,
            >(error)
        },
{
}

/// A command to switch to a model says the model, whatever white space stands around; white space
/// around a line does not count.
pub proof fn typed_commands_are_read(model_id: Seq<char>)
    requires
        model_id.len() > 0,
        trimmed(model_id) == model_id,
    ensures
        command_of("model "@ + model_id) == Ok::<DispatchView, ParseErrorView>(
            DispatchView::SwitchModel(model_id),
        ),
        command_of("tools enable"@) == Ok::<DispatchView, ParseErrorView>(
            DispatchView::SetToolsEnabled(true),
        ),
        command_of("tools disable"@) == Ok::<DispatchView, ParseErrorView>(
            DispatchView::SetToolsEnabled(false),
        ),
        command_of("q"@) == Ok::<DispatchView, ParseErrorView>(DispatchView::Quit),
        command_of(Seq::empty()) == Err::<DispatchView, ParseErrorView>(ParseErrorView::Empty),
{
    lemma_model_suggestion(model_id);
    lemma_fixed_suggestions();
    assert(trimmed_start(Seq::<char>::empty()) =~= Seq::<char>::empty());
    assert(trimmed_end(Seq::<char>::empty()) =~= Seq::<char>::empty());
}

/// Of two suggestions for a query, the one that begins with the query stands before one that does
/// not; else the nearer one before the farther one. None is there twice.
pub proof fn better_matches_stand_first(
    query: Seq<char>,
    list: Seq<SuggestionView>,
    i: int,
    j: int,
)
    requires
        searchable(query),
        0 <= i < j < matching_suggestions(query, list).len(),
    ensures
        ({
            let found = matching_suggestions(query, list);
            let first = found[i].display;
            let second = found[j].display;
            &&& first != second
            &&& list.contains(found[i])
            &&& has_prefix(second, query) ==> has_prefix(first, query)
            &&& has_prefix(first, query) == has_prefix(second, query) ==> distance(query, first)
                <= distance(query, second)
        }),
{
    let shown = accepted(query, displays(list));
    let listed = shown.to_sorted_seq(rank_order(query));
    rank_order_is_total(query);
    vstd::seq_lib::seq_to_set_is_finite(displays(list));
    lemma_sorted_listing(shown, rank_order(query));
    lemma_matching_from_list(query, list, i);
    lemma_shows_what_is_listed(query, list, i);
    lemma_shows_what_is_listed(query, list, j);
    assert(rank_order(query)(listed[i], listed[j]));
    assert(listed[i] != listed[j]);
}

proof fn lemma_shows_what_is_listed(query: Seq<char>, list: Seq<SuggestionView>, k: int)
    requires
        searchable(query),
        0 <= k < matching_suggestions(query, list).len(),
    ensures
        matching_suggestions(query, list)[k].display == accepted(
            query,
            displays(list),
        ).to_sorted_seq(rank_order(query))[k],
{
    let shown = accepted(query, displays(list));
    let listed = shown.to_sorted_seq(rank_order(query));
    rank_order_is_total(query);
    vstd::seq_lib::seq_to_set_is_finite(displays(list));
    lemma_sorted_listing(shown, rank_order(query));
    assert(listed.to_set().contains(listed[k]));
    assert(displays(list).to_set().contains(listed[k]));
    lemma_first_showing(list, listed[k]);
    lemma_first_showing_shows(list, listed[k]);
}

proof fn lemma_first_showing_shows(list: Seq<SuggestionView>, display: Seq<char>)
    requires
        displays(list).contains(display),
    ensures
        0 <= first_showing(list, display) < list.len(),
        list[first_showing(list, display)].display == display,
    decreases list.len(),
{
    if list[0].display != display {
        let rest = list.drop_first();
        let at = displays(list).index_of(display);
        assert(displays(rest)[at - 1] == display);
        lemma_first_showing_shows(rest, display);
    }
}

/// What is suggested follows the models that there are; the line itself and its error stay.
pub proof fn suggestions_follow_the_models(palette: PaletteModel, model_ids: Seq<Seq<char>>)
    ensures
        ({
            let next = palette.completing(model_ids);
            &&& next.model_ids == model_ids
            &&& next.draft == palette.draft
            &&& next.error == palette.error
            &&& palette.model_ids == model_ids ==> next == palette
            &&& palette.model_ids != model_ids ==> next.suggestions == suggestions_for(
                palette.draft,
                model_ids,
            )
            &&& next.highlighted is Some ==> next.highlighted == palette.highlighted
        }),
{
}

/// Nothing that was typed excludes nothing: all commands are suggested, all models behind the word
/// for models, and both states behind the word for tools; each list is in the order of its texts.
pub proof fn everything_is_suggested_at_first(
    blank: Seq<char>,
    model_ids: Seq<Seq<char>>,
    i: int,
    j: int,
)
    requires
        forall|k: int| 0 <= k < blank.len() ==> is_white_space(#[trigger] blank[k]),
        0 <= i < j < model_ids.len(),
    ensures
        displays(suggestions_for(blank, model_ids)) == seq!["model "@, "q"@, "tools "@],
        displays(suggestions_for("tools "@ + blank, model_ids)) == seq![
            "tools disable"@,
            "tools enable"@,
        ],
        ({
            let found = suggestions_for("model "@ + blank, model_ids);
            &&& found.len() == model_ids.len()
            &&& found[i].dispatch is SwitchModel
            &&& found[j].dispatch is SwitchModel
            &&& text_order()(found[i].dispatch->SwitchModel_0, found[j].dispatch->SwitchModel_0)
            &&& exists|k: int|
                0 <= k < found.len() && #[trigger] found[k].dispatch == DispatchView::SwitchModel(
                    model_ids[i],
                )
        }),
{
    reveal_strlit("model ");
    reveal_strlit("tools ");
    reveal_strlit("model");
    reveal_strlit("tools");
    lemma_blank_is_trimmed_away(blank);
    assert(!has_prefix(Seq::<char>::empty(), "model "@));
    assert(!has_prefix(Seq::<char>::empty(), "tools "@));
    assert(displays(suggestions_for(blank, model_ids)) =~= seq!["model "@, "q"@, "tools "@]);
    let models = "model "@ + blank;
    let tools = "tools "@ + blank;
    assert(models[0] == 'm');
    assert(tools[0] == 't');
    assert(trimmed_start(models) == models);
    assert(trimmed_start(tools) == tools);
    assert(models.subrange(0, 6) =~= "model "@);
    assert(tools.subrange(0, 6) =~= "tools "@);
    assert(models.skip(6) =~= blank);
    assert(tools.skip(6) =~= blank);
    if has_prefix(blank, "model "@) {
        assert(blank.subrange(0, 6)[0] == blank[0]);
    }
    if has_prefix(blank, "tools "@) {
        assert(blank.subrange(0, 6)[0] == blank[0]);
    }
    assert(!has_prefix(blank, "model "@));
    assert(!has_prefix(blank, "tools "@));
    assert(without_prefixes(blank, "model "@) == blank);
    assert(without_prefixes(blank, "tools "@) == blank);
    assert(without_prefixes(models, "model "@) == blank);
    assert(without_prefixes(tools, "tools "@) == blank);
    if has_prefix(tools, "model "@) {
        assert(tools.subrange(0, 6)[0] == 't');
    }
    assert(displays(suggestions_for(tools, model_ids)) =~= seq![
        "tools disable"@,
        "tools enable"@,
    ]);
    let sorted = model_ids.sort_by(text_order());
    text_order_is_total();
    model_ids.lemma_sort_by_ensures(text_order());
    let found = suggestions_for(models, model_ids);
    assert(found =~= sorted.map_values(|model_id: Seq<char>| model_suggestion(model_id)));
    vstd::seq_lib::to_multiset_len(sorted);
    vstd::seq_lib::to_multiset_len(model_ids);
    assert(text_order()(sorted[i], sorted[j]));
    assert(model_ids.to_multiset().count(model_ids[i]) > 0) by {
        vstd::seq_lib::to_multiset_contains(model_ids, model_ids[i]);
    }
    vstd::seq_lib::to_multiset_contains(sorted, model_ids[i]);
    assert(sorted.contains(model_ids[i]));
    let k = sorted.index_of(model_ids[i]);
    assert(found[k].dispatch == DispatchView::SwitchModel(model_ids[i]));
}

proof fn lemma_blank_is_trimmed_away(blank: Seq<char>)
    requires
        forall|k: int| 0 <= k < blank.len() ==> is_white_space(#[trigger] blank[k]),
    ensures
        trimmed_start(blank) == Seq::<char>::empty(),
    decreases blank.len(),
{
    if blank.len() > 0 {
        assert(is_white_space(blank[0]));
        assert forall|k: int| 0 <= k < blank.drop_first().len() implies is_white_space(
            #[trigger] blank.drop_first()[k],
        ) by {
            assert(is_white_space(blank[k + 1]));
        }
        lemma_blank_is_trimmed_away(blank.drop_first());
    } else {
        assert(blank =~= Seq::<char>::empty());
    }
}

/// What begins as no command does is not known, and is repeated in the error. A state of the tools
/// that there is not is refused with the usage, and a command without its word is incomplete.
pub proof fn unknown_commands_are_refused(line: Seq<char>, state: Seq<char>)
    requires
        line.len() > 0,
        trimmed(line) == line,
        line[0] != 'q',
        line[0] != 'm',
        line[0] != 't',
        state.len() > 0,
        trimmed(state) == state,
        lower_text(state) != "enable"@,
        lower_text(state) != "disable"@,
    ensures
        command_of(line) == Err::<DispatchView, ParseErrorView>(
            ParseErrorView::Invalid("unknown command: "@ + line),
        ),
        command_of("tools "@ + state) == Err::<DispatchView, ParseErrorView>(
            ParseErrorView::Invalid("usage: tools enable|disable"@),
        ),
        command_of("model"@) == Err::<DispatchView, ParseErrorView>(
            ParseErrorView::Incomplete("usage: model <model-id>"@),
        ),
        command_of("tools"@) == Err::<DispatchView, ParseErrorView>(
            ParseErrorView::Incomplete("usage: tools enable|disable"@),
        ),
{
    reveal_strlit("q");
    reveal_strlit("model");
    reveal_strlit("tools");
    reveal_strlit("model ");
    reveal_strlit("tools ");
    reveal_strlit("");
    assert(line[0] != "q"@[0]);
    assert(line[0] != "model"@[0]);
    assert(line[0] != "tools"@[0]);
    if has_prefix(line, "model "@) {
        assert(line.subrange(0, 6)[0] == line[0]);
    }
    if has_prefix(line, "tools "@) {
        assert(line.subrange(0, 6)[0] == line[0]);
    }
    let typed = "tools "@ + state;
    assert(typed[0] == 't');
    assert(typed.last() == state.last());
    lemma_trimmed_ends(state);
    assert(trimmed_start(typed) == typed);
    assert(trimmed_end(typed) == typed);
    assert(typed.subrange(0, 6) =~= "tools "@);
    assert(typed.skip(6) =~= state);
    assert(typed[0] != "q"@[0]);
    assert(typed[0] != "model"@[0]);
    assert(typed.len() != "tools"@.len());
    if has_prefix(typed, "model "@) {
        assert(typed.subrange(0, 6)[0] == 't');
    }
    assert(lower_text(state).len() == state.len());
    assert(trimmed("model"@) == "model"@);
    assert(trimmed("tools"@) == "tools"@);
    assert("model"@[0] != "tools"@[0]);
    assert("model"@.len() != "q"@.len());
}

} // verus!
