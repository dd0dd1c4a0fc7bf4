use kablam::command_palette::{
    autocomplete_suggestions, fuzzy_rank, parse_command, root_suggestions, CommandCommit,
    CommandDispatch, CommandPaletteState, CommandParseError,
};
use kablam::fuzzy::{edit_distance, rank_matches, search_texts};
use kablam::order::{sort_texts, text_at_most};

fn strings(list: &[&str]) -> Vec<String> {
    list.iter().map(|text| text.to_string()).collect()
}

fn shown(draft: &str, models: &[&str]) -> Vec<String> {
    autocomplete_suggestions(draft, &strings(models))
        .into_iter()
        .map(|suggestion| suggestion.display)
        .collect()
}

#[test]
fn parse_command_accepts_quit_and_model_switches() {
    assert_eq!(parse_command("q"), Ok(CommandDispatch::Quit));
    assert_eq!(
        parse_command("model qwen3.5-q2k"),
        Ok(CommandDispatch::SwitchModel(String::from("qwen3.5-q2k")))
    );
    assert_eq!(
        parse_command("tools disable"),
        Ok(CommandDispatch::SetToolsEnabled(false))
    );
}

#[test]
fn parse_command_rejects_empty_and_incomplete_commands() {
    assert_eq!(parse_command(""), Err(CommandParseError::Empty));
    assert!(matches!(
        parse_command("model"),
        Err(CommandParseError::Incomplete(_))
    ));
    assert!(matches!(
        parse_command("unknown"),
        Err(CommandParseError::Invalid(_))
    ));
    assert!(matches!(
        parse_command("tools"),
        Err(CommandParseError::Incomplete(_))
    ));
}

#[test]
fn autocomplete_ranks_by_edit_distance() {
    let suggestions = root_suggestions("mo", &["smollm2".to_string(), "q".to_string()]);
    assert_eq!(suggestions[0].display, "model ");
    assert_eq!(suggestions[1].display, "q");
}

#[test]
fn command_palette_cycles_and_returns_to_editor() {
    let mut state = CommandPaletteState::new(vec![String::from("smollm2"), String::from("qwen")]);
    state.open();

    assert!(!state.cycle_selection());
    assert_eq!(state.highlighted(), Some(0));
    assert!(!state.cycle_selection());
    assert_eq!(state.highlighted(), Some(1));
    assert!(!state.cycle_selection());
    assert_eq!(state.highlighted(), Some(2));
    assert!(state.cycle_selection());
    assert_eq!(state.highlighted(), None);
}

#[test]
fn cycling_brings_any_highlight_back_over_one_wrap() {
    let mut state = CommandPaletteState::new(vec![]);
    state.open();
    for start in [None, Some(0), Some(1), Some(2)] {
        assert_eq!(state.highlighted(), start);
        let wraps = (0..4).filter(|_| state.cycle_selection()).count();
        assert_eq!(wraps, 1);
        assert_eq!(state.highlighted(), start);
        state.cycle_selection();
    }
}

#[test]
fn beginnings_of_commands_are_incomplete() {
    assert_eq!(
        parse_command("model "),
        Err(CommandParseError::Incomplete(String::from("usage: model <model-id>")))
    );
    assert_eq!(
        parse_command("tools "),
        Err(CommandParseError::Incomplete(String::from("usage: tools enable|disable")))
    );
}

#[test]
fn near_texts_are_found_for_any_query() {
    let texts = strings(&["abc", "größe", "zzzzzzzzzzzzzzzzzz"]);
    let mut found = search_texts("ü", &texts).unwrap();
    found.retain(|text| text.is_ascii());
    assert_eq!(found, vec!["abc"]);
    assert_eq!(search_texts("a", &texts).unwrap(), vec!["abc", "größe"]);
}

#[test]
fn enter_commit_then_execute_flow_distinguishes_prefix_and_dispatch() {
    let mut state = CommandPaletteState::new(vec![String::from("smollm2")]);
    state.open();
    state.input_char('m');
    state.cycle_selection();

    assert_eq!(state.preview_text(), Some("model "));
    assert_eq!(state.commit(), Ok(CommandCommit::StayOpen));

    state.input_char(' ');
    state.input_char('s');
    state.input_char('m');
    state.input_char('o');

    assert!(matches!(
        state.commit(),
        Ok(CommandCommit::Execute(CommandDispatch::SwitchModel(_)))
    ));
}

#[test]
fn parse_errors_say_what_is_missing() {
    assert_eq!(
        parse_command("  model \t "),
        Err(CommandParseError::Incomplete(String::from("usage: model <model-id>")))
    );
    assert_eq!(
        parse_command("tools on"),
        Err(CommandParseError::Invalid(String::from("usage: tools enable|disable")))
    );
    assert_eq!(
        parse_command(" who "),
        Err(CommandParseError::Invalid(String::from("unknown command: who")))
    );
    assert_eq!(
        parse_command("tools ENABLE"),
        Ok(CommandDispatch::SetToolsEnabled(true))
    );
    assert_eq!(
        parse_command("model \u{a0}a b\u{2003}"),
        Ok(CommandDispatch::SwitchModel(String::from("a b")))
    );
}

#[test]
fn completion_follows_the_line() {
    assert_eq!(shown("", &[]), vec!["model ", "q", "tools "]);
    assert_eq!(shown("model", &[]), vec!["model "]);
    assert_eq!(shown(" tools", &[]), vec!["tools "]);
    assert_eq!(shown("tools ", &[]), vec!["tools disable", "tools enable"]);
    assert_eq!(shown("model ", &["b", "a"]), vec!["model a", "model b"]);
    assert_eq!(shown("model model ", &["b"]), vec!["model b"]);
    assert_eq!(shown("tools enable", &[])[0], "tools enable");
}

#[test]
fn ranking_prefers_prefixes_then_distance_then_text() {
    assert_eq!(
        rank_matches("ab", &strings(&["xb", "abcdef", "ac", "ab"])),
        vec!["ab", "abcdef", "ac", "xb"]
    );
    let found = search_texts("ab", &strings(&["ab", "ab", "zzzzzzzzzzzz", "abc"])).unwrap();
    assert_eq!(found, vec!["ab", "abc"]);
    let ranked = fuzzy_rank("q", &root_suggestions("", &[]));
    assert_eq!(ranked[0].0.display, "q");
    assert_eq!(ranked[0].1, 0);
}

#[test]
fn edit_distance_counts_edits() {
    assert_eq!(edit_distance("kitten", "sitting"), 3);
    assert_eq!(edit_distance("", "abc"), 3);
    assert_eq!(edit_distance("abc", ""), 3);
    assert_eq!(edit_distance("größe", "grosse"), 3);
    assert_eq!(edit_distance("sitting", "kitten"), edit_distance("kitten", "sitting"));
}

#[test]
fn a_detour_takes_no_fewer_edits() {
    let texts = ["", "a", "ab", "ba", "abc", "kitten", "sitting", "größe"];
    for left in texts {
        for middle in texts {
            for right in texts {
                let direct = edit_distance(left, right);
                assert!(direct <= edit_distance(left, middle) + edit_distance(middle, right));
            }
        }
    }
    // One step each: to insert, to delete, to substitute.
    assert_eq!(edit_distance("model", "models"), 1);
    assert_eq!(edit_distance("model", "odel"), 1);
    assert_eq!(edit_distance("model", "medel"), 1);
    // Two neighbours change places in two steps.
    assert_eq!(edit_distance("ab", "ba"), 2);
}

#[test]
fn texts_are_ordered_by_code_points() {
    assert_eq!(sort_texts(&strings(&["b", "a", "ab", "Z", "é"])), vec!["Z", "a", "ab", "b", "é"]);
    assert!(text_at_most("a", "ab"));
    assert!(!text_at_most("b", "ab"));
}

#[test]
fn palette_shows_and_clears_errors() {
    let mut state = CommandPaletteState::new(vec![]);
    state.open_with_draft("model x");
    state.set_error(String::from("no such model"));
    let view = state.view();
    assert_eq!(view.draft, "model x");
    assert_eq!(view.error_text, Some("no such model"));
    assert!(view.has_error);
    state.backspace();
    assert_eq!(state.draft(), "model ");
    assert!(!state.view().has_error);
    state.close();
    assert_eq!(state.draft(), "");
    assert!(state.suggestions().is_empty());
    assert!(!state.cycle_selection());
}

#[test]
fn new_models_are_completed() {
    let mut state = CommandPaletteState::new(strings(&["a", "b"]));
    state.open_with_draft("model ");
    state.cycle_selection();
    state.cycle_selection();
    assert_eq!(state.preview_text(), Some("model b"));
    state.set_model_ids(strings(&["c"]));
    assert_eq!(state.highlighted(), None);
    assert_eq!(state.suggestions()[0].display, "model c");
    state.cycle_selection();
    state.set_model_ids(strings(&["c"]));
    assert_eq!(state.highlighted(), Some(0));
}
