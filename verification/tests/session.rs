use std::collections::VecDeque;

use kablam::command_palette::{CommandDispatch, CommandPaletteState, TabTarget};
use kablam::commands::{
    execute_command_dispatch, open_inline_command_relative, resume_new_tab, resume_switch,
    InlinePosition,
};
use kablam::history::{
    blocks_to_raw_text, clipboard_text, selection_edit_action, AssistantStatus, BlockKind,
    CommandKind, HistoryEntry, HistoryItem, HistoryMeta, MarkdownBlock, Mode, ModelLoadStatus,
    ScrollAnchor, SelectionEditAction,
};
use kablam::input::{
    cancel_inline_command_insert, handle_ctrl_c, handle_input_event, open_inline_compose_relative,
    resume_copy, settle, submit_chat_turn, InputEvent, Key, KeyPress, MouseMotion,
};
use kablam::jobs::{handle_job_event, JobEvent, ParsedMarkdown};
use kablam::model_set::ModelSet;
use kablam::request::{build_request_for_turn, ChatRole};
use kablam::runtime::{RuntimeRegistry, RuntimeStatus};
use kablam::session::{
    active_thread, cycle_active_tab, cycle_active_tab_relative, maybe_start_next_job, resume_job,
    resume_stream, thread_index_by_tab_id, AppState, Effect, OpenPurpose,
};
use kablam::startup::default_tools;
use kablam::thread::{
    effective_config_until, normalize_selection, tab_labels, ComposeTarget, ThreadConfig,
    ThreadJob, ThreadState,
};

fn text_blocks(text: &str) -> Vec<MarkdownBlock> {
    if text.is_empty() {
        Vec::new()
    } else {
        vec![MarkdownBlock {
            kind: BlockKind::Paragraph,
            raw: text.to_string(),
            display: None,
        }]
    }
}

fn turn(model_id: &str, prompt: &str, answer: &str) -> HistoryEntry {
    HistoryEntry::Assistant {
        model_id: model_id.to_string(),
        prompt: prompt.to_string(),
        blocks: text_blocks(answer),
        callouts: vec![],
        status: None,
        sequence_number: None,
    }
}

fn item(id: u64, entry: HistoryEntry) -> HistoryItem {
    HistoryItem {
        id,
        entry,
        meta: HistoryMeta::Plain,
    }
}

fn config(model_id: &str) -> ThreadConfig {
    ThreadConfig {
        model_id: model_id.to_string(),
        tools_enabled: true,
    }
}

fn thread(
    tab_id: usize,
    model_id: &str,
    history: Vec<HistoryItem>,
    selected_chat_entry: Option<usize>,
) -> ThreadState {
    ThreadState {
        tab_id,
        base_config: config(model_id),
        current_config: config(model_id),
        name_override: None,
        history,
        selected_chat_entry,
        compose_target: ComposeTarget::AppendBottom,
        draft: String::new(),
        scroll_anchor: ScrollAnchor::Bottom,
        queue: VecDeque::new(),
        running_job: false,
        running_assistant_id: None,
        loaded_models: ModelSet::new(),
        connections: ModelSet::new(),
        has_unseen_changes: false,
    }
}

fn app(threads: Vec<ThreadState>, mode: Mode, next_history_id: u64) -> AppState {
    let next_tab_id = threads.len() + 1;
    AppState {
        threads,
        active_thread_idx: 0,
        mode,
        command_palette: CommandPaletteState::new(vec![]),
        next_history_id,
        next_tab_id,
        command_edit_target: None,
        inline_command_placeholder: None,
        delete_target_id: None,
    }
}

fn two_turns(selected: Option<usize>) -> ThreadState {
    thread(
        1,
        "m",
        vec![
            item(1, turn("m", "first", "one")),
            item(2, turn("m", "second", "two")),
        ],
        selected,
    )
}

fn press(key: Key) -> InputEvent {
    InputEvent::Key(KeyPress {
        key,
        control: false,
        alt: false,
        command: false,
    })
}

fn control(ch: char) -> InputEvent {
    InputEvent::Key(KeyPress {
        key: Key::Char(ch),
        control: true,
        alt: false,
        command: false,
    })
}

fn handle(app: &mut AppState, event: InputEvent) -> Effect {
    let registry = RuntimeRegistry::defaults();
    assert!(app.has_room());
    let effect = handle_input_event(event, app, &registry, &default_tools(), 5);
    settle(app);
    effect
}

fn type_line(app: &mut AppState, line: &str) -> Effect {
    for ch in line.chars() {
        handle(app, press(Key::Char(ch)));
    }
    handle(app, press(Key::Enter))
}

fn prompts(app: &AppState) -> Vec<String> {
    active_thread(app)
        .history
        .iter()
        .map(|item| match &item.entry {
            HistoryEntry::Assistant { prompt, .. } => prompt.clone(),
            HistoryEntry::LoadingModel { .. } => String::from("(loading)"),
            HistoryEntry::Command { raw, .. } => format!(":{raw}"),
            HistoryEntry::Break => String::from("(break)"),
            HistoryEntry::SystemNotice(text) => format!("!{text}"),
        })
        .collect()
}

fn queue(app: &AppState) -> Vec<u64> {
    active_thread(app)
        .queue
        .iter()
        .map(|job| job.assistant_entry_id)
        .collect()
}

#[test]
fn tab_labels_number_duplicate_auto_named_models() {
    assert_eq!(
        tab_labels(&vec![
            thread(1, "smollm2", vec![], None),
            thread(2, "smollm2", vec![], None)
        ]),
        vec![String::from("smollm2-1"), String::from("smollm2-2")]
    );
}

#[test]
fn effective_config_respects_latest_commands_before_target() {
    let thread = thread(
        1,
        "smollm2",
        vec![
            HistoryItem {
                id: 1,
                entry: HistoryEntry::Command {
                    raw: String::from("tools disable"),
                    result: String::new(),
                },
                meta: HistoryMeta::Command(CommandKind::Tools(false)),
            },
            HistoryItem {
                id: 2,
                entry: HistoryEntry::Command {
                    raw: String::from("model qwen3.5"),
                    result: String::new(),
                },
                meta: HistoryMeta::Command(CommandKind::Model(String::from("qwen3.5"))),
            },
            HistoryItem {
                id: 3,
                entry: turn("qwen3.5", "hello", "reply"),
                meta: HistoryMeta::Plain,
            },
        ],
        None,
    );

    let config = effective_config_until(&thread, 2);
    assert_eq!(config.model_id, "qwen3.5");
    assert!(!config.tools_enabled);
}

#[test]
fn selection_edit_action_allows_prompt_edits_for_assistant_messages() {
    assert!(matches!(
        selection_edit_action(&turn("m", "question", "answer")),
        Some(SelectionEditAction::Prompt(value)) if value == "question"
    ));
    assert!(matches!(
        selection_edit_action(&HistoryEntry::Command {
            raw: String::from("tools disable"),
            result: String::new(),
        }),
        Some(SelectionEditAction::Command(value)) if value == "tools disable"
    ));
    assert!(matches!(
        selection_edit_action(&HistoryEntry::LoadingModel {
            model_id: String::from("m"),
            status: None,
        }),
        None
    ));
    assert!(selection_edit_action(&HistoryEntry::SystemNotice(String::from("note"))).is_none());
}

#[test]
fn open_inline_compose_inserts_after_selected_message() {
    let mut app = app(vec![two_turns(Some(0))], Mode::Normal, 3);

    open_inline_compose_relative(&mut app, InlinePosition::After);

    let thread = &app.threads[0];
    assert_eq!(thread.history.len(), 3);
    assert!(matches!(
        thread.history[1].entry,
        HistoryEntry::Assistant { ref prompt, status: None, .. } if prompt.is_empty()
    ));
    assert_eq!(thread.selected_chat_entry, Some(1));
    assert_eq!(thread.compose_target, ComposeTarget::EditEntry(3));
    assert!(matches!(app.mode, Mode::Insert));
}

#[test]
fn open_inline_compose_after_last_message_falls_back_to_footer() {
    let mut app = app(
        vec![thread(
            1,
            "m",
            vec![item(1, turn("m", "last", "done"))],
            Some(0),
        )],
        Mode::Normal,
        2,
    );

    open_inline_compose_relative(&mut app, InlinePosition::After);

    let thread = &app.threads[0];
    assert_eq!(thread.history.len(), 1);
    assert!(matches!(thread.compose_target, ComposeTarget::AppendBottom));
    assert!(thread.selected_chat_entry.is_none());
    assert!(matches!(app.mode, Mode::Insert));
}

#[test]
fn open_inline_command_inserts_before_or_after_selected_message() {
    let mut after = app(vec![two_turns(Some(0))], Mode::Normal, 3);

    open_inline_command_relative(&mut after, InlinePosition::After);
    let thread = &after.threads[0];
    assert_eq!(thread.history.len(), 3);
    assert!(matches!(
        thread.history[1].entry,
        HistoryEntry::Command { ref raw, ref result } if raw.is_empty() && result.is_empty()
    ));
    assert_eq!(thread.selected_chat_entry, Some(1));
    assert_eq!(after.command_edit_target, Some(3));
    assert!(matches!(after.mode, Mode::Command));

    let mut before = app(vec![two_turns(Some(1))], Mode::Normal, 3);

    open_inline_command_relative(&mut before, InlinePosition::Before);
    let thread = &before.threads[0];
    assert_eq!(thread.history.len(), 3);
    assert!(matches!(
        thread.history[1].entry,
        HistoryEntry::Command { ref raw, ref result } if raw.is_empty() && result.is_empty()
    ));
    assert_eq!(thread.selected_chat_entry, Some(1));
    assert_eq!(before.command_edit_target, Some(3));
    assert!(matches!(before.mode, Mode::Command));
}

#[test]
fn canceling_inline_command_removes_placeholder_entry() {
    let mut app = app(vec![two_turns(Some(0))], Mode::Normal, 3);

    open_inline_command_relative(&mut app, InlinePosition::After);
    cancel_inline_command_insert(&mut app);

    let thread = &app.threads[0];
    assert_eq!(thread.history.len(), 2);
    assert_eq!(thread.selected_chat_entry, Some(0));
    assert!(app.inline_command_placeholder.is_none());
}

#[test]
fn normalize_selection_completes_loaded_model_spinners() {
    let mut thread = thread(
        1,
        "m",
        vec![item(
            1,
            HistoryEntry::LoadingModel {
                model_id: String::from("m"),
                status: Some(ModelLoadStatus::Loading { started_at: 0 }),
            },
        )],
        None,
    );
    thread.loaded_models = ModelSet::of("m");

    normalize_selection(&mut thread);

    assert!(matches!(
        thread.history[0].entry,
        HistoryEntry::LoadingModel {
            status: Some(ModelLoadStatus::Loaded),
            ..
        }
    ));
}

#[test]
fn named_tabs_keep_their_names() {
    let mut named = thread(2, "smollm2", vec![], None);
    named.name_override = Some(String::from("notes"));
    assert_eq!(
        tab_labels(&vec![
            thread(1, "smollm2", vec![], None),
            named,
            thread(3, "qwen3.5", vec![], None)
        ]),
        vec!["smollm2", "notes", "qwen3.5"]
    );
}

#[test]
fn a_prompt_goes_to_its_model_and_comes_back() {
    let registry = RuntimeRegistry::defaults();
    let tools = default_tools();
    let mut app = AppState::new(&registry, "smollm2", true);

    let (thread_index, job, request) = match type_line(&mut app, "  hi there ") {
        Effect::StartStream {
            thread_index,
            job,
            turn,
        } => (thread_index, job, turn),
        other => panic!("unexpected effect: {other:?}"),
    };
    assert_eq!(prompts(&app), vec!["(loading)", "hi there"]);
    assert_eq!(request.config.model_id, "smollm2");
    assert_eq!(request.request.max_tokens, 2048);
    assert_eq!(request.request.messages[0].role, ChatRole::System);
    assert_eq!(request.request.messages[1].role, ChatRole::User);
    assert_eq!(request.request.messages[1].content, "hi there");
    assert_eq!(request.request.messages.len(), 2);

    assert!(matches!(
        resume_stream(&mut app, thread_index, job, Ok(9)),
        Effect::Continue
    ));
    assert!(active_thread(&app).running_job);

    let tab_id = active_thread(&app).tab_id;
    let id = job.assistant_entry_id;
    handle_job_event(
        JobEvent::Status {
            tab_id,
            assistant_entry_id: id,
            status: RuntimeStatus::Generating {
                config_id: String::from("smollm2"),
            },
        },
        &mut app,
        &tools,
        7,
    );
    assert!(active_thread(&app).loaded_models.contains("smollm2"));
    assert!(matches!(
        active_thread(&app).history[0].entry,
        HistoryEntry::LoadingModel {
            status: Some(ModelLoadStatus::Loaded),
            ..
        }
    ));

    handle_job_event(
        JobEvent::Complete {
            tab_id,
            assistant_entry_id: id,
            markdown: ParsedMarkdown {
                blocks: text_blocks("hello"),
                tool_call_detected: true,
            },
            callouts: vec![String::from("tools: search_docs")],
        },
        &mut app,
        &tools,
        8,
    );
    assert!(!active_thread(&app).running_job);
    match &active_thread(&app).history[1].entry {
        HistoryEntry::Assistant {
            blocks,
            callouts,
            status,
            ..
        } => {
            assert_eq!(blocks_to_raw_text(blocks), "hello");
            assert_eq!(callouts, &vec!["tool called", "tools: search_docs"]);
            assert_eq!(*status, None);
        }
        other => panic!("unexpected entry: {other:?}"),
    }
}

#[test]
fn editing_a_prompt_queues_it_and_all_later_turns() {
    let mut app = app(vec![two_turns(Some(0))], Mode::Normal, 3);
    app.threads[0].connections = ModelSet::of("smollm2");
    app.threads[0].loaded_models = ModelSet::of("m");

    handle(&mut app, press(Key::Char('i')));
    assert_eq!(app.mode, Mode::Insert);
    assert_eq!(active_thread(&app).draft, "first");
    handle(&mut app, press(Key::Char('!')));
    // The models are not among the known ones, so the first turn cannot be asked
    // for; it leaves the queue all the same.
    assert!(matches!(
        handle(&mut app, press(Key::Enter)),
        Effect::Fail(_)
    ));
    assert_eq!(prompts(&app), vec!["first!", "second"]);
    assert_eq!(queue(&app), vec![2]);
    for entry in &active_thread(&app).history {
        assert!(matches!(
            &entry.entry,
            HistoryEntry::Assistant { blocks, status: Some(AssistantStatus::Queued { started_at: 5 }), .. }
                if blocks.is_empty()
        ));
    }
}

#[test]
fn editing_back_asks_what_was_asked() {
    let mut app = app(vec![two_turns(Some(0))], Mode::Normal, 3);
    app.threads[0].loaded_models = ModelSet::of("m");
    handle(&mut app, press(Key::Char('i')));
    handle(&mut app, press(Key::Char('x')));
    handle(&mut app, press(Key::Enter));
    assert_eq!(prompts(&app), vec!["firstx", "second"]);
    handle(&mut app, press(Key::Esc));
    handle(&mut app, press(Key::Char('i')));
    handle(&mut app, press(Key::Backspace));
    handle(&mut app, press(Key::Enter));
    assert_eq!(prompts(&app), vec!["first", "second"]);
}

#[test]
fn deleting_is_confirmed_and_replays_what_follows() {
    let mut app = app(vec![two_turns(Some(0))], Mode::Normal, 3);
    app.threads[0].running_job = true;
    handle(&mut app, press(Key::Char('d')));
    assert_eq!(app.mode, Mode::ConfirmDelete);
    handle(&mut app, press(Key::Char('n')));
    assert_eq!(prompts(&app), vec!["first", "second"]);
    handle(&mut app, press(Key::Char('d')));
    handle(&mut app, press(Key::Char('y')));
    assert_eq!(app.mode, Mode::Normal);
    assert_eq!(prompts(&app), vec!["(loading)", "second"]);
    assert_eq!(queue(&app), vec![2]);
}

#[test]
fn loading_entries_get_new_numbers() {
    let mut app = app(vec![two_turns(Some(0))], Mode::Normal, 3);
    app.threads[0].running_job = true;
    handle(&mut app, press(Key::Char('i')));
    handle(&mut app, press(Key::Enter));
    assert_eq!(
        prompts(&app),
        vec!["(loading)", "first", "(loading)", "second"]
    );
    let ids: Vec<_> = active_thread(&app)
        .history
        .iter()
        .map(|item| item.id)
        .collect();
    assert_eq!(ids, vec![3, 1, 4, 2]);
    assert_eq!(app.next_history_id, 5);
}

#[test]
fn an_edited_command_replays_until_the_next_of_its_family() {
    let registry = RuntimeRegistry::defaults();
    let tools = default_tools();
    let command = |id: u64, enabled: bool| HistoryItem {
        id,
        entry: HistoryEntry::Command {
            raw: String::from(if enabled { "tools enable" } else { "tools disable" }),
            result: String::new(),
        },
        meta: HistoryMeta::Command(CommandKind::Tools(enabled)),
    };
    let mut thread = thread(
        1,
        "m",
        vec![
            command(1, true),
            item(2, turn("m", "a", "1")),
            command(3, true),
            item(4, turn("m", "b", "2")),
        ],
        Some(0),
    );
    thread.running_job = true;
    thread.loaded_models = ModelSet::of("m");
    let mut app = app(vec![thread], Mode::Command, 5);

    app.command_edit_target = Some(1);
    execute_command_dispatch(
        CommandDispatch::SetToolsEnabled(false),
        &mut app,
        &registry,
        &tools,
        1,
    );
    assert_eq!(queue(&app), vec![2]);
    assert!(active_thread(&app).current_config.tools_enabled);
    assert!(matches!(
        &active_thread(&app).history[3].entry,
        HistoryEntry::Assistant { blocks, .. } if blocks.len() == 1
    ));

    app.mode = Mode::Command;
    app.command_edit_target = Some(1);
    execute_command_dispatch(
        CommandDispatch::SetToolsEnabled(true),
        &mut app,
        &registry,
        &tools,
        2,
    );
    assert_eq!(prompts(&app), vec![":tools enable", "a", "b"]);
    assert_eq!(queue(&app), vec![2, 4]);
}

#[test]
fn a_break_hides_what_stands_before_it() {
    let tools = default_tools();
    let mut thread = thread(
        1,
        "smollm2",
        vec![
            item(1, turn("smollm2", "old", "answer")),
            item(2, HistoryEntry::Break),
            item(3, turn("smollm2", "new", "reply")),
            item(4, turn("smollm2", "last", "")),
        ],
        None,
    );
    if let HistoryEntry::Assistant { status, .. } = &mut thread.history[3].entry {
        *status = Some(AssistantStatus::Queued { started_at: 0 });
    }
    let request = build_request_for_turn(&thread, 4, &tools).expect("the turn is there");
    let contents: Vec<_> = request.request.messages[1..]
        .iter()
        .map(|message| (message.role, message.content.as_str()))
        .collect();
    assert_eq!(
        contents,
        vec![
            (ChatRole::User, "new"),
            (ChatRole::Assistant, "reply"),
            (ChatRole::User, "last"),
        ]
    );
    assert!(build_request_for_turn(&thread, 9, &tools).is_err());
}

#[test]
fn switching_models_opens_a_connection_first() {
    let registry = RuntimeRegistry::defaults();
    let tools = default_tools();
    let mut app = AppState::new(&registry, "smollm2", true);
    handle(&mut app, press(Key::Esc));
    handle(&mut app, press(Key::Char(':')));
    let model_id = match type_line(&mut app, "model smollm3") {
        Effect::OpenConnection {
            model_id,
            purpose: OpenPurpose::SwitchModel,
            ..
        } => model_id,
        other => panic!("unexpected effect: {other:?}"),
    };
    assert_eq!(model_id, "smollm3");
    assert!(matches!(
        resume_switch(&mut app, model_id, Ok(()), &tools, 3),
        Effect::Continue
    ));
    assert_eq!(prompts(&app), vec![":model smollm3"]);
    assert_eq!(active_thread(&app).current_config.model_id, "smollm3");
    assert!(active_thread(&app).connections.contains("smollm3"));
    assert_eq!(app.mode, Mode::Insert);
}

#[test]
fn unknown_models_are_refused_on_the_command_line() {
    let registry = RuntimeRegistry::defaults();
    let mut app = AppState::new(&registry, "smollm2", true);
    handle(&mut app, press(Key::Esc));
    handle(&mut app, press(Key::Char(':')));
    assert!(matches!(
        type_line(&mut app, "model nonsense"),
        Effect::Continue
    ));
    assert_eq!(
        app.command_palette.view().error_text,
        Some("nonsense is not a recognised model, use :model ls to show available models")
    );
    assert_eq!(app.mode, Mode::Command);
}

#[test]
fn tabs_are_added_renamed_and_killed() {
    let registry = RuntimeRegistry::defaults();
    let tools = default_tools();
    let mut app = AppState::new(&registry, "smollm2", true);
    assert!(matches!(
        resume_new_tab(&mut app, String::from("smollm3"), Ok(())),
        Effect::Continue
    ));
    assert_eq!(app.active_thread_idx, 1);
    assert_eq!(app.threads[1].tab_id, 2);
    assert_eq!(thread_index_by_tab_id(&app, 2), Some(1));

    let rename = |target: TabTarget, name: &str| CommandDispatch::RenameTab {
        target,
        new_name: name.to_string(),
    };
    execute_command_dispatch(
        rename(TabTarget::Id(2), " work "),
        &mut app,
        &registry,
        &tools,
        1,
    );
    assert_eq!(tab_labels(&app.threads), vec!["smollm2", "work"]);
    execute_command_dispatch(
        rename(TabTarget::Id(1), "work"),
        &mut app,
        &registry,
        &tools,
        1,
    );
    assert_eq!(
        app.command_palette.view().error_text,
        Some("tab name already exists: work")
    );
    execute_command_dispatch(
        rename(TabTarget::Id(1), " "),
        &mut app,
        &registry,
        &tools,
        1,
    );
    assert_eq!(
        app.command_palette.view().error_text,
        Some("tab name cannot be empty")
    );

    let killed = execute_command_dispatch(
        CommandDispatch::KillTab(TabTarget::Name(String::from("work"))),
        &mut app,
        &registry,
        &tools,
        1,
    );
    assert!(matches!(killed, Effect::CloseConnections { tab_id: 2 }));
    assert_eq!(app.active_thread_idx, 0);
    execute_command_dispatch(
        CommandDispatch::KillTab(TabTarget::Id(1)),
        &mut app,
        &registry,
        &tools,
        1,
    );
    assert_eq!(
        app.command_palette.view().error_text,
        Some("cannot kill the final remaining tab")
    );
}

#[test]
fn cycling_tabs_wraps_around() {
    let mut app = app(
        vec![
            thread(1, "a", vec![], None),
            thread(2, "b", vec![], None),
            thread(3, "c", vec![], None),
        ],
        Mode::Normal,
        1,
    );
    cycle_active_tab_relative(&mut app, -1);
    assert_eq!(app.active_thread_idx, 2);
    cycle_active_tab(&mut app);
    assert_eq!(app.active_thread_idx, 0);
    handle(&mut app, press(Key::Right));
    handle(&mut app, press(Key::Right));
    handle(&mut app, press(Key::Left));
    assert_eq!(app.active_thread_idx, 1);
}

#[test]
fn news_in_a_hidden_tab_is_marked_until_it_is_shown() {
    let tools = default_tools();
    let hidden = thread(2, "m", vec![item(1, turn("m", "q", ""))], None);
    let mut app = app(vec![thread(1, "m", vec![], None), hidden], Mode::Normal, 2);
    handle_job_event(
        JobEvent::Chunk {
            tab_id: 2,
            assistant_entry_id: 1,
            markdown: ParsedMarkdown {
                blocks: text_blocks("part"),
                tool_call_detected: false,
            },
        },
        &mut app,
        &tools,
        1,
    );
    assert!(app.threads[1].has_unseen_changes);
    assert!(!app.threads[0].has_unseen_changes);
    cycle_active_tab(&mut app);
    assert!(!app.threads[1].has_unseen_changes);
}

#[test]
fn a_failed_turn_in_a_hidden_tab_is_marked() {
    let tools = default_tools();
    let hidden = thread(2, "m", vec![item(1, turn("m", "q", ""))], None);
    let mut app = app(vec![thread(1, "m", vec![], None), hidden], Mode::Normal, 2);
    let failed = |tab_id: usize| JobEvent::Error {
        tab_id,
        assistant_entry_id: 1,
        error: String::from("runtime error: no"),
    };
    handle_job_event(failed(2), &mut app, &tools, 1);
    assert!(app.threads[1].has_unseen_changes);
    assert!(!app.threads[0].has_unseen_changes);
    assert_eq!(app.active_thread_idx, 0);
    assert_eq!(app.threads[1].history.len(), 2);
    assert!(app.threads[0].history.is_empty());
    handle_job_event(failed(1), &mut app, &tools, 1);
    assert!(!app.threads[0].has_unseen_changes);
    cycle_active_tab(&mut app);
    assert!(!app.threads[1].has_unseen_changes);
}

#[test]
fn a_failed_turn_leaves_a_notice() {
    let tools = default_tools();
    let mut app = app(vec![two_turns(None)], Mode::Normal, 3);
    app.threads[0].running_job = true;
    handle_job_event(
        JobEvent::Error {
            tab_id: 1,
            assistant_entry_id: 2,
            error: String::from("runtime error: no"),
        },
        &mut app,
        &tools,
        1,
    );
    assert_eq!(
        prompts(&app),
        vec!["first", "second", "!runtime error: no"]
    );
    assert!(!app.threads[0].running_job);
    assert_eq!(app.next_history_id, 4);
}

#[test]
fn an_interrupted_turn_without_an_answer_goes() {
    let tools = default_tools();
    let mut app = app(vec![two_turns(None)], Mode::Normal, 3);
    let ended = |blocks: Vec<MarkdownBlock>| JobEvent::Interrupted {
        tab_id: 1,
        assistant_entry_id: 2,
        markdown: ParsedMarkdown {
            blocks,
            tool_call_detected: false,
        },
    };
    handle_job_event(ended(text_blocks("so far")), &mut app, &tools, 1);
    assert_eq!(prompts(&app), vec!["first", "second"]);
    handle_job_event(ended(vec![]), &mut app, &tools, 1);
    assert_eq!(prompts(&app), vec!["first"]);
}

#[test]
fn interrupts_quit_cancel_or_stop() {
    let mut app = app(vec![two_turns(None)], Mode::Normal, 3);
    assert!(matches!(handle(&mut app, control('c')), Effect::Quit));

    app.threads[0].connections = ModelSet::of("m");
    app.threads[0].queue.push_back(ThreadJob {
        assistant_entry_id: 2,
    });
    app.threads[0].running_assistant_id = Some(2);
    if let HistoryEntry::Assistant {
        status,
        sequence_number,
        ..
    } = &mut app.threads[0].history[1].entry
    {
        *status = Some(AssistantStatus::Generating { started_at: 1 });
        *sequence_number = Some(7);
    }
    assert!(matches!(
        handle_ctrl_c(&mut app),
        Effect::Interrupt {
            sequence_number: 7,
            ..
        }
    ));
    if let HistoryEntry::Assistant {
        sequence_number, ..
    } = &mut app.threads[0].history[1].entry
    {
        *sequence_number = None;
    }
    assert!(matches!(handle_ctrl_c(&mut app), Effect::Continue));
    assert_eq!(prompts(&app), vec!["first"]);
    assert!(queue(&app).is_empty());
}

#[test]
fn jobs_wait_for_their_connection() {
    let tools = default_tools();
    let mut app = app(
        vec![thread(
            1,
            "smollm2",
            vec![item(1, turn("smollm2", "q", ""))],
            None,
        )],
        Mode::Insert,
        2,
    );
    app.threads[0].queue.push_back(ThreadJob {
        assistant_entry_id: 1,
    });
    let (index, job, request, after) = match maybe_start_next_job(&mut app, &tools, 1) {
        Effect::OpenConnection {
            thread_index,
            purpose: OpenPurpose::RunJob { job, turn, after },
            ..
        } => (thread_index, job, turn, after),
        other => panic!("unexpected effect: {other:?}"),
    };
    assert!(matches!(
        resume_job(&mut app, index, job, request, after, Ok(()), 2),
        Effect::StartStream { .. }
    ));
    assert!(active_thread(&app).connections.contains("smollm2"));
    assert!(matches!(
        resume_stream(&mut app, index, job, Err(String::from("gone"))),
        Effect::ReportError { error, .. } if error == "runtime error: gone"
    ));
    assert_eq!(queue(&app), vec![1]);
}

/// Answers an effect that asks for a connection.
fn connect(app: &mut AppState, effect: Effect, opened: Result<(), String>) -> Effect {
    match effect {
        Effect::OpenConnection {
            thread_index,
            purpose: OpenPurpose::RunJob { job, turn, after },
            ..
        } => resume_job(app, thread_index, job, turn, after, opened, 9),
        other => panic!("unexpected effect: {other:?}"),
    }
}

fn unconnected(mode: Mode) -> AppState {
    let history = vec![
        HistoryItem {
            id: 1,
            entry: HistoryEntry::Command {
                raw: String::from("tools enable"),
                result: String::new(),
            },
            meta: HistoryMeta::Command(CommandKind::Tools(true)),
        },
        item(2, turn("smollm2", "first", "one")),
        item(3, turn("smollm2", "second", "two")),
    ];
    app(vec![thread(1, "smollm2", history, None)], mode, 4)
}

#[test]
fn an_edited_prompt_is_done_once_its_turn_is_sent() {
    let edited = || {
        let mut app = unconnected(Mode::Insert);
        app.threads[0].compose_target = ComposeTarget::EditEntry(3);
        let effect = submit_chat_turn(&mut app, String::from("new"), &default_tools(), 5);
        assert_eq!(active_thread(&app).compose_target, ComposeTarget::EditEntry(3));
        (app, effect)
    };
    let (mut app, effect) = edited();
    assert!(matches!(
        connect(&mut app, effect, Err(String::from("gone"))),
        Effect::Fail(message) if message == "gone"
    ));
    assert_eq!(active_thread(&app).compose_target, ComposeTarget::EditEntry(3));
    let (mut app, effect) = edited();
    assert!(matches!(
        connect(&mut app, effect, Ok(())),
        Effect::StartStream { .. }
    ));
    assert_eq!(active_thread(&app).compose_target, ComposeTarget::AppendBottom);
}

#[test]
fn a_deletion_is_over_once_its_turn_is_sent() {
    let deleted = || {
        let mut app = unconnected(Mode::ConfirmDelete);
        app.delete_target_id = Some(2);
        let effect = handle(&mut app, press(Key::Char('y')));
        assert_eq!(app.mode, Mode::ConfirmDelete);
        assert_eq!(app.delete_target_id, None);
        (app, effect)
    };
    let (mut app, effect) = deleted();
    assert!(matches!(
        connect(&mut app, effect, Err(String::from("gone"))),
        Effect::Fail(_)
    ));
    assert_eq!(app.mode, Mode::ConfirmDelete);
    let (mut app, effect) = deleted();
    connect(&mut app, effect, Ok(()));
    assert_eq!(app.mode, Mode::Normal);

    // Where nothing is to be sent, it is over at once.
    let mut app = unconnected(Mode::ConfirmDelete);
    app.delete_target_id = Some(7);
    assert!(matches!(
        handle(&mut app, press(Key::Char('y'))),
        Effect::Continue
    ));
    assert_eq!(app.mode, Mode::Normal);
}

#[test]
fn an_edited_command_is_done_once_its_turn_is_sent() {
    let edited = || {
        let mut app = unconnected(Mode::Command);
        app.command_edit_target = Some(1);
        let effect = execute_command_dispatch(
            CommandDispatch::SetToolsEnabled(false),
            &mut app,
            &RuntimeRegistry::defaults(),
            &default_tools(),
            5,
        );
        assert_eq!(app.mode, Mode::Command);
        assert_eq!(app.command_edit_target, None);
        (app, effect)
    };
    let (mut app, effect) = edited();
    connect(&mut app, effect, Err(String::from("gone")));
    assert_eq!(app.mode, Mode::Command);
    let (mut app, effect) = edited();
    connect(&mut app, effect, Ok(()));
    assert_eq!(app.mode, Mode::Insert);
}

#[test]
fn a_turn_that_cannot_be_asked_for_leaves_the_rest_undone() {
    let mut app = unconnected(Mode::Insert);
    app.threads[0].base_config.model_id = String::from("none");
    app.threads[0].compose_target = ComposeTarget::EditEntry(3);
    assert!(matches!(
        submit_chat_turn(&mut app, String::from("new"), &default_tools(), 5),
        Effect::Fail(message) if message == "unknown runtime config"
    ));
    assert_eq!(active_thread(&app).compose_target, ComposeTarget::EditEntry(3));
}

#[test]
fn the_selection_moves_and_is_copied() {
    let mut app = app(vec![two_turns(None)], Mode::Normal, 3);
    handle(&mut app, press(Key::Char('k')));
    assert_eq!(active_thread(&app).selected_chat_entry, Some(0));
    assert_eq!(active_thread(&app).scroll_anchor, ScrollAnchor::Top);
    handle(&mut app, InputEvent::Mouse(MouseMotion::ScrollDown));
    handle(&mut app, InputEvent::Mouse(MouseMotion::ScrollDown));
    assert_eq!(active_thread(&app).selected_chat_entry, Some(1));
    assert_eq!(active_thread(&app).scroll_anchor, ScrollAnchor::Bottom);
    assert!(matches!(
        handle(&mut app, press(Key::Char('y'))),
        Effect::CopyText(text) if text == "assistant m:\nsecond\n\ntwo"
    ));
    resume_copy(&mut app, Err(String::from("busy")));
    assert_eq!(prompts(&app)[2], "!clipboard error: busy");
    assert_eq!(clipboard_text(&[HistoryEntry::Break], 0), "break");
    assert_eq!(clipboard_text(&[], 0), "");
}
