use kablam::command_palette::{
    CommandDispatch, CommandPaletteView, CommandSuggestion,
};
use kablam::draw::{DrawCommand, FrameSpec, ParagraphSpec};
use kablam::history::{
    AssistantStatus, BlockKind, HistoryEntry, MarkdownBlock, Mode, ScrollAnchor,
};
use kablam::markdown::{
    expand_tabs, expand_tabs_lines, fenced_code_body, render_markdown_blocks, SyntaxAssets,
};
use kablam::runtime::RuntimeRegistry;
use kablam::screen::{
    command_palette_layout, overlay_centered, prompt_box_height, prompt_cursor,
    prompt_visible_text, redraw, render_command_palette_overlay, render_footer, render_tabs,
    tab_render_info, TabRenderInfo,
};
use kablam::session::AppState;
use kablam::style::{Color, Rect, StyledLine, StyledSpan, TextStyle};
use kablam::transcript::{
    build_model_list, render_history_viewport, spinner_frame, wrapped_cursor_position,
    HistoryScrollState, PromptCursor,
};
use ratatui::buffer::Buffer;
use ratatui::text::{Line, Span};
use ratatui::widgets::{Block, Borders, Paragraph, Tabs, Widget, Wrap};

fn place(area: Rect) -> ratatui::layout::Rect {
    ratatui::layout::Rect::new(area.x, area.y, area.width, area.height)
}

fn block(frame: FrameSpec) -> Block<'static> {
    let block = match frame.title {
        Some(title) => Block::default().title(title),
        None => Block::default(),
    };
    if frame.bordered {
        block.borders(Borders::ALL)
    } else {
        block
    }
}

fn line(line: StyledLine) -> Line<'static> {
    let spans: Vec<_> = line
        .spans
        .into_iter()
        .map(|span| Span::raw(span.text))
        .collect();
    Line::from(spans)
}

fn paragraph(paragraph: ParagraphSpec) -> Paragraph<'static> {
    let lines: Vec<_> = paragraph.lines.into_iter().map(line).collect();
    let mut widget = Paragraph::new(lines).scroll((paragraph.scroll, 0));
    if let Some(frame) = paragraph.frame {
        widget = widget.block(block(frame));
    }
    if paragraph.wrap {
        widget = widget.wrap(Wrap { trim: false });
    }
    widget
}

fn paint(commands: Vec<DrawCommand>, area: Rect) -> Vec<String> {
    let mut buf = Buffer::empty(place(area));
    for command in commands {
        match command {
            DrawCommand::Paragraph {
                paragraph: text,
                area,
            } => paragraph(text).render(place(area), &mut buf),
            DrawCommand::Divider { area } => {
                Paragraph::new("-".repeat(area.width as usize)).render(place(area), &mut buf)
            }
            DrawCommand::Frame { frame, area } => block(frame).render(place(area), &mut buf),
            DrawCommand::Tabs {
                titles,
                frame,
                selected,
                area,
                ..
            } => Tabs::new(titles)
                .block(block(frame))
                .select(selected)
                .render(place(area), &mut buf),
            DrawCommand::Cursor { .. } => {}
        }
    }
    (0..area.height)
        .map(|row| {
            (0..area.width)
                .map(|column| buf[(column, row)].symbol())
                .collect::<String>()
        })
        .collect()
}

fn contains(rows: &[String], needle: &str) -> bool {
    rows.join("\n").contains(needle)
}

fn row_of(rows: &[String], needle: &str) -> usize {
    rows.iter()
        .position(|row| row.contains(needle))
        .unwrap_or(usize::MAX)
}

fn plain(text: &str) -> StyledLine {
    StyledLine::of(text, TextStyle::plain())
}

fn text_of(line: &StyledLine) -> String {
    line.spans.iter().map(|span| span.text.as_str()).collect()
}

fn answer(prompt: &str, blocks: Vec<MarkdownBlock>) -> HistoryEntry {
    HistoryEntry::Assistant {
        model_id: String::from("m"),
        prompt: prompt.to_string(),
        blocks,
        callouts: vec![String::from("note")],
        status: None,
        sequence_number: None,
    }
}

fn cursors(commands: &[DrawCommand]) -> Vec<(u16, u16)> {
    commands
        .iter()
        .filter_map(|command| match command {
            DrawCommand::Cursor { x, y } => Some((*x, *y)),
            _ => None,
        })
        .collect()
}

#[test]
fn can_expand_tabs() {
    let mut lines = vec![plain("\t\t\t")];
    expand_tabs_lines(&mut lines, 2);

    assert_eq!(lines, vec![plain(&" ".repeat(6))]);

    let mut lines = vec![plain("hello\tworld\t!")];
    expand_tabs_lines(&mut lines, 1);

    assert_eq!(lines, vec![plain("hello world !")]);
}

#[test]
fn tabs_fill_up_to_the_next_stop() {
    let mut lines = vec![plain("a\tb"), plain("ab\tc")];
    expand_tabs_lines(&mut lines, 4);
    assert_eq!(lines, vec![plain("a   b"), plain("ab  c")]);
}

#[test]
fn tabs_are_expanded_from_a_column_to_a_column() {
    let mut col = 5;
    assert_eq!(expand_tabs("a\tb", 4, &mut col), "a  b");
    assert_eq!(col, 9);
    assert_eq!(expand_tabs("\t", 4, &mut col), "   ");
    assert_eq!(col, 12);
    assert_eq!(expand_tabs("x\ny", 4, &mut col), "x\ny");
    assert_eq!(col, 1);

    // Two pieces in turn are expanded as both together.
    let (mut in_turn, mut at_once) = (3, 3);
    let pieces = expand_tabs("a\t", 4, &mut in_turn) + &expand_tabs("\tb", 4, &mut in_turn);
    assert_eq!(pieces, expand_tabs("a\t\tb", 4, &mut at_once));
    assert_eq!((in_turn, at_once), (13, 13));
}

#[test]
fn columns_count_over_all_spans_of_a_line() {
    let spans = |first: &str, second: &str| StyledLine {
        spans: vec![
            StyledSpan::new(first, TextStyle::plain()),
            StyledSpan::new(second, TextStyle::plain().bold()),
        ],
    };
    let mut lines = vec![spans("abc", "\td"), spans("ab\n", "c\t\td")];
    expand_tabs_lines(&mut lines, 4);
    assert_eq!(lines, vec![spans("abc", " d"), spans("ab\n", "c       d")]);
}

#[test]
fn command_palette_overlay_renders_error_box_above_command_box() {
    let area = Rect::new(0, 0, 60, 18);
    let suggestions = vec![CommandSuggestion {
        display: String::from("model ls"),
        dispatch: CommandDispatch::ListModels,
    }];
    let view = CommandPaletteView {
        draft: "model bad",
        preview_text: None,
        suggestions: &suggestions,
        highlighted: None,
        error_text: Some("unknown model"),
        has_error: true,
    };

    let mut commands = Vec::new();
    render_command_palette_overlay(&mut commands, area, view);
    let rows = paint(commands, area);

    assert!(contains(&rows, "error"));
    assert!(contains(&rows, "unknown model"));
    assert!(contains(&rows, "cmd"));
    assert!(row_of(&rows, "unknown model") < row_of(&rows, "cmd"));
}

#[test]
fn tabs_render_in_header() {
    let area = Rect::new(0, 0, 60, 4);
    let mut commands = Vec::new();
    render_tabs(
        &mut commands,
        area,
        &[
            TabRenderInfo {
                label: String::from("1. smollm2"),
                has_unseen: false,
            },
            TabRenderInfo {
                label: String::from("2. qwen"),
                has_unseen: false,
            },
        ],
        1,
    );
    let rows = paint(commands, area);

    assert!(contains(&rows, "1. smollm2"));
    assert!(contains(&rows, "2. qwen"));
}

#[test]
fn unseen_tabs_have_a_star() {
    let area = Rect::new(0, 0, 60, 3);
    let mut commands = Vec::new();
    render_tabs(
        &mut commands,
        area,
        &[TabRenderInfo {
            label: String::from("1. a"),
            has_unseen: true,
        }],
        7,
    );
    assert!(matches!(
        &commands[0],
        DrawCommand::Tabs { titles, selected: 0, .. } if titles == &vec!["1. a *"]
    ));
}

#[test]
fn break_entry_is_rendered_distinctly() {
    let area = Rect::new(0, 0, 40, 6);
    let assets = SyntaxAssets::load();
    let mut commands = Vec::new();
    render_history_viewport(
        &mut commands,
        area,
        &mut HistoryScrollState::default(),
        &[HistoryEntry::Break],
        Some(0),
        "",
        false,
        ScrollAnchor::Bottom,
        &vec![],
        &assets,
        0,
    );
    let rows = paint(commands, area);

    assert!(contains(&rows, "history disconnected here"));
}

#[test]
fn the_selected_entry_is_scrolled_into_view() {
    let area = Rect::new(0, 0, 20, 3);
    let assets = SyntaxAssets::load();
    let entries: Vec<_> = (0..5)
        .map(|n| HistoryEntry::SystemNotice(format!("note {n}")))
        .collect();
    let mut scroll = HistoryScrollState::default();
    let mut show = |selected: Option<usize>, anchor: ScrollAnchor| {
        let mut commands = Vec::new();
        render_history_viewport(
            &mut commands,
            area,
            &mut scroll,
            &entries,
            selected,
            "",
            false,
            anchor,
            &vec![],
            &assets,
            0,
        );
        (paint(commands, area), scroll.offset)
    };
    // Every entry has two lines, and there is a line between two of them.
    let (rows, offset) = show(None, ScrollAnchor::Bottom);
    assert_eq!(offset, 11);
    assert!(contains(&rows, "note 4"));
    let (rows, offset) = show(Some(0), ScrollAnchor::Top);
    assert_eq!(offset, 0);
    assert!(contains(&rows, "note 0"));
    let (rows, offset) = show(Some(1), ScrollAnchor::Bottom);
    assert_eq!(offset, 2);
    assert!(contains(&rows, "note 1"));
    let (_, offset) = show(Some(1), ScrollAnchor::Top);
    assert_eq!(offset, 2);
}

#[test]
fn a_prompt_is_edited_in_place() {
    let area = Rect::new(0, 0, 12, 4);
    let assets = SyntaxAssets::load();
    let mut commands = Vec::new();
    render_history_viewport(
        &mut commands,
        area,
        &mut HistoryScrollState::default(),
        &[answer("old", vec![])],
        Some(0),
        "new text",
        true,
        ScrollAnchor::Bottom,
        &vec![],
        &assets,
        0,
    );
    // The text is six columns wide: it fills one row and two columns of the next.
    assert_eq!(cursors(&commands), vec![(2, 3)]);
    let rows = paint(commands, area);
    assert!(contains(&rows, "> new text"));
    assert!(!contains(&rows, "old"));
}

#[test]
fn cursors_follow_wrapped_text() {
    let at = |text: &str, width: u16| wrapped_cursor_position(text, width, 0);
    assert_eq!(at("", 5), PromptCursor { row: 0, column: 0 });
    assert_eq!(at("abc", 5), PromptCursor { row: 0, column: 3 });
    assert_eq!(at("abcde", 5), PromptCursor { row: 1, column: 0 });
    assert_eq!(at("abcdef\n\nxy", 5), PromptCursor { row: 3, column: 2 });
    assert_eq!(at("ab", 0), PromptCursor { row: 2, column: 0 });
}

#[test]
fn answers_are_shown_with_prompt_model_and_callouts() {
    let assets = SyntaxAssets::load();
    let entries = [answer(
        "ask",
        vec![
            MarkdownBlock {
                kind: BlockKind::Paragraph,
                raw: String::from("one\ntwo\n\n"),
                display: None,
            },
            MarkdownBlock {
                kind: BlockKind::CodeFence,
                raw: String::from("```rs\nlet a\t= 1;\n```\n"),
                display: None,
            },
        ],
    )];
    let models = build_model_list(&entries);
    assert_eq!(models, vec!["m"]);
    let lines = entries[0].paragraph(false, &models, &assets, 0);
    let texts: Vec<_> = lines.iter().map(text_of).collect();
    assert_eq!(
        texts,
        vec!["ask", "", "m", "", "one", "two", "", "let a = 1;", "", "note"]
    );
    assert_eq!(lines[2].spans[0].style.fg, Some(Color::Blue));
    assert!(lines[7].spans.len() > 1);
    assert!(lines[7]
        .spans
        .iter()
        .all(|span| matches!(span.style.fg, Some(Color::Rgb(_, _, _)))));
}

#[test]
fn code_in_an_unknown_language_is_shown_as_it_is() {
    let assets = SyntaxAssets::load();
    let block = MarkdownBlock {
        kind: BlockKind::CodeFence,
        raw: String::from("```nosuchlanguage\nx\n```"),
        display: None,
    };
    let lines = render_markdown_blocks(&assets, &vec![block], TextStyle::plain());
    let texts: Vec<_> = lines.iter().map(text_of).collect();
    assert_eq!(texts, vec!["```nosuchlanguage", "x", "```"]);
    assert_eq!(fenced_code_body("```\na\nb\n```"), "a\nb");
    assert_eq!(fenced_code_body("```\na"), "a");
    assert_eq!(fenced_code_body("```"), "");
}

#[test]
fn running_turns_show_a_spinner() {
    let assets = SyntaxAssets::load();
    let entry = HistoryEntry::Assistant {
        model_id: String::from("m"),
        prompt: String::from("p"),
        blocks: vec![],
        callouts: vec![],
        status: Some(AssistantStatus::Generating { started_at: 1000 }),
        sequence_number: None,
    };
    let lines = entry.paragraph(true, &vec![], &assets, 3250);
    assert_eq!(text_of(&lines[4]), "- generating... 2s");
    assert!(lines[4].spans[0].style.reversed);
    assert_eq!(
        (spinner_frame(0), spinner_frame(100), spinner_frame(399)),
        ("|", "/", "\\")
    );
}

#[test]
fn footers_show_the_prompt_and_the_mode() {
    let area = Rect::new(0, 0, 20, 4);
    let mut commands = Vec::new();
    render_footer(&mut commands, area, Mode::Insert, "hello", false);
    assert_eq!(cursors(&commands), vec![(7, 1)]);
    let rows = paint(commands, area);
    assert!(contains(&rows, "prompt"));
    assert!(contains(&rows, "> hello"));
    assert!(rows[3].starts_with("-- INSERT --"));

    let mut commands = Vec::new();
    render_footer(&mut commands, Rect::new(0, 0, 20, 1), Mode::Normal, "", false);
    assert!(paint(commands, Rect::new(0, 0, 20, 1))[0].starts_with("-- NORMAL --"));

    assert_eq!(prompt_visible_text("abcdef", 6, true), "def");
    assert_eq!(prompt_visible_text("abcdef", 6, false), "bcdef");
    assert_eq!(prompt_visible_text("abc", 0, true), "");
    assert_eq!((prompt_box_height(2), prompt_box_height(3)), (1, 3));
    assert_eq!(prompt_cursor(Rect::new(2, 2, 10, 1), "ab", 1), (5, 2));
}

#[test]
fn the_palette_is_centered_and_as_wide_as_it_needs() {
    let view = CommandPaletteView {
        draft: "q",
        preview_text: None,
        suggestions: &[],
        highlighted: None,
        error_text: None,
        has_error: false,
    };
    let layout = command_palette_layout(Rect::new(0, 0, 60, 19), view).expect("there is room");
    assert_eq!(layout.box_area, Rect::new(18, 8, 24, 3));
    assert_eq!(layout.list_area, Rect::new(18, 11, 24, 0));
    assert!(command_palette_layout(Rect::new(0, 0, 5, 19), view).is_none());
    assert_eq!(
        overlay_centered(Rect::new(0, 3, 60, 17), "Confirmation: delete message [y/n]"),
        Rect::new(11, 14, 38, 3)
    );
}

#[test]
fn the_whole_screen_is_drawn() {
    let registry = RuntimeRegistry::defaults();
    let assets = SyntaxAssets::load();
    let mut app = AppState::new(&registry, "smollm2", true);
    let area = Rect::new(0, 0, 60, 20);
    let mut scroll = HistoryScrollState::default();
    assert_eq!(tab_render_info(&app.threads)[0].label, "1. smollm2");

    let rows = paint(redraw(&app, area, &mut scroll, &assets, 0), area);
    assert!(rows[0].contains("threads"));
    assert!(rows[1].contains("1. smollm2"));
    assert!(rows[3].contains("history"));
    assert!(contains(&rows, "prompt"));
    assert!(rows[19].starts_with("-- INSERT --"));

    app.mode = Mode::ConfirmDelete;
    let rows = paint(redraw(&app, area, &mut scroll, &assets, 0), area);
    assert!(contains(&rows, "Confirmation: delete message [y/n]"));
    assert!(rows[19].starts_with("-- CONFIRM --"));

    app.mode = Mode::Command;
    app.command_palette.open();
    let rows = paint(redraw(&app, area, &mut scroll, &assets, 0), area);
    assert!(contains(&rows, "cmd"));
    assert!(contains(&rows, "model "));
    assert!(redraw(&app, Rect::new(0, 0, 0, 20), &mut scroll, &assets, 0).is_empty());
}

#[test]
fn code_is_highlighted_in_the_language_of_its_fence() {
    let assets = SyntaxAssets::load();
    let shown = |opening: &str, code: &str| {
        assets.highlight_codeblock(&MarkdownBlock {
            kind: BlockKind::CodeFence,
            raw: format!("{opening}\n{code}\n```"),
            display: None,
        })
    };
    let code = "let a = 1;\n/* one\ntwo */ let b = 2;";
    let lines = shown("```rs", code);
    let texts: Vec<_> = lines.iter().map(text_of).collect();
    assert_eq!(texts, vec!["let a = 1;", "/* one", "two */ let b = 2;"]);
    assert!(lines[0].spans.len() > 1);

    // By extension, by name, and however the fence is written.
    assert_eq!(shown("```Rust", code), lines);
    assert_eq!(shown("~~~ rs more", code), lines);
    assert_eq!(shown("   `````rs", code), lines);
    assert_ne!(shown("    ```rs", code), lines);
    assert_ne!(shown("```", code), lines);
    assert_ne!(shown("```py", code), lines);
    let texts: Vec<_> = shown("```nonsense", "a").iter().map(text_of).collect();
    assert_eq!(texts, vec!["```nonsense", "a", "```"]);

    // A comment goes on in the next line.
    assert_eq!(lines[2].spans[0].style.fg, lines[1].spans[0].style.fg);
    let alone = shown("```rs", "two */ let b = 2;");
    assert_ne!(alone[0].spans[0].style.fg, lines[1].spans[0].style.fg);
}
