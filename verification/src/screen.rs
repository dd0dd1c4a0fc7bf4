//! The screen: the conversations in a header, the one that is shown, a footer, and
//! what floats above.

use vstd::prelude::*;
use vstd::string::*;

use crate::app_model::AppModel;
use crate::command_palette::{
    suggestion_views, CommandPaletteView, CommandSuggestion, PaletteShown, SuggestionView,
};
use crate::draw::{
    draw_views, push_command, DrawCommand, DrawView, FrameSpec, FrameView, ParagraphSpec,
    ParagraphView, WIDEST_TEXT,
};
use crate::history::{entry_models, HistoryEntry, ItemModel, Mode, ScrollAnchor};
use crate::markdown::{line_text, SyntaxAssets};
use crate::session::{active_thread, AppState};
use crate::style::{
    line_views, one_span, plain_style, Color, LineView, Rect, SpanView, StyledLine, StyledSpan,
    TextStyle,
};
use crate::text::{
    chars_of, decimal, decimal_text, has_prefix, joined, joined3, starts_with, str_option, text_of,
    texts,
};
use crate::thread::{
    history_entries, labels_of, tab_labels, thread_models, ComposeTarget, ThreadModel, ThreadState,
};
use crate::transcript::{
    build_model_list, greatest, gutter, least, models_met, render_history_viewport,
    HistoryScrollState, TranscriptModel,
};

verus! {

/// What the header shows of a conversation.
#[derive(Debug, PartialEq, Eq)]
pub struct TabRenderInfo {
    pub label: String,
    pub has_unseen: bool,
}

/// What the header shows of a conversation, by its contents.
pub struct TabView {
    pub label: Seq<char>,
    pub has_unseen: bool,
}

impl View for TabRenderInfo {
    type V = TabView;

    open spec fn view(&self) -> TabView {
        TabView { label: self.label@, has_unseen: self.has_unseen }
    }
}

/// What the header shows of a list of conversations.
pub open spec fn tab_views(tabs: Seq<TabRenderInfo>) -> Seq<TabView> {
    tabs.map_values(|tab: TabRenderInfo| tab@)
}

/// What the header shows of the conversations: their numbers and names, and
/// whether there is something new in them.
pub open spec fn tabs_of(threads: Seq<ThreadModel>) -> Seq<TabView> {
    Seq::new(
        threads.len(),
        |at: int|
            TabView {
                label: decimal(threads[at].tab_id as nat) + ". "@ + labels_of(threads)[at],
                has_unseen: threads[at].has_unseen_changes,
            },
    )
}

/// What the header shows of the conversations.
pub fn tab_render_info(threads: &Vec<ThreadState>) -> (tabs: Vec<TabRenderInfo>)
    ensures
        tab_views(tabs@) == tabs_of(thread_models(threads@)),
{
    let ghost all = thread_models(threads@);
    let labels = tab_labels(threads);
    let len: usize = threads.len();
    let mut tabs: Vec<TabRenderInfo> = Vec::new();
    let mut i: usize = 0;
    assert(labels@.len() == len) by {
        assert(texts(labels@).len() == len);
    }
    while i < len
        invariant
            i <= len == threads@.len() == labels@.len(),
            all == thread_models(threads@),
            texts(labels@) == labels_of(all),
            tabs@.len() == i,
            forall|k: int| 0 <= k < i ==> #[trigger] tabs@[k]@ == tabs_of(all)[k],
        decreases len - i,
    {
        proof {
            assert(all[i as int] == threads@[i as int]@);
            assert(texts(labels@)[i as int] == labels@[i as int]@);
        }
        let number = decimal_text(threads[i].tab_id as u64);
        tabs.push(
            TabRenderInfo {
                label: joined3(number.as_str(), ". ", labels[i].as_str()),
                has_unseen: threads[i].has_unseen_changes,
            },
        );
        i = i + 1;
    }
    assert(tab_views(tabs@) =~= tabs_of(all));
    tabs
}

/// A frame with borders and a title.
pub open spec fn titled(title: Seq<char>) -> FrameView {
    FrameView {
        title: Some(title),
        bordered: true,
        style: plain_style(),
        border_style: plain_style(),
    }
}

/// A frame with borders and a title.
fn titled_frame(title: &str) -> (frame: FrameSpec)
    ensures
        frame@ == titled(title@),
{
    FrameSpec {
        title: Some(title.to_string()),
        bordered: true,
        style: TextStyle::plain(),
        border_style: TextStyle::plain(),
    }
}

/// Lines that are not wrapped, without a frame.
pub open spec fn unwrapped(lines: Seq<LineView>) -> ParagraphView {
    ParagraphView { lines, wrap: false, frame: None, scroll: 0 }
}

/// A line that is not wrapped, without a frame.
fn one_line(line: StyledLine) -> (paragraph: ParagraphSpec)
    ensures
        paragraph@ == unwrapped(seq![line@]),
{
    let lines = vec![line];
    assert(line_views(lines@) =~= seq![line@]);
    ParagraphSpec { lines, wrap: false, frame: None, scroll: 0 }
}

/// The title of a conversation in the header: a star marks something new.
pub open spec fn tab_title(tab: TabView) -> Seq<char> {
    if tab.has_unseen {
        tab.label + " *"@
    } else {
        tab.label
    }
}

/// A style in bold and in a colour.
pub open spec fn bold_in(color: Color) -> TextStyle {
    TextStyle { fg: Some(color), bold: true, ..plain_style() }
}

/// What is drawn of the header.
pub open spec fn tabs_drawn(area: Rect, tabs: Seq<TabView>, active_tab: usize) -> Seq<DrawView> {
    if area.width == 0 || area.height == 0 {
        Seq::empty()
    } else {
        seq![
            DrawView::Tabs {
                titles: tabs.map_values(|tab: TabView| tab_title(tab)),
                frame: titled("threads"@),
                highlight: bold_in(Color::Cyan),
                selected: least(active_tab as int, greatest(tabs.len() - 1, 0)) as usize,
                area,
            },
        ]
    }
}

/// Draws the header.
pub fn render_tabs(
    commands: &mut Vec<DrawCommand>,
    area: Rect,
    tabs: &[TabRenderInfo],
    active_tab: usize,
)
    ensures
        draw_views(final(commands)@) == draw_views(old(commands)@) + tabs_drawn(
            area,
            tab_views(tabs@),
            active_tab,
        ),
{
    let ghost before = draw_views(commands@);
    if area.width == 0 || area.height == 0 {
        assert(before =~= before + Seq::<DrawView>::empty());
        return;
    }
    let ghost all = tab_views(tabs@);
    let len: usize = tabs.len();
    let mut titles: Vec<String> = Vec::new();
    let mut i: usize = 0;
    while i < len
        invariant
            i <= len == tabs@.len(),
            all == tab_views(tabs@),
            titles@.len() == i,
            forall|k: int| 0 <= k < i ==> #[trigger] titles@[k]@ == tab_title(all[k]),
        decreases len - i,
    {
        assert(all[i as int] == tabs@[i as int]@);
        titles.push(
            if tabs[i].has_unseen {
                joined(tabs[i].label.as_str(), " *")
            } else {
                tabs[i].label.clone()
            },
        );
        i = i + 1;
    }
    assert(texts(titles@) =~= all.map_values(|tab: TabView| tab_title(tab)));
    let last: usize = if len == 0 {
        0
    } else {
        len - 1
    };
    let selected: usize = if active_tab < last {
        active_tab
    } else {
        last
    };
    push_command(
        commands,
        DrawCommand::Tabs {
            titles,
            frame: titled_frame("threads"),
            highlight: TextStyle::plain().fg(Color::Cyan).bold(),
            selected,
            area,
        },
    );
    assert(draw_views(commands@) =~= before + tabs_drawn(area, all, active_tab));
}

/// How many characters a text has, modulo the range of coordinates.
pub open spec fn letters(text: Seq<char>) -> u16 {
    text.len() as u16
}

/// How many characters a text has, modulo the range of coordinates.
fn count_letters(text: &str) -> (count: u16)
    ensures
        count == letters(text@),
{
    let count: usize = text.unicode_len();
    #[verifier::truncate]
    (count as u16)
}

/// How high the prompt is: with borders where there is room for them.
pub open spec fn prompt_height(area_height: u16) -> u16 {
    if area_height >= 3 {
        3
    } else {
        1
    }
}

/// How high the prompt is.
pub fn prompt_box_height(area_height: u16) -> (height: u16)
    ensures
        height == prompt_height(area_height),
{
    if area_height >= 3 {
        3
    } else {
        1
    }
}

/// The end of a draft that has room in the prompt.
pub open spec fn visible_draft(draft: Seq<char>, width: u16, bordered: bool) -> Seq<char> {
    let room = greatest(
        width - if bordered {
            3int
        } else {
            1int
        },
        0,
    );
    if width == 0 {
        Seq::empty()
    } else {
        draft.skip(greatest(draft.len() - room, 0))
    }
}

/// The end of a draft that has room in the prompt.
pub fn prompt_visible_text(draft: &str, width: u16, bordered: bool) -> (text: String)
    ensures
        text@ == visible_draft(draft@, width, bordered),
{
    if width == 0 {
        let text = String::new();
        assert(text@ =~= Seq::<char>::empty());
        return text;
    }
    let margin: u16 = if bordered {
        3
    } else {
        1
    };
    let room: usize = if width > margin {
        (width - margin) as usize
    } else {
        0
    };
    let chars = chars_of(draft);
    let len: usize = chars.len();
    let start: usize = if len > room {
        len - room
    } else {
        0
    };
    assert(chars@.subrange(start as int, len as int) =~= draft@.skip(start as int));
    text_of(&chars, start, len)
}

/// The prompt: a sign and the draft, in a frame where there is room for it.
pub open spec fn prompt_view(draft: Seq<char>, mode: Mode, area_height: u16) -> ParagraphView {
    let lines = seq![seq![gutter(), SpanView { text: draft, style: plain_style() }]];
    if prompt_height(area_height) == 3 {
        ParagraphView {
            lines,
            wrap: true,
            frame: Some(
                titled(
                    if mode == Mode::Insert {
                        "prompt"@
                    } else {
                        "hidden"@
                    },
                ),
            ),
            scroll: 0,
        }
    } else {
        unwrapped(lines)
    }
}

/// The prompt.
pub fn prompt_paragraph(draft: &str, mode: Mode, area_height: u16) -> (paragraph: ParagraphSpec)
    ensures
        paragraph@ == prompt_view(draft@, mode, area_height),
{
    let line = StyledLine::pair(
        StyledSpan::new("> ", TextStyle::plain().fg(Color::Yellow).bold()),
        StyledSpan::new(draft, TextStyle::plain()),
    );
    assert(line@ =~= seq![gutter(), SpanView { text: draft@, style: plain_style() }]);
    let plain = one_line(line);
    if prompt_box_height(area_height) == 3 {
        let frame = titled_frame(
            if mode == Mode::Insert {
                "prompt"
            } else {
                "hidden"
            },
        );
        ParagraphSpec { lines: plain.lines, wrap: true, frame: Some(frame), scroll: 0 }
    } else {
        plain
    }
}

/// Where the cursor stands behind a draft in the prompt; within the borders, or
/// at the greatest coordinate, at the latest.
pub open spec fn prompt_cursor_at(area: Rect, draft: Seq<char>, height: u16) -> (u16, u16) {
    if height >= 3 {
        (
            least(area.x + 2 + letters(draft), area.x + greatest(area.width - 2, 0)) as u16,
            (area.y + 1) as u16,
        )
    } else {
        (least(area.x + 1 + letters(draft), u16::MAX as int) as u16, area.y)
    }
}

/// Where the cursor stands behind a draft in the prompt.
pub fn prompt_cursor(area: Rect, draft: &str, height: u16) -> (cursor: (u16, u16))
    requires
        area.wf(),
        height <= area.height,
    ensures
        cursor == prompt_cursor_at(area, draft@, height),
{
    let count: u32 = count_letters(draft) as u32;
    if height >= 3 {
        let x: u32 = area.x as u32 + 2 + count;
        let last: u16 = if area.width > 2 {
            area.x + (area.width - 2)
        } else {
            area.x
        };
        if x < last as u32 {
            (x as u16, area.y + 1)
        } else {
            (last, area.y + 1)
        }
    } else {
        let x: u32 = area.x as u32 + 1 + count;
        if x < u16::MAX as u32 {
            (x as u16, area.y)
        } else {
            (u16::MAX, area.y)
        }
    }
}

/// What the footer says of a mode.
pub open spec fn mode_line(mode: Mode) -> LineView {
    match mode {
        Mode::Insert => one_span("-- INSERT --"@, bold_in(Color::Green)),
        Mode::Normal => one_span("-- NORMAL --"@, bold_in(Color::Yellow)),
        Mode::Command => one_span("-- COMMAND --"@, bold_in(Color::Cyan)),
        Mode::ConfirmDelete => one_span("-- CONFIRM --"@, bold_in(Color::Red)),
    }
}

/// Whether the prompt stands in the footer.
pub open spec fn prompt_in_footer(mode: Mode, prompt_inline: bool) -> bool {
    mode == Mode::Insert && !prompt_inline
}

/// What is drawn of the footer: the prompt, where it stands there, and the mode
/// below it, where there is room.
pub open spec fn footer_drawn(
    area: Rect,
    mode: Mode,
    draft: Seq<char>,
    prompt_inline: bool,
) -> Seq<DrawView> {
    if area.width == 0 || area.height == 0 {
        Seq::empty()
    } else {
        let height = if !prompt_in_footer(mode, prompt_inline) {
            0
        } else if area.height > 1 {
            prompt_height((area.height - 1) as u16)
        } else {
            area.height
        };
        let prompt_area = Rect::at(
            area.x as int,
            area.y as int,
            area.width as int,
            height as int,
        );
        let shown = visible_draft(draft, prompt_area.width, height >= 3);
        let prompt = if height == 0 {
            Seq::empty()
        } else {
            let drawn = seq![
                DrawView::Paragraph { paragraph: prompt_view(shown, mode, height), area: prompt_area },
            ];
            if height >= 3 {
                let (x, y) = prompt_cursor_at(prompt_area, shown, height);
                drawn.push(DrawView::Cursor { x, y })
            } else {
                drawn
            }
        };
        if area.height > height {
            prompt.push(
                DrawView::Paragraph {
                    paragraph: unwrapped(seq![mode_line(mode)]),
                    area: Rect::at(area.x as int, area.y + height, area.width as int, 1),
                },
            )
        } else {
            prompt
        }
    }
}

/// Draws the footer.
pub fn render_footer(
    commands: &mut Vec<DrawCommand>,
    area: Rect,
    mode: Mode,
    draft: &str,
    prompt_inline: bool,
)
    requires
        area.wf(),
    ensures
        draw_views(final(commands)@) == draw_views(old(commands)@) + footer_drawn(
            area,
            mode,
            draft@,
            prompt_inline,
        ),
{
    let ghost before = draw_views(commands@);
    if area.width == 0 || area.height == 0 {
        assert(before =~= before + Seq::<DrawView>::empty());
        return;
    }
    let height: u16 = if mode == Mode::Insert && !prompt_inline {
        if area.height > 1 {
            prompt_box_height(area.height - 1)
        } else {
            area.height
        }
    } else {
        0
    };
    if height > 0 {
        let prompt_area = Rect::new(area.x, area.y, area.width, height);
        let shown = prompt_visible_text(draft, prompt_area.width, height >= 3);
        push_command(
            commands,
            DrawCommand::Paragraph {
                paragraph: prompt_paragraph(shown.as_str(), mode, height),
                area: prompt_area,
            },
        );
        if height >= 3 {
            let (x, y) = prompt_cursor(prompt_area, shown.as_str(), height);
            push_command(commands, DrawCommand::Cursor { x, y });
        }
    }
    if area.height > height {
        let line = match mode {
            Mode::Insert => StyledLine::of(
                "-- INSERT --",
                TextStyle::plain().fg(Color::Green).bold(),
            ),
            Mode::Normal => StyledLine::of(
                "-- NORMAL --",
                TextStyle::plain().fg(Color::Yellow).bold(),
            ),
            Mode::Command => StyledLine::of(
                "-- COMMAND --",
                TextStyle::plain().fg(Color::Cyan).bold(),
            ),
            Mode::ConfirmDelete => StyledLine::of(
                "-- CONFIRM --",
                TextStyle::plain().fg(Color::Red).bold(),
            ),
        };
        let mode_area = Rect::new(area.x, area.y + height, area.width, 1);
        push_command(
            commands,
            DrawCommand::Paragraph { paragraph: one_line(line), area: mode_area },
        );
    }
    assert(draw_views(commands@) =~= before + footer_drawn(area, mode, draft@, prompt_inline));
}

/// How wide a box around a text of so many characters is in an area.
pub open spec fn box_width(count: int, area_width: u16) -> int {
    least(greatest(count + 4, 24), greatest(area_width - 2, 1))
}

/// How wide a box around a text of so many characters is in an area.
fn fitted_width(count: u16, area_width: u16) -> (width: u16)
    ensures
        width == box_width(count as int, area_width),
{
    let wanted: u32 = if count > 20 {
        count as u32 + 4
    } else {
        24
    };
    let room: u16 = if area_width > 3 {
        area_width - 2
    } else {
        1
    };
    if wanted < room as u32 {
        wanted as u16
    } else {
        room
    }
}

/// Where something of a width starts in the middle of a stretch.
pub open spec fn centered(start: u16, room: u16, width: int) -> int {
    start + greatest(room - width, 0) / 2
}

/// Where something of a width starts in the middle of a stretch.
fn center(start: u16, room: u16, width: u16) -> (at: u16)
    requires
        start + room <= u16::MAX,
    ensures
        at == centered(start, room, width as int),
        at <= start + room,
{
    let spare: u16 = if room > width {
        room - width
    } else {
        0
    };
    start + spare / 2
}

/// A box for a message in the middle of the lower part of an area.
pub open spec fn lower_box(area: Rect, text: Seq<char>) -> Rect {
    let width = box_width(letters(text) as int, area.width);
    Rect::at(
        centered(area.x, area.width, width),
        area.y + greatest(area.height - 6, 0),
        width,
        3,
    )
}

/// A box for a message in the middle of the lower part of an area.
pub fn overlay_centered(area: Rect, text: &str) -> (place: Rect)
    requires
        area.wf(),
    ensures
        place == lower_box(area, text@),
        place.wf(),
{
    let width: u16 = fitted_width(count_letters(text), area.width);
    let x: u16 = center(area.x, area.width, width);
    let down: u16 = if area.height > 6 {
        area.height - 6
    } else {
        0
    };
    Rect::new(x, area.y + down, width, 3)
}

/// A box for a message above another, within bounds.
pub open spec fn upper_box(anchor: Rect, bounds: Rect, text: Seq<char>) -> Rect {
    let width = box_width(letters(text) as int, bounds.width);
    Rect::at(
        centered(anchor.x, anchor.width, width),
        greatest(greatest(anchor.y - 3, 0), bounds.y as int),
        width,
        3,
    )
}

/// A box for a message above another, within bounds.
pub fn overlay_above(anchor: Rect, bounds: Rect, text: &str) -> (place: Rect)
    requires
        anchor.wf(),
    ensures
        place == upper_box(anchor, bounds, text@),
        place.wf(),
{
    let width: u16 = fitted_width(count_letters(text), bounds.width);
    let x: u16 = center(anchor.x, anchor.width, width);
    let above: u16 = if anchor.y > 3 {
        anchor.y - 3
    } else {
        0
    };
    let y: u16 = if above > bounds.y {
        above
    } else {
        bounds.y
    };
    Rect::new(x, y, width, 3)
}

/// What is drawn of a message in a box.
pub open spec fn message_drawn(
    title: Seq<char>,
    text: Seq<char>,
    error: bool,
    place: Rect,
) -> Seq<DrawView> {
    if place.width == 0 || place.height == 0 {
        Seq::empty()
    } else {
        seq![
            DrawView::Frame {
                frame: FrameView { border_style: error_style(error), ..titled(title) },
                area: place,
            },
            DrawView::Paragraph {
                paragraph: unwrapped(seq![one_span(text, plain_style())]),
                area: place.inside(),
            },
        ]
    }
}

/// The style of borders: red where there is an error.
pub open spec fn error_style(error: bool) -> TextStyle {
    if error {
        TextStyle { fg: Some(Color::Red), ..plain_style() }
    } else {
        plain_style()
    }
}

/// The style of borders: red where there is an error.
fn border_style(error: bool) -> (style: TextStyle)
    ensures
        style == error_style(error),
{
    if error {
        TextStyle::plain().fg(Color::Red)
    } else {
        TextStyle::plain()
    }
}

/// Draws a message in a box.
pub fn render_overlay_at(
    commands: &mut Vec<DrawCommand>,
    title: &str,
    text: &str,
    error: bool,
    box_area: Rect,
)
    ensures
        draw_views(final(commands)@) == draw_views(old(commands)@) + message_drawn(
            title@,
            text@,
            error,
            box_area,
        ),
{
    let ghost before = draw_views(commands@);
    if box_area.width == 0 || box_area.height == 0 {
        assert(before =~= before + Seq::<DrawView>::empty());
        return;
    }
    let mut frame = titled_frame(title);
    frame.border_style = border_style(error);
    push_command(commands, DrawCommand::Frame { frame, area: box_area });
    let paragraph = one_line(StyledLine::of(text, TextStyle::plain()));
    push_command(commands, DrawCommand::Paragraph { paragraph, area: box_area.inner() });
    assert(draw_views(commands@) =~= before + message_drawn(title@, text@, error, box_area));
}

/// Draws a message in the middle of the lower part of an area.
pub fn render_floating_message_overlay(
    commands: &mut Vec<DrawCommand>,
    area: Rect,
    title: &str,
    text: &str,
    error: bool,
)
    requires
        area.wf(),
    ensures
        draw_views(final(commands)@) == draw_views(old(commands)@) + message_drawn(
            title@,
            text@,
            error,
            lower_box(area, text@),
        ),
{
    render_overlay_at(commands, title, text, error, overlay_centered(area, text));
}

/// Where the command line and the suggestions stand.
#[derive(Debug, Clone, Copy, PartialEq, Eq, Structural)]
pub struct CommandPaletteLayout {
    pub box_area: Rect,
    pub list_area: Rect,
}

/// How wide the widest suggestion is.
pub open spec fn widest(suggestions: Seq<SuggestionView>) -> int
    decreases suggestions.len(),
{
    if suggestions.len() == 0 {
        0
    } else {
        greatest(
            widest(suggestions.drop_last()),
            letters(suggestions.last().display) as int,
        )
    }
}

/// How wide an optional text is.
pub open spec fn letters_of(text: Option<Seq<char>>) -> int {
    match text {
        Some(text) => letters(text) as int,
        None => 0,
    }
}

/// Where the command line and at most six suggestions stand: in the middle of the
/// area, and wide enough for what they hold. There is no place for them in an
/// area that is too small.
pub open spec fn palette_layout(area: Rect, palette: PaletteShown) -> Option<
    CommandPaletteLayout,
> {
    if area.width < 6 || area.height < 3 {
        None
    } else {
        let content = greatest(
            greatest(widest(palette.suggestions), letters_of(palette.preview)),
            greatest(letters(palette.draft) as int, letters_of(palette.error)),
        );
        let width = box_width(content, area.width);
        let list_height = least(palette.suggestions.len() as int, 6);
        let x = centered(area.x, area.width, width);
        let y = centered(area.y, area.height, 3 + list_height);
        Some(
            CommandPaletteLayout {
                box_area: Rect::at(x, y, width, 3),
                list_area: Rect::at(x, y + 3, width, list_height),
            },
        )
    }
}

/// How wide the widest suggestion is.
fn widest_suggestion(suggestions: &[CommandSuggestion]) -> (width: u16)
    ensures
        width == widest(suggestion_views(suggestions@)),
{
    let ghost all = suggestion_views(suggestions@);
    let mut width: u16 = 0;
    let mut i: usize = 0;
    assert(all.take(0) =~= Seq::empty());
    while i < suggestions.len()
        invariant
            i <= suggestions@.len(),
            all == suggestion_views(suggestions@),
            width == widest(all.take(i as int)),
        decreases suggestions@.len() - i,
    {
        proof {
            assert(all.take(i + 1).drop_last() =~= all.take(i as int));
            assert(all.take(i + 1).last() == suggestions@[i as int]@);
        }
        let next: u16 = count_letters(suggestions[i].display.as_str());
        if next > width {
            width = next;
        }
        i = i + 1;
    }
    assert(all.take(all.len() as int) =~= all);
    width
}

/// How wide an optional text is.
fn count_letters_of(text: Option<&str>) -> (count: u16)
    ensures
        count == letters_of(str_option(text)),
{
    match text {
        Some(text) => count_letters(text),
        None => 0,
    }
}

/// The greater of two numbers.
fn greater(a: u16, b: u16) -> (most: u16)
    ensures
        most == greatest(a as int, b as int),
{
    if a > b {
        a
    } else {
        b
    }
}

/// Where the command line and the suggestions stand.
pub fn command_palette_layout(area: Rect, palette: CommandPaletteView<'_>) -> (layout: Option<
    CommandPaletteLayout,
>)
    requires
        area.wf(),
    ensures
        layout == palette_layout(area, palette@),
        layout matches Some(layout) ==> layout.box_area.wf() && layout.list_area.wf(),
{
    if area.width < 6 || area.height < 3 {
        return None;
    }
    let content: u16 = greater(
        greater(widest_suggestion(palette.suggestions), count_letters_of(palette.preview_text)),
        greater(count_letters(palette.draft), count_letters_of(palette.error_text)),
    );
    let width: u16 = fitted_width(content, area.width);
    let list_height: u16 = if palette.suggestions.len() < 6 {
        palette.suggestions.len() as u16
    } else {
        6
    };
    let x: u16 = center(area.x, area.width, width);
    let y: u16 = center(area.y, area.height, 3 + list_height);
    Some(
        CommandPaletteLayout {
            box_area: Rect::new(x, y, width, 3),
            list_area: Rect::new(x, y + 3, width, list_height),
        },
    )
}

/// The command line: what was typed, and dimmed what the preview adds to it; or
/// the preview alone where it does not go on from there.
pub open spec fn command_line(draft: Seq<char>, preview: Option<Seq<char>>) -> LineView {
    let dark = TextStyle { fg: Some(Color::DarkGray), ..plain_style() };
    match preview {
        Some(preview) => if has_prefix(preview, draft) && draft.len() > 0 {
            seq![
                SpanView { text: draft, style: plain_style() },
                SpanView { text: preview.skip(draft.len() as int), style: dark },
            ]
        } else {
            one_span(preview, dark)
        },
        None => one_span(draft, plain_style()),
    }
}

/// The command line.
pub fn command_prompt_paragraph(draft: &str, preview_text: Option<&str>) -> (paragraph:
    ParagraphSpec)
    ensures
        paragraph@ == unwrapped(
            seq![command_line(draft@, str_option(preview_text))],
        ),
{
    let dark = TextStyle::plain().fg(Color::DarkGray);
    let line = match preview_text {
        Some(preview) => if starts_with(preview, draft) && !draft.is_empty() {
            let chars = chars_of(preview);
            let start: usize = draft.unicode_len();
            let suffix = text_of(&chars, start, chars.len());
            assert(suffix@ =~= preview@.skip(draft@.len() as int));
            StyledLine::pair(
                StyledSpan::new(draft, TextStyle::plain()),
                StyledSpan::new(suffix.as_str(), dark),
            )
        } else {
            StyledLine::of(preview, dark)
        },
        None => StyledLine::of(draft, TextStyle::plain()),
    };
    assert(line@ =~= command_line(draft@, str_option(preview_text)));
    one_line(line)
}

/// A suggestion in the list.
pub open spec fn suggestion_line(
    suggestions: Seq<SuggestionView>,
    highlighted: Option<usize>,
    at: int,
) -> LineView {
    one_span(
        suggestions[at].display,
        if highlighted == Some(at as usize) {
            TextStyle {
                fg: Some(Color::Yellow),
                bg: Some(Color::Gray),
                bold: true,
                reversed: true,
                ..plain_style()
            }
        } else {
            TextStyle { fg: Some(Color::White), ..plain_style() }
        },
    )
}

/// The list of suggestions.
pub open spec fn suggestion_lines(
    suggestions: Seq<SuggestionView>,
    highlighted: Option<usize>,
) -> Seq<LineView> {
    Seq::new(suggestions.len(), |at: int| suggestion_line(suggestions, highlighted, at))
}

/// The list of suggestions.
pub fn command_suggestions_paragraph(
    suggestions: &[CommandSuggestion],
    highlighted: Option<usize>,
) -> (paragraph: ParagraphSpec)
    ensures
        paragraph@ == unwrapped(suggestion_lines(suggestion_views(suggestions@), highlighted)),
{
    let ghost all = suggestion_views(suggestions@);
    let mut lines: Vec<StyledLine> = Vec::new();
    let mut i: usize = 0;
    while i < suggestions.len()
        invariant
            i <= suggestions@.len(),
            all == suggestion_views(suggestions@),
            lines@.len() == i,
            forall|k: int|
                0 <= k < i ==> #[trigger] lines@[k]@ == suggestion_line(all, highlighted, k),
        decreases suggestions@.len() - i,
    {
        assert(all[i as int] == suggestions@[i as int]@);
        let selected: bool = match highlighted {
            Some(at) => at == i,
            None => false,
        };
        let style = if selected {
            TextStyle::plain().fg(Color::Yellow).bg(Color::Gray).bold().reversed()
        } else {
            TextStyle::plain().fg(Color::White)
        };
        lines.push(StyledLine::of(suggestions[i].display.as_str(), style));
        i = i + 1;
    }
    assert(line_views(lines@) =~= suggestion_lines(all, highlighted));
    ParagraphSpec { lines, wrap: false, frame: None, scroll: 0 }
}

/// Where the cursor stands behind the command line, within the borders.
pub open spec fn palette_cursor(area: Rect, draft: Seq<char>) -> (u16, u16) {
    (
        least(
            least(area.x + 1, u16::MAX as int) + letters(draft),
            area.x + greatest(area.width - 2, 0),
        ) as u16,
        least(area.y + 1, u16::MAX as int) as u16,
    )
}

/// Where the cursor stands behind the command line.
pub fn command_palette_cursor(area: Rect, draft: &str) -> (cursor: (u16, u16))
    requires
        area.wf(),
    ensures
        cursor == palette_cursor(area, draft@),
{
    let inner_x: u16 = if area.x < u16::MAX {
        area.x + 1
    } else {
        area.x
    };
    let inner_y: u16 = if area.y < u16::MAX {
        area.y + 1
    } else {
        area.y
    };
    let x: u32 = inner_x as u32 + count_letters(draft) as u32;
    let last: u16 = if area.width > 2 {
        area.x + (area.width - 2)
    } else {
        area.x
    };
    if x < last as u32 {
        (x as u16, inner_y)
    } else {
        (last, inner_y)
    }
}

/// A black ground.
pub open spec fn black() -> TextStyle {
    TextStyle { bg: Some(Color::Black), ..plain_style() }
}

/// What is drawn of the palette: an error above the command line, the command
/// line in its frame, and the suggestions below it.
pub open spec fn palette_drawn(area: Rect, palette: PaletteShown) -> Seq<DrawView> {
    if area.width == 0 || area.height == 0 {
        Seq::empty()
    } else {
        match palette_layout(area, palette) {
            None => Seq::empty(),
            Some(layout) => {
                let message = match palette.error {
                    Some(text) => message_drawn(
                        "error"@,
                        text,
                        true,
                        upper_box(layout.box_area, area, text),
                    ),
                    None => Seq::empty(),
                };
                let (x, y) = palette_cursor(layout.box_area, palette.draft);
                let line = seq![
                    DrawView::Frame {
                        frame: FrameView {
                            style: black(),
                            border_style: error_style(palette.has_error),
                            ..titled("cmd"@)
                        },
                        area: layout.box_area,
                    },
                    DrawView::Paragraph {
                        paragraph: unwrapped(seq![command_line(palette.draft, palette.preview)]),
                        area: layout.box_area.inside(),
                    },
                    DrawView::Cursor { x, y },
                ];
                let list = if layout.list_area.height > 0 {
                    seq![
                        DrawView::Paragraph {
                            paragraph: ParagraphView {
                                frame: Some(
                                    FrameView {
                                        title: None,
                                        bordered: false,
                                        style: black(),
                                        border_style: plain_style(),
                                    },
                                ),
                                ..unwrapped(
                                    suggestion_lines(palette.suggestions, palette.highlighted),
                                )
                            },
                            area: layout.list_area,
                        },
                    ]
                } else {
                    Seq::empty()
                };
                message + line + list
            },
        }
    }
}

/// Draws the palette.
pub fn render_command_palette_overlay(
    commands: &mut Vec<DrawCommand>,
    area: Rect,
    palette: CommandPaletteView<'_>,
)
    requires
        area.wf(),
    ensures
        draw_views(final(commands)@) == draw_views(old(commands)@) + palette_drawn(area, palette@),
{
    let ghost before = draw_views(commands@);
    assert(before =~= before + Seq::<DrawView>::empty());
    if area.width == 0 || area.height == 0 {
        return;
    }
    let layout = match command_palette_layout(area, palette) {
        Some(layout) => layout,
        None => {
            return;
        },
    };
    if let Some(text) = palette.error_text {
        let place = overlay_above(layout.box_area, area, text);
        render_overlay_at(commands, "error", text, true, place);
    }
    let ghost warned = draw_views(commands@);
    let mut frame = titled_frame("cmd");
    frame.style = TextStyle::plain().bg(Color::Black);
    frame.border_style = border_style(palette.has_error);
    push_command(commands, DrawCommand::Frame { frame, area: layout.box_area });
    push_command(
        commands,
        DrawCommand::Paragraph {
            paragraph: command_prompt_paragraph(palette.draft, palette.preview_text),
            area: layout.box_area.inner(),
        },
    );
    let (x, y) = command_palette_cursor(layout.box_area, palette.draft);
    push_command(commands, DrawCommand::Cursor { x, y });
    if layout.list_area.height > 0 {
        let mut paragraph = command_suggestions_paragraph(palette.suggestions, palette.highlighted);
        paragraph.frame = Some(
            FrameSpec {
                title: None,
                bordered: false,
                style: TextStyle::plain().bg(Color::Black),
                border_style: TextStyle::plain(),
            },
        );
        push_command(commands, DrawCommand::Paragraph { paragraph, area: layout.list_area });
    }
    assert(draw_views(commands@) =~= before + palette_drawn(area, palette@));
}

/// What the screen is made from.
pub struct RenderState<'a> {
    pub entries: &'a [HistoryEntry],
    pub selected_chat_entry: Option<usize>,
    pub mode: Mode,
    pub draft: &'a str,
    /// Whether what is written stands in place of the selected entry.
    pub prompt_inline: bool,
    pub scroll_anchor: ScrollAnchor,
    pub command_palette: Option<CommandPaletteView<'a>>,
    pub tabs: &'a [TabRenderInfo],
    pub active_tab: usize,
    pub delete_confirmation: Option<&'a str>,
}

/// What the screen is made from, by its contents.
#[verifier::ext_equal]
pub struct ScreenModel {
    pub transcript: TranscriptModel,
    pub mode: Mode,
    pub scroll_anchor: ScrollAnchor,
    pub palette: Option<PaletteShown>,
    pub tabs: Seq<TabView>,
    pub active_tab: usize,
    pub delete_confirmation: Option<Seq<char>>,
}

impl RenderState<'_> {
    /// What the screen is made from, with a theme and at a time.
    pub open spec fn model(&self, theme: Seq<char>, now: u64) -> ScreenModel {
        let entries = entry_models(self.entries@);
        ScreenModel {
            transcript: TranscriptModel {
                theme,
                entries,
                selected: self.selected_chat_entry,
                draft: self.draft@,
                prompt_inline: self.prompt_inline,
                models: models_met(entries),
                now,
            },
            mode: self.mode,
            scroll_anchor: self.scroll_anchor,
            palette: match self.command_palette {
                Some(palette) => Some(palette@),
                None => None,
            },
            tabs: tab_views(self.tabs@),
            active_tab: self.active_tab,
            delete_confirmation: str_option(self.delete_confirmation),
        }
    }
}

impl ScreenModel {
    /// The screen below the header.
    pub open spec fn body(self, area: Rect) -> Rect {
        let tabs_height = least(3, area.height as int);
        Rect::at(
            area.x as int,
            area.y + tabs_height,
            area.width as int,
            area.height - tabs_height,
        )
    }

    /// How high the conversation is with its frame.
    pub open spec fn transcript_height(self, body: Rect) -> int {
        let prompt = if prompt_in_footer(self.mode, self.transcript.prompt_inline) {
            prompt_height(body.height) as int
        } else {
            0
        };
        greatest(body.height - (prompt + 1), 0)
    }

    /// How far the conversation is scrolled and what is drawn of it in its frame.
    pub open spec fn transcript_drawn(self, body: Rect, offset: int) -> (int, Seq<DrawView>) {
        let height = self.transcript_height(body);
        if height == 0 {
            (offset, Seq::empty())
        } else {
            let area = Rect::at(body.x as int, body.y as int, body.width as int, height);
            let (offset, drawn) = self.transcript.drawn(area.inside(), offset, self.scroll_anchor);
            (offset, seq![DrawView::Frame { frame: titled("history"@), area }] + drawn)
        }
    }

    /// How far the conversation is scrolled and what is drawn on the screen.
    pub open spec fn drawn(self, area: Rect, offset: int) -> (int, Seq<DrawView>) {
        if area.width == 0 || area.height == 0 {
            (offset, Seq::empty())
        } else {
            let body = self.body(area);
            let header = Rect::at(
                area.x as int,
                area.y as int,
                area.width as int,
                least(3, area.height as int),
            );
            let height = self.transcript_height(body);
            let footer = Rect::at(
                body.x as int,
                body.y + height,
                body.width as int,
                body.height - height,
            );
            let (offset, transcript) = self.transcript_drawn(body, offset);
            let palette = match self.palette {
                Some(palette) => palette_drawn(body, palette),
                None => Seq::empty(),
            };
            let confirmation = match self.delete_confirmation {
                Some(text) => message_drawn("confirm"@, text, false, lower_box(body, text)),
                None => Seq::empty(),
            };
            (
                offset,
                tabs_drawn(header, self.tabs, self.active_tab) + transcript + footer_drawn(
                    footer,
                    self.mode,
                    self.transcript.draft,
                    self.transcript.prompt_inline,
                ) + palette + confirmation,
            )
        }
    }
}

/// Draws the conversation in its frame, and says how high that is.
fn render_transcript(
    commands: &mut Vec<DrawCommand>,
    body: Rect,
    history_scroll: &mut HistoryScrollState,
    state: &RenderState<'_>,
    assets: &SyntaxAssets,
    now: u64,
) -> (height: u16)
    requires
        body.wf(),
        body.width <= WIDEST_TEXT + 6,
        0x10000 * state.entries@.len() <= usize::MAX,
    ensures
        ({
            let screen = state.model(assets.theme(), now);
            let (offset, drawn) = screen.transcript_drawn(body, old(history_scroll).offset as int);
            &&& height == screen.transcript_height(body)
            &&& final(history_scroll).offset == offset
            &&& draw_views(final(commands)@) == draw_views(old(commands)@) + drawn
        }),
{
    let ghost before = draw_views(commands@);
    let prompt: u16 = if state.mode == Mode::Insert && !state.prompt_inline {
        prompt_box_height(body.height)
    } else {
        0
    };
    if body.height <= prompt + 1 {
        assert(before =~= before + Seq::<DrawView>::empty());
        return 0;
    }
    let height: u16 = body.height - (prompt + 1);
    let models = build_model_list(state.entries);
    let area = Rect::new(body.x, body.y, body.width, height);
    let ghost frame = DrawView::Frame { frame: titled("history"@), area };
    push_command(commands, DrawCommand::Frame { frame: titled_frame("history"), area });
    let ghost framed = draw_views(commands@);
    render_history_viewport(
        commands,
        area.inner(),
        history_scroll,
        state.entries,
        state.selected_chat_entry,
        state.draft,
        state.prompt_inline,
        state.scroll_anchor,
        &models,
        assets,
        now,
    );
    proof {
        let screen = state.model(assets.theme(), now);
        let drawn = screen.transcript.drawn(
            area.inside(),
            old(history_scroll).offset as int,
            screen.scroll_anchor,
        ).1;
        assert(framed + drawn =~= before + (seq![frame] + drawn));
    }
    height
}

/// Draws the screen.
pub fn render_screen(
    area: Rect,
    history_scroll: &mut HistoryScrollState,
    state: RenderState<'_>,
    assets: &SyntaxAssets,
    now: u64,
) -> (commands: Vec<DrawCommand>)
    requires
        area.wf(),
        area.width <= WIDEST_TEXT + 6,
        0x10000 * state.entries@.len() <= usize::MAX,
    ensures
        ({
            let (offset, drawn) = state.model(assets.theme(), now).drawn(
                area,
                old(history_scroll).offset as int,
            );
            &&& final(history_scroll).offset == offset
            &&& draw_views(commands@) == drawn
        }),
{
    let ghost screen = state.model(assets.theme(), now);
    let mut commands: Vec<DrawCommand> = Vec::new();
    assert(draw_views(commands@) =~= Seq::<DrawView>::empty());
    if area.width == 0 || area.height == 0 {
        return commands;
    }
    let tabs_height: u16 = if area.height < 3 {
        area.height
    } else {
        3
    };
    let body = Rect::new(area.x, area.y + tabs_height, area.width, area.height - tabs_height);
    let header = Rect::new(area.x, area.y, area.width, tabs_height);
    render_tabs(&mut commands, header, state.tabs, state.active_tab);
    assert(draw_views(commands@) =~= tabs_drawn(header, screen.tabs, screen.active_tab));
    let height: u16 = render_transcript(&mut commands, body, history_scroll, &state, assets, now);
    let footer = Rect::new(body.x, body.y + height, body.width, body.height - height);
    render_footer(&mut commands, footer, state.mode, state.draft, state.prompt_inline);
    let ghost founded = draw_views(commands@);
    if let Some(palette) = state.command_palette {
        render_command_palette_overlay(&mut commands, body, palette);
    } else {
        assert(founded =~= founded + Seq::<DrawView>::empty());
    }
    let ghost covered = draw_views(commands@);
    if let Some(text) = state.delete_confirmation {
        render_floating_message_overlay(&mut commands, body, "confirm", text, false);
    } else {
        assert(covered =~= covered + Seq::<DrawView>::empty());
    }
    commands
}

/// What the screen is made from in a state of the program.
pub open spec fn screen_of(app: AppModel, theme: Seq<char>, now: u64) -> ScreenModel {
    let thread = app.thread();
    let entries = thread.history.map_values(|item: ItemModel| item.entry);
    ScreenModel {
        transcript: TranscriptModel {
            theme,
            entries,
            selected: thread.selected,
            draft: thread.draft,
            prompt_inline: app.mode == Mode::Insert && thread.compose_target is EditEntry,
            models: models_met(entries),
            now,
        },
        mode: app.mode,
        scroll_anchor: thread.scroll_anchor,
        palette: if app.mode == Mode::Command {
            Some(app.palette.shown())
        } else {
            None
        },
        tabs: tabs_of(app.threads),
        active_tab: app.active,
        delete_confirmation: if app.mode == Mode::ConfirmDelete {
            Some("Confirmation: delete message [y/n]"@)
        } else {
            None
        },
    }
}

/// Draws the state of the program.
pub fn redraw(
    app: &AppState,
    area: Rect,
    history_scroll: &mut HistoryScrollState,
    assets: &SyntaxAssets,
    now: u64,
) -> (commands: Vec<DrawCommand>)
    requires
        app.wf(),
        area.wf(),
        area.width <= WIDEST_TEXT + 6,
        0x10000 * app@.thread().history.len() <= usize::MAX,
    ensures
        ({
            let (offset, drawn) = screen_of(app@, assets.theme(), now).drawn(
                area,
                old(history_scroll).offset as int,
            );
            &&& final(history_scroll).offset == offset
            &&& draw_views(commands@) == drawn
        }),
{
    let thread = active_thread(app);
    let entries = history_entries(thread);
    let tabs = tab_render_info(&app.threads);
    let editing: bool = match thread.compose_target {
        ComposeTarget::EditEntry(_) => true,
        _ => false,
    };
    let state = RenderState {
        entries: entries.as_slice(),
        selected_chat_entry: thread.selected_chat_entry,
        mode: app.mode,
        draft: thread.draft.as_str(),
        prompt_inline: app.mode == Mode::Insert && editing,
        scroll_anchor: thread.scroll_anchor,
        command_palette: if app.mode == Mode::Command {
            Some(app.command_palette.view())
        } else {
            None
        },
        tabs: tabs.as_slice(),
        active_tab: app.active_thread_idx,
        delete_confirmation: if app.mode == Mode::ConfirmDelete {
            Some("Confirmation: delete message [y/n]")
        } else {
            None
        },
    };
    assert(entries@.len() == app@.thread().history.len()) by {
        assert(entry_models(entries@).len() == app@.thread().history.len());
    }
    assert(state.model(assets.theme(), now) =~= screen_of(app@, assets.theme(), now));
    render_screen(area, history_scroll, state, assets, now)
}

/// The header names every conversation, in their order, by its number and what it goes by, with a
/// star exactly where there is something new in it, and marks the one that is shown.
pub proof fn header_names_every_conversation(
    area: Rect,
    threads: Seq<ThreadModel>,
    active: usize,
    at: int,
)
    requires
        area.width > 0,
        area.height > 0,
        active < threads.len() <= usize::MAX,
        0 <= at < threads.len(),
    ensures
        ({
            let drawn = tabs_drawn(area, tabs_of(threads), active);
            let name = decimal(threads[at].tab_id as nat) + ". "@ + labels_of(threads)[at];
            &&& drawn.len() == 1
            &&& drawn[0] matches DrawView::Tabs { titles, selected, area: place, .. } && {
                &&& place == area
                &&& selected == active
                &&& titles.len() == threads.len()
                &&& threads[at].has_unseen_changes ==> titles[at] == name + " *"@
                &&& !threads[at].has_unseen_changes ==> titles[at] == name
            }
        }),
{
}

/// The screen is made from the conversation that is shown: all of its entries, in their order, its
/// selection and its draft. The command line is on it exactly while a command is typed, and the
/// question exactly while a deletion waits.
pub proof fn screen_is_made_from_the_shown_conversation(
    app: AppModel,
    theme: Seq<char>,
    now: u64,
    at: int,
)
    requires
        app.wf(),
        0 <= at < app.thread().history.len(),
    ensures
        ({
            let screen = screen_of(app, theme, now);
            let thread = app.thread();
            &&& screen.transcript.entries.len() == thread.history.len()
            &&& screen.transcript.entries[at] == thread.history[at].entry
            &&& screen.transcript.selected == thread.selected
            &&& screen.transcript.draft == thread.draft
            &&& screen.transcript.now == now
            &&& screen.transcript.prompt_inline <==> app.mode == Mode::Insert && (
            thread.compose_target is EditEntry)
            &&& screen.mode == app.mode
            &&& screen.scroll_anchor == thread.scroll_anchor
            &&& screen.tabs.len() == app.threads.len()
            &&& screen.active_tab == app.active
            &&& screen.palette is Some <==> app.mode == Mode::Command
            &&& screen.palette matches Some(palette) ==> palette.draft == app.palette.draft
                && palette.suggestions == app.palette.suggestions && palette.highlighted
                == app.palette.highlighted && palette.error == app.palette.error
            &&& screen.delete_confirmation == if app.mode == Mode::ConfirmDelete {
                Some("Confirmation: delete message [y/n]"@)
            } else {
                None
            }
        }),
{
}

/// The footer says the mode in a word of its own.
pub proof fn modes_are_told_apart(mode: Mode)
    ensures
        mode_line(mode).len() == 1,
        mode_line(mode)[0].text == match mode {
            Mode::Insert => "-- INSERT --"@,
            Mode::Normal => "-- NORMAL --"@,
            Mode::Command => "-- COMMAND --"@,
            Mode::ConfirmDelete => "-- CONFIRM --"@,
        },
{
}

/// On a screen with room for all, the header stands in the first three rows, the frame of the
/// conversation below it, and the mode in the last row; the prompt, where it is written at the
/// end, in the three rows above that.
pub proof fn screen_is_divided_from_top_to_bottom(screen: ScreenModel, area: Rect, offset: int)
    requires
        area.wf(),
        area.width > 0,
        area.height >= 8,
    ensures
        ({
            let drawn = screen.drawn(area, offset).1;
            let writing = screen.mode == Mode::Insert && !screen.transcript.prompt_inline;
            let below: int = if writing {
                4
            } else {
                1
            };
            &&& drawn[0] matches DrawView::Tabs { area: place, .. } && place == (Rect {
                height: 3,
                ..area
            })
            &&& drawn.contains(
                DrawView::Frame {
                    frame: titled("history"@),
                    area: Rect {
                        y: (area.y + 3) as u16,
                        height: (area.height - 3 - below) as u16,
                        ..area
                    },
                },
            )
            &&& drawn.contains(
                DrawView::Paragraph {
                    paragraph: unwrapped(seq![mode_line(screen.mode)]),
                    area: Rect { y: (area.y + area.height - 1) as u16, height: 1, ..area },
                },
            )
            &&& writing ==> drawn.contains(
                DrawView::Paragraph {
                    paragraph: prompt_view(
                        visible_draft(screen.transcript.draft, area.width, true),
                        screen.mode,
                        3,
                    ),
                    area: Rect { y: (area.y + area.height - 4) as u16, height: 3, ..area },
                },
            )
        }),
{
    let body = screen.body(area);
    let header = Rect::at(area.x as int, area.y as int, area.width as int, 3);
    let height = screen.transcript_height(body);
    let footer = Rect::at(body.x as int, body.y + height, body.width as int, body.height - height);
    let tabs = tabs_drawn(header, screen.tabs, screen.active_tab);
    let transcript = screen.transcript_drawn(body, offset).1;
    let foot = footer_drawn(
        footer,
        screen.mode,
        screen.transcript.draft,
        screen.transcript.prompt_inline,
    );
    let palette = match screen.palette {
        Some(palette) => palette_drawn(body, palette),
        None => Seq::empty(),
    };
    let confirmation = match screen.delete_confirmation {
        Some(text) => message_drawn("confirm"@, text, false, lower_box(body, text)),
        None => Seq::empty(),
    };
    let drawn = screen.drawn(area, offset).1;
    assert(drawn == tabs + transcript + foot + palette + confirmation);
    assert(drawn[0] == tabs[0]);
    assert(drawn[tabs.len() as int] == transcript[0]);
    let start = (tabs.len() + transcript.len()) as int;
    assert forall|k: int| 0 <= k < foot.len() implies drawn[start + k] == foot[k] by {}
    let last = foot.len() - 1;
    assert(drawn[start + last] == foot[last]);
    assert(drawn[start] == foot[0]);
}

/// The end of a draft is visible in the prompt, as much of it as there is room for.
pub proof fn end_of_the_draft_is_visible(draft: Seq<char>, width: u16, bordered: bool)
    requires
        width > 3,
    ensures
        ({
            let shown = visible_draft(draft, width, bordered);
            let room = width - if bordered {
                3int
            } else {
                1int
            };
            &&& shown.len() == if draft.len() < room {
                draft.len() as int
            } else {
                room
            }
            &&& shown == draft.skip(draft.len() - shown.len())
            &&& prompt_view(shown, Mode::Insert, 3).lines.len() == 1
            &&& prompt_view(shown, Mode::Insert, 3).lines[0][1].text == shown
        }),
{
}

/// On the command line stands what was typed. While a suggestion is highlighted, the line shows
/// that suggestion instead.
pub proof fn command_line_shows_draft_or_preview(draft: Seq<char>, preview: Seq<char>)
    ensures
        line_text(command_line(draft, None)) == draft,
        line_text(command_line(draft, Some(preview))) == preview,
{
    reveal_with_fuel(line_text, 3);
    let plain = command_line(draft, None);
    let shown = command_line(draft, Some(preview));
    assert(plain.drop_last() =~= Seq::<SpanView>::empty());
    assert(line_text(plain) =~= draft);
    if has_prefix(preview, draft) && draft.len() > 0 {
        assert(shown.drop_last() =~= seq![shown[0]]);
        assert(shown.drop_last().drop_last() =~= Seq::<SpanView>::empty());
        assert(preview.subrange(0, draft.len() as int) =~= draft);
        assert(line_text(shown) =~= preview);
    } else {
        assert(shown.drop_last() =~= Seq::<SpanView>::empty());
        assert(line_text(shown) =~= preview);
    }
}

/// Every suggestion has its line, in their order, and only the highlighted one is reversed.
pub proof fn suggestions_are_listed_in_order(
    suggestions: Seq<SuggestionView>,
    highlighted: Option<usize>,
    at: int,
)
    requires
        0 <= at < suggestions.len() <= usize::MAX,
    ensures
        suggestion_lines(suggestions, highlighted).len() == suggestions.len(),
        suggestion_lines(suggestions, highlighted)[at].len() == 1,
        suggestion_lines(suggestions, highlighted)[at][0].text == suggestions[at].display,
        suggestion_lines(suggestions, highlighted)[at][0].style.reversed <==> highlighted == Some(
            at as usize,
        ),
{
}

/// While a command is typed, its line, the error with it and what is suggested for it are all on
/// the screen, where there is room.
pub proof fn palette_shows_line_error_and_suggestions(area: Rect, palette: PaletteShown)
    requires
        area.wf(),
        area.width >= 6,
        area.height >= 12,
    ensures
        ({
            let drawn = palette_drawn(area, palette);
            &&& palette_layout(area, palette) matches Some(layout) && {
                &&& drawn.contains(
                    DrawView::Paragraph {
                        paragraph: unwrapped(seq![command_line(palette.draft, palette.preview)]),
                        area: layout.box_area.inside(),
                    },
                )
                &&& palette.error matches Some(text) ==> drawn.contains(
                    DrawView::Paragraph {
                        paragraph: unwrapped(seq![one_span(text, plain_style())]),
                        area: upper_box(layout.box_area, area, text).inside(),
                    },
                )
                &&& palette.suggestions.len() > 0 ==> (drawn.last() matches DrawView::Paragraph {
                    paragraph,
                    area: place,
                } && paragraph.lines == suggestion_lines(palette.suggestions, palette.highlighted)
                    && place == layout.list_area)
            }
        }),
{
    let drawn = palette_drawn(area, palette);
    let layout = palette_layout(area, palette).unwrap();
    let message = match palette.error {
        Some(text) => message_drawn(
            "error"@,
            text,
            true,
            upper_box(layout.box_area, area, text),
        ),
        None => Seq::empty(),
    };
    assert(drawn[message.len() as int + 1] == (DrawView::Paragraph {
        paragraph: unwrapped(seq![command_line(palette.draft, palette.preview)]),
        area: layout.box_area.inside(),
    }));
    if let Some(text) = palette.error {
        assert(message.len() == 2);
        assert(drawn[1] == message[1]);
    }
}

/// A message in its box, and the question of a deletion, stand within the area.
pub proof fn message_stands_within_the_area(area: Rect, text: Seq<char>)
    requires
        area.wf(),
        area.width > 0,
        area.height >= 3,
    ensures
        ({
            let place = lower_box(area, text);
            &&& area.x <= place.x
            &&& place.x + place.width <= area.x + area.width
            &&& area.y <= place.y
            &&& place.y + place.height <= area.y + area.height
            &&& area.height >= 6 ==> place.y + 6 == area.y + area.height
            &&& message_drawn("confirm"@, text, false, place).len() == 2
            &&& message_drawn("confirm"@, text, false, place)[1] matches DrawView::Paragraph {
                paragraph,
                ..
            } && paragraph.lines == seq![one_span(text, plain_style())]
        }),
{
}

/// The prompt is headed as such while it is written, and begins with its sign.
pub proof fn prompt_is_headed_while_it_is_written(draft: Seq<char>, mode: Mode, height: u16)
    requires
        height >= 3,
    ensures
        ({
            let prompt = prompt_view(draft, mode, height);
            &&& prompt.frame matches Some(frame) && frame.bordered && (frame.title == Some(
                "prompt"@,
            ) <==> mode == Mode::Insert)
            &&& prompt.lines.len() == 1
            &&& prompt.lines[0].len() == 2
            &&& prompt.lines[0][0].text == "> "@
            &&& prompt.lines[0][1].text == draft
        }),
{
    reveal_strlit("prompt");
    reveal_strlit("hidden");
    assert("prompt"@[0] != "hidden"@[0]);
}

/// The cursor stands on the line of what is written, moves on with every character, and stays
/// within the border.
pub proof fn cursor_moves_with_what_is_written(area: Rect, draft: Seq<char>, ch: char)
    requires
        area.wf(),
        area.width >= 4,
        area.height >= 3,
        draft.len() < u16::MAX,
    ensures
        ({
            let (x, y) = prompt_cursor_at(area, draft, area.height);
            let (next_x, next_y) = prompt_cursor_at(area, draft.push(ch), area.height);
            &&& y == area.y + 1
            &&& next_y == y
            &&& x < area.x + area.width - 1
            &&& draft.len() == 0 ==> x == area.x + 2
            &&& next_x == if x + 1 < area.x + area.width - 1 {
                x + 1
            } else {
                x as int
            }
        }),
        ({
            let (x, y) = palette_cursor(area, draft);
            let (next_x, next_y) = palette_cursor(area, draft.push(ch));
            &&& y == area.y + 1
            &&& next_y == y
            &&& x < area.x + area.width - 1
            &&& draft.len() == 0 ==> x == area.x + 1
            &&& next_x == if x + 1 < area.x + area.width - 1 {
                x + 1
            } else {
                x as int
            }
        }),
{
}

/// The command line stands in a box of three rows, and directly below it stand the suggestions, as
/// many rows as there are of them, six at most. Both are as wide as the longest text on them with
/// its margins, or as the area lets them be.
pub proof fn suggestions_stand_below_the_command_line(area: Rect, palette: PaletteShown, i: int)
    requires
        area.wf(),
        area.width >= 6,
        area.height >= 9,
        0 <= i < palette.suggestions.len(),
    ensures
        palette_layout(area, palette) matches Some(layout) && {
            &&& layout.box_area.height == 3
            &&& layout.list_area.x == layout.box_area.x
            &&& layout.list_area.y == layout.box_area.y + 3
            &&& layout.list_area.width == layout.box_area.width
            &&& layout.list_area.height == if palette.suggestions.len() < 6 {
                palette.suggestions.len() as int
            } else {
                6
            }
            &&& area.x <= layout.box_area.x
            &&& layout.box_area.x + layout.box_area.width <= area.x + area.width
            &&& area.y <= layout.box_area.y
            &&& layout.list_area.y + layout.list_area.height <= area.y + area.height
            &&& layout.box_area.width == area.width - 2 || layout.box_area.width >= letters(
                palette.suggestions[i].display,
            ) + 4 && layout.box_area.width >= letters(palette.draft) + 4
        },
{
    lemma_widest_is_widest(palette.suggestions, i);
}

proof fn lemma_widest_is_widest(suggestions: Seq<SuggestionView>, i: int)
    requires
        0 <= i < suggestions.len(),
    ensures
        widest(suggestions) >= letters(suggestions[i].display),
    decreases suggestions.len(),
{
    if i < suggestions.len() - 1 {
        lemma_widest_is_widest(suggestions.drop_last(), i);
    }
}

/// The border of the command line is red exactly where there is an error.
pub proof fn error_is_marked_on_the_command_line(area: Rect, palette: PaletteShown)
    requires
        area.wf(),
        area.width >= 6,
        area.height >= 12,
        palette.has_error <==> palette.error is Some,
    ensures
        exists|k: int|
            0 <= k < palette_drawn(area, palette).len() && (
            #[trigger] palette_drawn(area, palette)[k] matches DrawView::Frame { frame, area: place }
                && place == palette_layout(area, palette)->0.box_area && frame.title == Some(
                "cmd"@,
            ) && (frame.border_style.fg == Some(Color::Red) <==> palette.error is Some)),
{
    let drawn = palette_drawn(area, palette);
    let layout = palette_layout(area, palette).unwrap();
    let message = match palette.error {
        Some(text) => message_drawn(
            "error"@,
            text,
            true,
            upper_box(layout.box_area, area, text),
        ),
        None => Seq::empty(),
    };
    let k = message.len() as int;
    assert(drawn[k] matches DrawView::Frame { .. });
}

/// While a prompt is written at the end, the footer holds the prompt in three rows, with the cursor
/// in it, and the mode in the row below; else it holds the mode alone.
pub proof fn footer_holds_prompt_and_mode(area: Rect, mode: Mode, draft: Seq<char>)
    requires
        area.wf(),
        area.width > 0,
        area.height >= 4,
    ensures
        ({
            let drawn = footer_drawn(area, Mode::Insert, draft, false);
            &&& drawn.len() == 3
            &&& drawn[0] matches DrawView::Paragraph { area: place, .. } && place.x == area.x
                && place.y == area.y && place.width == area.width && place.height == 3
            &&& drawn[1] is Cursor
            &&& drawn[2] matches DrawView::Paragraph { paragraph, area: place } && place.y == area.y
                + 3 && place.height == 1 && place.x == area.x && place.width == area.width
                && paragraph.lines == seq![mode_line(Mode::Insert)]
        }),
        mode != Mode::Insert ==> {
            let drawn = footer_drawn(area, mode, draft, false);
            &&& drawn.len() == 1
            &&& drawn[0] matches DrawView::Paragraph { paragraph, area: place } && place.y == area.y
                && paragraph.lines == seq![mode_line(mode)]
        },
        footer_drawn(area, Mode::Insert, draft, true).len() == 1,
{
}

/// An error stands directly above the command line, where there is room for it, and never above the
/// area.
pub proof fn error_stands_above_the_command_line(anchor: Rect, bounds: Rect, text: Seq<char>)
    requires
        anchor.wf(),
        bounds.wf(),
        bounds.y + 3 <= u16::MAX,
        bounds.y <= anchor.y,
        anchor.x + anchor.width <= bounds.x + bounds.width,
    ensures
        ({
            let place = upper_box(anchor, bounds, text);
            &&& anchor.y >= bounds.y + 3 ==> place.y + 3 == anchor.y && place.height == 3
            &&& anchor.y < bounds.y + 3 ==> place.y == bounds.y
        }),
{
}

/// The history has a frame of its own around it, drawn first.
pub proof fn history_is_drawn_in_its_frame(screen: ScreenModel, body: Rect, offset: int)
    requires
        body.wf(),
        screen.transcript_height(body) > 0,
    ensures
        ({
            let drawn = screen.transcript_drawn(body, offset).1;
            let height = screen.transcript_height(body);
            &&& drawn.len() > 0
            &&& drawn[0] matches DrawView::Frame { frame, area } && frame.title == Some(
                "history"@,
            ) && area.x == body.x && area.y == body.y && area.width == body.width && area.height
                == height
            &&& drawn.skip(1) == screen.transcript.drawn(
                Rect::at(
                    body.x as int,
                    body.y as int,
                    body.width as int,
                    height,
                ).inside(),
                offset,
                screen.scroll_anchor,
            ).1
        }),
{
    let height = screen.transcript_height(body);
    let area = Rect::at(body.x as int, body.y as int, body.width as int, height);
    let inner = screen.transcript.drawn(area.inside(), offset, screen.scroll_anchor).1;
    let drawn = screen.transcript_drawn(body, offset).1;
    assert(drawn.skip(1) =~= inner);
}

/// What stands inside a frame is one row and one column in from each of its sides.
pub proof fn inside_is_one_in_from_each_side(area: Rect)
    requires
        area.wf(),
        area.width >= 2,
        area.height >= 2,
    ensures
        area.inside().x == area.x + 1,
        area.inside().y == area.y + 1,
        area.inside().x + area.inside().width + 1 == area.x + area.width,
        area.inside().y + area.inside().height + 1 == area.y + area.height,
{
}

} // verus!
