//! What goes to the screen, as a list of things to draw.

use vstd::prelude::*;
use vstd::string::*;

use crate::style::{line_views, LineView, Rect, SpanView, StyledLine, StyledSpan, TextStyle};
use crate::text::texts;

verus! {

/// A frame around an area.
#[derive(Debug, PartialEq, Eq)]
pub struct FrameSpec {
    pub title: Option<String>,
    pub bordered: bool,
    pub style: TextStyle,
    pub border_style: TextStyle,
}

/// A frame by its contents.
pub struct FrameView {
    pub title: Option<Seq<char>>,
    pub bordered: bool,
    pub style: TextStyle,
    pub border_style: TextStyle,
}

impl View for FrameSpec {
    type V = FrameView;

    open spec fn view(&self) -> FrameView {
        FrameView {
            title: match self.title {
                Some(title) => Some(title@),
                None => None,
            },
            bordered: self.bordered,
            style: self.style,
            border_style: self.border_style,
        }
    }
}

/// Lines of text in an area.
#[derive(Debug, PartialEq, Eq)]
pub struct ParagraphSpec {
    pub lines: Vec<StyledLine>,
    /// Whether lines that are too long go on in the next one.
    pub wrap: bool,
    pub frame: Option<FrameSpec>,
    /// How many lines are scrolled out at the top.
    pub scroll: u16,
}

/// Lines of text in an area, by their contents.
#[verifier::ext_equal]
pub struct ParagraphView {
    pub lines: Seq<LineView>,
    pub wrap: bool,
    pub frame: Option<FrameView>,
    pub scroll: u16,
}

impl View for ParagraphSpec {
    type V = ParagraphView;

    open spec fn view(&self) -> ParagraphView {
        ParagraphView {
            lines: line_views(self.lines@),
            wrap: self.wrap,
            frame: match self.frame {
                Some(frame) => Some(frame@),
                None => None,
            },
            scroll: self.scroll,
        }
    }
}

/// Something to draw.
#[derive(Debug, PartialEq, Eq)]
pub enum DrawCommand {
    Paragraph { paragraph: ParagraphSpec, area: Rect },
    /// A line across the area.
    Divider { area: Rect },
    Frame { frame: FrameSpec, area: Rect },
    /// Titles next to each other, one of them in a style of its own.
    Tabs {
        titles: Vec<String>,
        frame: FrameSpec,
        highlight: TextStyle,
        selected: usize,
        area: Rect,
    },
    Cursor { x: u16, y: u16 },
}

/// Something to draw, by its contents.
#[verifier::ext_equal]
pub enum DrawView {
    Paragraph { paragraph: ParagraphView, area: Rect },
    Divider { area: Rect },
    Frame { frame: FrameView, area: Rect },
    Tabs {
        titles: Seq<Seq<char>>,
        frame: FrameView,
        highlight: TextStyle,
        selected: usize,
        area: Rect,
    },
    Cursor { x: u16, y: u16 },
}

impl View for DrawCommand {
    type V = DrawView;

    open spec fn view(&self) -> DrawView {
        match *self {
            DrawCommand::Paragraph { paragraph, area } => DrawView::Paragraph {
                paragraph: paragraph@,
                area,
            },
            DrawCommand::Divider { area } => DrawView::Divider { area },
            DrawCommand::Frame { frame, area } => DrawView::Frame { frame: frame@, area },
            DrawCommand::Tabs { titles, frame, highlight, selected, area } => DrawView::Tabs {
                titles: texts(titles@),
                frame: frame@,
                highlight,
                selected,
                area,
            },
            DrawCommand::Cursor { x, y } => DrawView::Cursor { x, y },
        }
    }
}

/// The contents of a list of things to draw.
pub open spec fn draw_views(commands: Seq<DrawCommand>) -> Seq<DrawView> {
    commands.map_values(|command: DrawCommand| command@)
}

/// Adds something to draw.
pub fn push_command(commands: &mut Vec<DrawCommand>, command: DrawCommand)
    ensures
        draw_views(final(commands)@) == draw_views(old(commands)@).push(command@),
{
    commands.push(command);
    assert(draw_views(commands@) =~= draw_views(old(commands)@).push(command@));
}

/// The texts of a line, span by span.
pub open spec fn span_texts(line: LineView) -> Seq<Seq<char>> {
    line.map_values(|span: SpanView| span.text)
}

/// The texts of lines, span by span.
pub open spec fn line_texts(lines: Seq<LineView>) -> Seq<Seq<Seq<char>>> {
    lines.map_values(|line: LineView| span_texts(line))
}

/// The widest text that is wrapped. The widths that wrapping adds up, of a line, of
/// the blanks and of the word behind it and of the next sign, stay below four times
/// the width, and are counted in sixteen bits.
pub const WIDEST_TEXT: u16 = 0x3fff;

/// How many lines of a width `ratatui` needs for lines of spans that it wraps.
pub uninterp spec fn wrapped_line_count(lines: Seq<Seq<Seq<char>>>, width: u16) -> nat;

/// `ratatui::widgets::Paragraph::line_count` counts the lines of a width that
/// wrapped text takes; in no width it counts none. It goes by the texts of the
/// spans alone, not by their styles. In a wider text than `WIDEST_TEXT` its sums may
/// leave the range of `u16`.
#[verifier::external_body]
pub(crate) fn count_wrapped_lines(lines: &Vec<StyledLine>, width: u16) -> (count: usize)
    requires
        width <= WIDEST_TEXT,
    ensures
        count == wrapped_line_count(line_texts(line_views(lines@)), width),
        width == 0 ==> count == 0,
{
    let span = |span: &StyledSpan| ratatui::text::Span::raw(span.text.clone());
    let line = |line: &StyledLine| {
        ratatui::text::Line::from(line.spans.iter().map(span).collect::<Vec<_>>())
    };
    ratatui::widgets::Paragraph::new(lines.iter().map(line).collect::<Vec<_>>())
        .wrap(ratatui::widgets::Wrap { trim: false })
        .line_count(width)
}

/// How high a paragraph of wrapped lines is in a width: at least one line. The
/// height counts modulo the range of coordinates.
pub open spec fn paragraph_height(lines: Seq<LineView>, width: u16) -> u16 {
    let count = wrapped_line_count(line_texts(lines), width);
    if count < 1 {
        1
    } else {
        count as u16
    }
}

/// How high a paragraph of wrapped lines is in a width.
pub fn measure_lines(lines: &Vec<StyledLine>, width: u16) -> (height: u16)
    requires
        width <= WIDEST_TEXT,
    ensures
        height == paragraph_height(line_views(lines@), width),
{
    let count: usize = count_wrapped_lines(lines, width);
    if count < 1 {
        1
    } else {
        #[verifier::truncate]
        (count as u16)
    }
}

} // verus!
