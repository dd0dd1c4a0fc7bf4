//! What is drawn: areas, styles, and styled text.

use vstd::prelude::*;
use vstd::string::*;

use crate::text::texts;

verus! {

/// An area of the screen.
#[derive(Debug, Clone, Copy, PartialEq, Eq, Structural)]
pub struct Rect {
    pub x: u16,
    pub y: u16,
    pub width: u16,
    pub height: u16,
}

impl Rect {
    /// The area ends within the range of coordinates.
    pub open spec fn wf(self) -> bool {
        self.x + self.width <= u16::MAX && self.y + self.height <= u16::MAX
    }

    /// The area with this origin and size, cut off at the greatest coordinate.
    pub open spec fn at(x: int, y: int, width: int, height: int) -> Rect {
        Rect {
            x: x as u16,
            y: y as u16,
            width: if x + width <= u16::MAX {
                width as u16
            } else {
                (u16::MAX - x) as u16
            },
            height: if y + height <= u16::MAX {
                height as u16
            } else {
                (u16::MAX - y) as u16
            },
        }
    }

    /// The area without a margin of one on every side; empty at the origin where
    /// there is no room for the margin.
    pub open spec fn inside(self) -> Rect {
        if self.width < 2 || self.height < 2 {
            Rect { x: 0, y: 0, width: 0, height: 0 }
        } else {
            Rect {
                x: if self.x < u16::MAX {
                    (self.x + 1) as u16
                } else {
                    self.x
                },
                y: if self.y < u16::MAX {
                    (self.y + 1) as u16
                } else {
                    self.y
                },
                width: (self.width - 2) as u16,
                height: (self.height - 2) as u16,
            }
        }
    }

    /// The area with this origin and size.
    pub fn new(x: u16, y: u16, width: u16, height: u16) -> (area: Rect)
        ensures
            area == Rect::at(x as int, y as int, width as int, height as int),
            area.wf(),
    {
        let room_x: u16 = u16::MAX - x;
        let room_y: u16 = u16::MAX - y;
        Rect {
            x,
            y,
            width: if width <= room_x {
                width
            } else {
                room_x
            },
            height: if height <= room_y {
                height
            } else {
                room_y
            },
        }
    }

    /// The area without a margin of one on every side.
    pub fn inner(self) -> (area: Rect)
        ensures
            area == self.inside(),
            self.wf() ==> area.wf(),
    {
        if self.width < 2 || self.height < 2 {
            Rect { x: 0, y: 0, width: 0, height: 0 }
        } else {
            Rect {
                x: if self.x < u16::MAX {
                    self.x + 1
                } else {
                    self.x
                },
                y: if self.y < u16::MAX {
                    self.y + 1
                } else {
                    self.y
                },
                width: self.width - 2,
                height: self.height - 2,
            }
        }
    }
}

/// A colour.
#[derive(Debug, Clone, Copy, PartialEq, Eq, Structural)]
pub enum Color {
    Black,
    Red,
    Green,
    Yellow,
    Blue,
    Magenta,
    Cyan,
    Gray,
    DarkGray,
    LightRed,
    LightGreen,
    LightYellow,
    LightBlue,
    LightMagenta,
    LightCyan,
    White,
    Rgb(u8, u8, u8),
}

/// How text looks.
#[derive(Debug, Clone, Copy, PartialEq, Eq, Structural)]
pub struct TextStyle {
    pub fg: Option<Color>,
    pub bg: Option<Color>,
    pub bold: bool,
    pub dim: bool,
    pub reversed: bool,
}

/// Text as it is.
pub open spec fn plain_style() -> TextStyle {
    TextStyle { fg: None, bg: None, bold: false, dim: false, reversed: false }
}

impl TextStyle {
    /// Text as it is.
    pub fn plain() -> (style: TextStyle)
        ensures
            style == plain_style(),
    {
        TextStyle { fg: None, bg: None, bold: false, dim: false, reversed: false }
    }

    /// The style in a colour.
    pub fn fg(self, color: Color) -> (style: TextStyle)
        ensures
            style == (TextStyle { fg: Some(color), ..self }),
    {
        TextStyle { fg: Some(color), ..self }
    }

    /// The style on a colour.
    pub fn bg(self, color: Color) -> (style: TextStyle)
        ensures
            style == (TextStyle { bg: Some(color), ..self }),
    {
        TextStyle { bg: Some(color), ..self }
    }

    /// The style in bold.
    pub fn bold(self) -> (style: TextStyle)
        ensures
            style == (TextStyle { bold: true, ..self }),
    {
        TextStyle { bold: true, ..self }
    }

    /// The style dimmed.
    pub fn dim(self) -> (style: TextStyle)
        ensures
            style == (TextStyle { dim: true, ..self }),
    {
        TextStyle { dim: true, ..self }
    }

    /// The style with its colours exchanged.
    pub fn reversed(self) -> (style: TextStyle)
        ensures
            style == (TextStyle { reversed: true, ..self }),
    {
        TextStyle { reversed: true, ..self }
    }
}

/// Text in one style.
#[derive(Debug, PartialEq, Eq)]
pub struct StyledSpan {
    pub text: String,
    pub style: TextStyle,
}

/// Text in one style, by its contents.
pub struct SpanView {
    pub text: Seq<char>,
    pub style: TextStyle,
}

impl View for StyledSpan {
    type V = SpanView;

    open spec fn view(&self) -> SpanView {
        SpanView { text: self.text@, style: self.style }
    }
}

impl StyledSpan {
    /// Text in a style.
    pub fn new(text: &str, style: TextStyle) -> (span: StyledSpan)
        ensures
            span@ == (SpanView { text: text@, style }),
    {
        StyledSpan { text: text.to_string(), style }
    }
}

/// A line of styled text.
#[derive(Debug, PartialEq, Eq)]
pub struct StyledLine {
    pub spans: Vec<StyledSpan>,
}

/// A line by its contents.
pub type LineView = Seq<SpanView>;

impl View for StyledLine {
    type V = LineView;

    open spec fn view(&self) -> LineView {
        self.spans@.map_values(|span: StyledSpan| span@)
    }
}

/// The contents of a list of lines.
pub open spec fn line_views(lines: Seq<StyledLine>) -> Seq<LineView> {
    lines.map_values(|line: StyledLine| line@)
}

/// A line of one span.
pub open spec fn one_span(text: Seq<char>, style: TextStyle) -> LineView {
    seq![SpanView { text, style }]
}

impl StyledLine {
    /// A line of one span.
    pub fn of(text: &str, style: TextStyle) -> (line: StyledLine)
        ensures
            line@ == one_span(text@, style),
    {
        let line = StyledLine { spans: vec![StyledSpan::new(text, style)] };
        assert(line@ =~= one_span(text@, style));
        line
    }

    /// A line of two spans.
    pub fn pair(first: StyledSpan, second: StyledSpan) -> (line: StyledLine)
        ensures
            line@ == seq![first@, second@],
    {
        let line = StyledLine { spans: vec![first, second] };
        assert(line@ =~= seq![first@, second@]);
        line
    }

    /// An empty line.
    pub fn empty() -> (line: StyledLine)
        ensures
            line@ == Seq::<SpanView>::empty(),
    {
        let line = StyledLine { spans: Vec::new() };
        assert(line@ =~= Seq::<SpanView>::empty());
        line
    }
}

/// Lines of one style.
pub open spec fn in_style(lines: Seq<Seq<char>>, style: TextStyle) -> Seq<LineView> {
    lines.map_values(|line: Seq<char>| one_span(line, style))
}

/// Puts lines into one style.
pub fn styled_lines(lines: &Vec<String>, style: TextStyle) -> (styled: Vec<StyledLine>)
    ensures
        line_views(styled@) == in_style(texts(lines@), style),
{
    let mut styled: Vec<StyledLine> = Vec::new();
    let mut i: usize = 0;
    while i < lines.len()
        invariant
            i <= lines@.len(),
            styled@.len() == i,
            forall|k: int| 0 <= k < i ==> #[trigger] styled@[k]@ == one_span(lines@[k]@, style),
        decreases lines@.len() - i,
    {
        styled.push(StyledLine::of(lines[i].as_str(), style));
        i = i + 1;
    }
    assert(line_views(styled@) =~= in_style(texts(lines@), style));
    styled
}

/// Puts a line at the end of a list.
pub fn push_line(lines: &mut Vec<StyledLine>, line: StyledLine)
    ensures
        line_views(final(lines)@) == line_views(old(lines)@).push(line@),
{
    lines.push(line);
    assert(line_views(lines@) =~= line_views(old(lines)@).push(line@));
}

/// Puts lines at the end of a list.
pub fn push_lines(lines: &mut Vec<StyledLine>, more: Vec<StyledLine>)
    ensures
        line_views(final(lines)@) == line_views(old(lines)@) + line_views(more@),
{
    let mut more = more;
    let ghost added = line_views(more@);
    lines.append(&mut more);
    assert(line_views(lines@) =~= line_views(old(lines)@) + added);
}

} // verus!
