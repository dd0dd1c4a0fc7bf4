//! The entries of a conversation as paragraphs, and the part of them that is in
//! view.

use vstd::prelude::*;
use vstd::string::*;

use crate::draw::{
    draw_views, measure_lines, paragraph_height, push_command, DrawCommand, DrawView, ParagraphSpec,
    ParagraphView, WIDEST_TEXT,
};
use crate::history::{
    block_models, entry_models, AssistantStatus, EntryModel, HistoryEntry, ModelLoadStatus,
    ScrollAnchor, TurnModel,
};
use crate::markdown::{markdown_lines, render_markdown_blocks, SyntaxAssets};
use crate::style::{
    in_style, line_views, one_span, plain_style, push_line, push_lines, styled_lines, Color,
    LineView, Rect, SpanView, StyledLine, StyledSpan, TextStyle,
};
use crate::text::{
    decimal, decimal_text, joined, joined3, lemma_pieces, lines_joined, pieces,
    pieces_put_together_are_the_text, same_text, split_lines, texts,
};

verus! {

/// The sign that turns while something goes on, after so many milliseconds.
pub open spec fn spinner(elapsed: u64) -> Seq<char> {
    let tick = (elapsed / 100) % 4;
    if tick == 0 {
        "|"@
    } else if tick == 1 {
        "/"@
    } else if tick == 2 {
        "-"@
    } else {
        "\\"@
    }
}

/// The sign that turns while something goes on.
pub fn spinner_frame(elapsed: u64) -> (frame: &'static str)
    ensures
        frame@ == spinner(elapsed),
{
    let tick: u64 = (elapsed / 100) % 4;
    if tick == 0 {
        "|"
    } else if tick == 1 {
        "/"
    } else if tick == 2 {
        "-"
    } else {
        "\\"
    }
}

/// How long something goes on.
pub open spec fn since(started_at: u64, now: u64) -> u64 {
    if now >= started_at {
        (now - started_at) as u64
    } else {
        0
    }
}

/// What is said while something goes on: the sign, what it is, and the seconds.
pub open spec fn progress(what: Seq<char>, started_at: u64, now: u64) -> Seq<char> {
    let elapsed = since(started_at, now);
    spinner(elapsed) + what + decimal((elapsed / 1000) as nat) + "s"@
}

/// What is said while something goes on.
fn progress_text(what: &str, started_at: u64, now: u64) -> (text: String)
    ensures
        text@ == progress(what@, started_at, now),
{
    let elapsed: u64 = if now >= started_at {
        now - started_at
    } else {
        0
    };
    let seconds = decimal_text(elapsed / 1000);
    joined(joined3(spinner_frame(elapsed), what, seconds.as_str()).as_str(), "s")
}

/// The models in the order in which they first answer or are loaded.
pub open spec fn models_met(entries: Seq<EntryModel>) -> Seq<Seq<char>>
    decreases entries.len(),
{
    if entries.len() == 0 {
        Seq::empty()
    } else {
        let before = models_met(entries.drop_last());
        match entry_model_id(entries.last()) {
            Some(model_id) => if before.contains(model_id) {
                before
            } else {
                before.push(model_id)
            },
            None => before,
        }
    }
}

/// The model that an entry is about.
pub open spec fn entry_model_id(entry: EntryModel) -> Option<Seq<char>> {
    match entry {
        EntryModel::Assistant(turn) => Some(turn.model_id),
        EntryModel::LoadingModel { model_id, .. } => Some(model_id),
        _ => None,
    }
}

/// The colours of models, in their order; after the last comes the first again.
pub open spec fn palette(at: int) -> Color {
    let place = at % 12;
    if place == 0 {
        Color::Blue
    } else if place == 1 {
        Color::Red
    } else if place == 2 {
        Color::Green
    } else if place == 3 {
        Color::Yellow
    } else if place == 4 {
        Color::Magenta
    } else if place == 5 {
        Color::Cyan
    } else if place == 6 {
        Color::LightBlue
    } else if place == 7 {
        Color::LightRed
    } else if place == 8 {
        Color::LightGreen
    } else if place == 9 {
        Color::LightYellow
    } else if place == 10 {
        Color::LightMagenta
    } else {
        Color::LightCyan
    }
}

/// The colour of a model among those met; `None` where it was not met.
pub open spec fn color_of(models: Seq<Seq<char>>, model_id: Seq<char>) -> Option<Color> {
    if models.contains(model_id) {
        Some(palette(models.index_of_first(model_id).unwrap()))
    } else {
        None
    }
}

/// The place of a model in a list, if it is there.
fn find_model(models: &Vec<String>, model_id: &str) -> (at: Option<usize>)
    ensures
        at is Some <==> texts(models@).contains(model_id@),
        at matches Some(at) ==> at < models@.len() && texts(models@).index_of_first(model_id@)
            == Some(at as int),
{
    let ghost all = texts(models@);
    let mut at: usize = 0;
    while at < models.len()
        invariant
            at <= models@.len(),
            all == texts(models@),
            forall|k: int| 0 <= k < at ==> #[trigger] all[k] != model_id@,
        decreases models@.len() - at,
    {
        assert(all[at as int] == models@[at as int]@);
        if same_text(models[at].as_str(), model_id) {
            proof {
                all.index_of_first_ensures(model_id@);
                let first = all.index_of_first(model_id@).unwrap();
                if first < at {
                    assert(all[first] != model_id@);
                }
            }
            return Some(at);
        }
        at = at + 1;
    }
    None
}

/// The models in the order in which they first answer or are loaded.
pub fn build_model_list(entries: &[HistoryEntry]) -> (models: Vec<String>)
    ensures
        texts(models@) == models_met(entry_models(entries@)),
{
    let ghost all = entry_models(entries@);
    let mut models: Vec<String> = Vec::new();
    let mut i: usize = 0;
    assert(texts(models@) =~= models_met(all.take(0)));
    while i < entries.len()
        invariant
            i <= entries@.len(),
            all == entry_models(entries@),
            texts(models@) == models_met(all.take(i as int)),
        decreases entries@.len() - i,
    {
        let ghost before = texts(models@);
        proof {
            assert(all.take(i + 1).drop_last() =~= all.take(i as int));
            assert(all.take(i + 1).last() == entries@[i as int]@);
        }
        let met = match &entries[i] {
            HistoryEntry::Assistant { model_id, .. } => Some(model_id),
            HistoryEntry::LoadingModel { model_id, .. } => Some(model_id),
            _ => None,
        };
        if let Some(model_id) = met {
            if find_model(&models, model_id.as_str()).is_none() {
                models.push(model_id.clone());
                assert(texts(models@) =~= before.push(model_id@));
            }
        }
        i = i + 1;
    }
    assert(all.take(all.len() as int) =~= all);
    models
}

/// The colour at a place.
fn palette_color(at: usize) -> (color: Color)
    ensures
        color == palette(at as int),
{
    let place: usize = at % 12;
    if place == 0 {
        Color::Blue
    } else if place == 1 {
        Color::Red
    } else if place == 2 {
        Color::Green
    } else if place == 3 {
        Color::Yellow
    } else if place == 4 {
        Color::Magenta
    } else if place == 5 {
        Color::Cyan
    } else if place == 6 {
        Color::LightBlue
    } else if place == 7 {
        Color::LightRed
    } else if place == 8 {
        Color::LightGreen
    } else if place == 9 {
        Color::LightYellow
    } else if place == 10 {
        Color::LightMagenta
    } else {
        Color::LightCyan
    }
}

/// The style of an entry.
pub open spec fn base_style(selected: bool) -> TextStyle {
    if selected {
        TextStyle { reversed: true, bold: true, ..plain_style() }
    } else {
        TextStyle { fg: Some(Color::Gray), ..plain_style() }
    }
}

/// A dimmed style in a colour.
pub open spec fn label_style(selected: bool, color: Color) -> TextStyle {
    TextStyle { fg: Some(color), dim: true, reversed: selected, ..plain_style() }
}

/// A style in another colour.
pub open spec fn recolored(style: TextStyle, color: Color) -> TextStyle {
    TextStyle { fg: Some(color), ..style }
}

/// A label, and the lines of the content under it.
pub open spec fn labeled(
    label: Seq<char>,
    content: Seq<char>,
    body_style: TextStyle,
    label_style: TextStyle,
) -> Seq<LineView> {
    let head = seq![one_span(label, label_style)];
    if content.len() == 0 {
        head
    } else {
        head + in_style(pieces(content), body_style)
    }
}

/// What is said of the progress of a turn.
pub open spec fn status_text(status: AssistantStatus, now: u64) -> Seq<char> {
    match status {
        AssistantStatus::Queued { started_at } => progress(" queued... "@, started_at, now),
        AssistantStatus::Loading { started_at } => progress(" loading... "@, started_at, now),
        AssistantStatus::Generating { started_at } => progress(
            " generating... "@,
            started_at,
            now,
        ),
    }
}

/// The lines of a turn: the prompt, the model, the answer or the progress, and
/// the callouts, with empty lines between them.
pub open spec fn turn_lines(
    theme: Seq<char>,
    turn: TurnModel,
    selected: bool,
    models: Seq<Seq<char>>,
    now: u64,
) -> Seq<LineView> {
    let style = base_style(selected);
    let color = match color_of(models, turn.model_id) {
        Some(color) => color,
        None => Color::DarkGray,
    };
    let head = seq![
        one_span(turn.prompt, style),
        Seq::empty(),
        one_span(turn.model_id, label_style(selected, color)),
    ];
    let body = match turn.status {
        Some(status) => seq![Seq::empty(), one_span(status_text(status, now), style)],
        None => if turn.blocks.len() == 0 {
            Seq::empty()
        } else {
            seq![Seq::empty()] + markdown_lines(theme, turn.blocks, style)
        },
    };
    let notes = if turn.callouts.len() == 0 {
        Seq::empty()
    } else {
        seq![Seq::empty()] + in_style(turn.callouts, style)
    };
    head + body + notes
}

/// The lines of an entry.
pub open spec fn entry_lines(
    theme: Seq<char>,
    entry: EntryModel,
    selected: bool,
    models: Seq<Seq<char>>,
    now: u64,
) -> Seq<LineView> {
    let style = base_style(selected);
    let gray = if selected {
        Color::Gray
    } else {
        Color::DarkGray
    };
    match entry {
        EntryModel::Assistant(turn) => turn_lines(theme, turn, selected, models, now),
        EntryModel::LoadingModel { model_id, status } => labeled(
            "loading"@,
            match status {
                Some(ModelLoadStatus::Loading { started_at }) => progress(
                    " loading model... "@,
                    started_at,
                    now,
                ),
                _ => "model loaded: "@ + model_id,
            },
            recolored(style, Color::DarkGray),
            label_style(selected, gray),
        ),
        EntryModel::Command { raw, result } => labeled(
            "cmd"@,
            ":"@ + raw + "\n"@ + result,
            recolored(style, Color::LightBlue),
            label_style(selected, Color::LightBlue),
        ),
        EntryModel::Break => labeled(
            "break"@,
            "history disconnected here"@,
            recolored(style, Color::LightRed),
            label_style(selected, Color::LightRed),
        ),
        EntryModel::SystemNotice(content) => labeled(
            "system"@,
            content,
            recolored(style, Color::DarkGray),
            label_style(selected, gray),
        ),
    }
}

/// A label, and the lines of the content under it.
fn labeled_lines(
    label: &str,
    content: &str,
    body_style: TextStyle,
    label_style: TextStyle,
) -> (lines: Vec<StyledLine>)
    ensures
        line_views(lines@) == labeled(label@, content@, body_style, label_style),
{
    let mut lines: Vec<StyledLine> = Vec::new();
    push_line(&mut lines, StyledLine::of(label, label_style));
    assert(line_views(lines@) =~= seq![one_span(label@, label_style)]);
    if !content.is_empty() {
        push_lines(&mut lines, styled_lines(&split_lines(content), body_style));
    }
    lines
}

/// The dimmed style of a label.
fn dim_label(selected: bool, color: Color) -> (style: TextStyle)
    ensures
        style == label_style(selected, color),
{
    let style = TextStyle::plain().fg(color).dim();
    if selected {
        style.reversed()
    } else {
        style
    }
}

impl HistoryEntry {
    /// The lines of the entry.
    pub fn paragraph(
        &self,
        selected: bool,
        models: &Vec<String>,
        assets: &SyntaxAssets,
        now: u64,
    ) -> (lines: Vec<StyledLine>)
        ensures
            line_views(lines@) == entry_lines(
                assets.theme(),
                self@,
                selected,
                texts(models@),
                now,
            ),
    {
        let style = if selected {
            TextStyle::plain().reversed().bold()
        } else {
            TextStyle::plain().fg(Color::Gray)
        };
        let gray = if selected {
            Color::Gray
        } else {
            Color::DarkGray
        };
        match self {
            HistoryEntry::Assistant { model_id, prompt, blocks, callouts, status, .. } => {
                let color = match find_model(models, model_id.as_str()) {
                    Some(at) => palette_color(at),
                    None => Color::DarkGray,
                };
                let mut lines: Vec<StyledLine> = Vec::new();
                push_line(&mut lines, StyledLine::of(prompt.as_str(), style));
                push_line(&mut lines, StyledLine::empty());
                push_line(
                    &mut lines,
                    StyledLine::of(model_id.as_str(), dim_label(selected, color)),
                );
                let ghost head = line_views(lines@);
                assert(head =~= seq![
                    one_span(prompt@, style),
                    Seq::empty(),
                    one_span(model_id@, label_style(selected, color)),
                ]);
                match status {
                    Some(status) => {
                        let text = match status {
                            AssistantStatus::Queued { started_at } => progress_text(
                                " queued... ",
                                *started_at,
                                now,
                            ),
                            AssistantStatus::Loading { started_at } => progress_text(
                                " loading... ",
                                *started_at,
                                now,
                            ),
                            AssistantStatus::Generating { started_at } => progress_text(
                                " generating... ",
                                *started_at,
                                now,
                            ),
                        };
                        push_line(&mut lines, StyledLine::empty());
                        push_line(&mut lines, StyledLine::of(text.as_str(), style));
                        assert(line_views(lines@) =~= head + seq![
                            Seq::empty(),
                            one_span(text@, style),
                        ]);
                    },
                    None => {
                        if blocks.len() > 0 {
                            push_line(&mut lines, StyledLine::empty());
                            let ghost opened = line_views(lines@);
                            let ghost rest = markdown_lines(
                                assets.theme(),
                                block_models(blocks@),
                                style,
                            );
                            push_lines(&mut lines, render_markdown_blocks(assets, blocks, style));
                            assert(opened + rest =~= head + (seq![Seq::empty()] + rest));
                        } else {
                            assert(head =~= head + Seq::<LineView>::empty());
                        }
                    },
                }
                let ghost answered = line_views(lines@);
                if callouts.len() > 0 {
                    push_line(&mut lines, StyledLine::empty());
                    let ghost opened = line_views(lines@);
                    let ghost rest = in_style(texts(callouts@), style);
                    push_lines(&mut lines, styled_lines(callouts, style));
                    assert(opened + rest =~= answered + (seq![Seq::empty()] + rest));
                } else {
                    assert(answered =~= answered + Seq::<LineView>::empty());
                }
                lines
            },
            HistoryEntry::LoadingModel { model_id, status } => {
                let content = match status {
                    Some(ModelLoadStatus::Loading { started_at }) => progress_text(
                        " loading model... ",
                        *started_at,
                        now,
                    ),
                    _ => joined("model loaded: ", model_id.as_str()),
                };
                labeled_lines(
                    "loading",
                    content.as_str(),
                    style.fg(Color::DarkGray),
                    dim_label(selected, gray),
                )
            },
            HistoryEntry::Command { raw, result } => {
                let content = joined(joined3(":", raw.as_str(), "\n").as_str(), result.as_str());
                labeled_lines(
                    "cmd",
                    content.as_str(),
                    style.fg(Color::LightBlue),
                    dim_label(selected, Color::LightBlue),
                )
            },
            HistoryEntry::Break => labeled_lines(
                "break",
                "history disconnected here",
                style.fg(Color::LightRed),
                dim_label(selected, Color::LightRed),
            ),
            HistoryEntry::SystemNotice(content) => labeled_lines(
                "system",
                content.as_str(),
                style.fg(Color::DarkGray),
                dim_label(selected, gray),
            ),
        }
    }
}

/// Where the cursor stands in a paragraph.
#[derive(Debug, Clone, Copy, PartialEq, Eq, Structural)]
pub struct PromptCursor {
    pub row: u16,
    pub column: u16,
}

/// How many rows of a width a line of `len` characters fills; an empty line
/// fills one.
pub open spec fn rows_of(len: nat, width: nat) -> nat {
    if len == 0 {
        1
    } else {
        (len + width - 1) as nat / width
    }
}

/// How many rows lines fill.
pub open spec fn rows_before(lines: Seq<Seq<char>>, width: nat) -> nat
    decreases lines.len(),
{
    if lines.len() == 0 {
        0
    } else {
        rows_before(lines.drop_last(), width) + rows_of(lines.last().len(), width)
    }
}

/// Where the cursor stands after a text in rows of a width, the first of which
/// is `row_offset`. Rows count modulo the range of coordinates.
pub open spec fn cursor_after(text: Seq<char>, width: u16, row_offset: u16) -> PromptCursor {
    let wide: nat = if width == 0 {
        1
    } else {
        width as nat
    };
    let lines = pieces(text);
    let last = lines.last().len();
    PromptCursor {
        row: (row_offset + rows_before(lines.drop_last(), wide) + last / wide) as u16,
        column: (last % wide) as u16,
    }
}

proof fn lemma_rows_fit(text: Seq<char>, width: nat)
    requires
        width > 0,
    ensures
        rows_before(pieces(text).drop_last(), width) + pieces(text).last().len() <= text.len(),
    decreases text.len(),
{
    lemma_pieces(text);
    if text.len() == 0 {
        assert(pieces(text).drop_last() =~= Seq::empty());
    } else {
        let start = text.drop_last();
        lemma_pieces(start);
        lemma_rows_fit(start, width);
        let before = pieces(start);
        if text.last() == '\n' {
            assert(pieces(text).drop_last() =~= before);
            assert(before.drop_last() =~= before.take(before.len() - 1));
            let len = before.last().len();
            assert(rows_of(len, width) <= len + 1) by {
                if len > 0 {
                    lemma_rows_bound(len, width);
                }
            }
        } else {
            assert(pieces(text).drop_last() =~= before.drop_last());
        }
    }
}

proof fn lemma_rows_bound(len: nat, width: nat)
    requires
        width > 0,
        len > 0,
    ensures
        (len + width - 1) as nat / width <= len,
{
    let sum = (len + width - 1) as nat;
    assert(sum <= len * width) by (nonlinear_arith)
        requires
            sum == len + width - 1,
            len >= 1,
            width >= 1,
    ;
    vstd::arithmetic::div_mod::lemma_div_is_ordered(sum as int, (len * width) as int, width as int);
    vstd::arithmetic::div_mod::lemma_div_multiples_vanish(len as int, width as int);
    assert(len * width == width * len) by (nonlinear_arith);
}

proof fn lemma_rows_monotone(lines: Seq<Seq<char>>, upto: int, width: nat)
    requires
        0 <= upto <= lines.len(),
    ensures
        rows_before(lines.take(upto), width) <= rows_before(lines, width),
    decreases lines.len() - upto,
{
    if upto < lines.len() {
        lemma_rows_monotone(lines, upto + 1, width);
        assert(lines.take(upto + 1).drop_last() =~= lines.take(upto));
    } else {
        assert(lines.take(upto) =~= lines);
    }
}

/// Where the cursor stands after a text.
pub fn wrapped_cursor_position(text: &str, width: u16, row_offset: u16) -> (cursor: PromptCursor)
    ensures
        cursor == cursor_after(text@, width, row_offset),
{
    let wide: usize = if width == 0 {
        1
    } else {
        width as usize
    };
    let lines = split_lines(text);
    let last: usize = lines.len() - 1;
    let ghost parts = pieces(text@);
    let ghost front = parts.drop_last();
    proof {
        lemma_rows_fit(text@, wide as nat);
    }
    let mut row: u128 = row_offset as u128;
    let mut i: usize = 0;
    while i < last
        invariant
            i <= last,
            last + 1 == lines@.len(),
            wide > 0,
            parts == texts(lines@),
            front == parts.drop_last(),
            row == row_offset + rows_before(front.take(i as int), wide as nat),
            rows_before(front, wide as nat) <= usize::MAX,
        decreases last - i,
    {
        let len: usize = lines[i].as_str().unicode_len();
        proof {
            assert(front[i as int] == lines@[i as int]@);
            assert(front.take(i + 1).drop_last() =~= front.take(i as int));
            assert(front.take(i + 1).last() == front[i as int]);
            lemma_rows_monotone(front, i + 1, wide as nat);
        }
        let rows: usize = if len == 0 {
            1
        } else {
            proof {
                lemma_ceiling(len as nat, wide as nat);
            }
            (len - 1) / wide + 1
        };
        row = row + rows as u128;
        i = i + 1;
    }
    let len: usize = lines[last].as_str().unicode_len();
    proof {
        assert(front.take(last as int) =~= front);
        assert(parts.last() == lines@[last as int]@);
        vstd::arithmetic::div_mod::lemma_div_is_ordered_by_denominator(
            len as int,
            1,
            wide as int,
        );
        vstd::arithmetic::div_mod::lemma_div_basics(len as int);
        vstd::arithmetic::div_mod::lemma_mod_bound(len as int, wide as int);
    }
    let column: usize = len % wide;
    let row: u128 = row + (len / wide) as u128;
    #[verifier::truncate]
    let cursor_row: u16 = row as u16;
    PromptCursor { row: cursor_row, column: column as u16 }
}

proof fn lemma_ceiling(len: nat, width: nat)
    requires
        len > 0,
        width > 0,
    ensures
        (len + width - 1) as nat / width == (len - 1) as nat / width + 1,
        (len - 1) as nat / width + 1 <= len,
{
    vstd::arithmetic::div_mod::lemma_div_plus_one((len - 1) as int, width as int);
    lemma_rows_bound(len, width);
}

/// An item of the transcript.
#[derive(Debug, PartialEq, Eq)]
pub enum RenderItem {
    Paragraph { paragraph: ParagraphSpec, height: u16 },
    /// A prompt that is being written.
    Prompt { paragraph: ParagraphSpec, height: u16, cursor: PromptCursor },
    Divider { height: u16 },
}

/// An item by its contents.
#[verifier::ext_equal]
pub enum ItemView {
    Paragraph { paragraph: ParagraphView, height: u16 },
    Prompt { paragraph: ParagraphView, height: u16, cursor: PromptCursor },
    Divider { height: u16 },
}

impl ItemView {
    /// How high the item is.
    pub open spec fn height(self) -> u16 {
        match self {
            ItemView::Paragraph { height, .. } => height,
            ItemView::Prompt { height, .. } => height,
            ItemView::Divider { height } => height,
        }
    }
}

impl View for RenderItem {
    type V = ItemView;

    open spec fn view(&self) -> ItemView {
        match *self {
            RenderItem::Paragraph { paragraph, height } => ItemView::Paragraph {
                paragraph: paragraph@,
                height,
            },
            RenderItem::Prompt { paragraph, height, cursor } => ItemView::Prompt {
                paragraph: paragraph@,
                height,
                cursor,
            },
            RenderItem::Divider { height } => ItemView::Divider { height },
        }
    }
}

/// The contents of a list of items.
pub open spec fn item_views(items: Seq<RenderItem>) -> Seq<ItemView> {
    items.map_values(|item: RenderItem| item@)
}

impl RenderItem {
    /// How high the item is.
    pub fn height(&self) -> (height: u16)
        ensures
            height == self@.height(),
    {
        match self {
            RenderItem::Paragraph { height, .. } => *height,
            RenderItem::Prompt { height, .. } => *height,
            RenderItem::Divider { height } => *height,
        }
    }
}

/// How high items are together.
pub open spec fn total_height(items: Seq<ItemView>) -> nat
    decreases items.len(),
{
    if items.len() == 0 {
        0
    } else {
        total_height(items.drop_last()) + items.last().height() as nat
    }
}

/// Where an item starts.
pub open spec fn item_start(items: Seq<ItemView>, at: int) -> int {
    total_height(items.take(at)) as int
}

proof fn lemma_item_end(items: Seq<ItemView>, at: int)
    requires
        0 <= at < items.len(),
    ensures
        item_start(items, at + 1) == item_start(items, at) + items[at].height(),
{
    assert(items.take(at + 1).drop_last() =~= items.take(at));
}

proof fn lemma_starts_monotone(items: Seq<ItemView>, from: int, to: int)
    requires
        0 <= from <= to <= items.len(),
    ensures
        item_start(items, from) <= item_start(items, to),
    decreases to - from,
{
    if from < to {
        lemma_starts_monotone(items, from, to - 1);
        lemma_item_end(items, to - 1);
    }
}

/// Where each item starts and ends.
pub fn item_ranges(items: &Vec<RenderItem>) -> (ranges: Vec<(usize, usize)>)
    requires
        total_height(item_views(items@)) <= usize::MAX,
    ensures
        ranges@.len() == items@.len(),
        forall|i: int|
            0 <= i < ranges@.len() ==> (#[trigger] ranges@[i]).0 == item_start(
                item_views(items@),
                i,
            ) && ranges@[i].1 == item_start(item_views(items@), i + 1),
{
    let ghost all = item_views(items@);
    let len: usize = items.len();
    let mut ranges: Vec<(usize, usize)> = Vec::new();
    let mut cursor: usize = 0;
    let mut i: usize = 0;
    assert(all.take(0) =~= Seq::empty());
    while i < len
        invariant
            i <= len == items@.len(),
            all == item_views(items@),
            total_height(all) <= usize::MAX,
            ranges@.len() == i,
            cursor == item_start(all, i as int),
            forall|k: int|
                0 <= k < i ==> (#[trigger] ranges@[k]).0 == item_start(all, k) && ranges@[k].1
                    == item_start(all, k + 1),
        decreases len - i,
    {
        proof {
            assert(all[i as int] == items@[i as int]@);
            lemma_item_end(all, i as int);
            lemma_starts_monotone(all, i + 1, len as int);
            assert(all.take(len as int) =~= all);
        }
        let start: usize = cursor;
        cursor = cursor + items[i].height() as usize;
        ranges.push((start, cursor));
        i = i + 1;
    }
    ranges
}

/// How far the transcript is scrolled.
#[derive(Debug, Clone, Copy, PartialEq, Eq, Structural)]
pub struct HistoryScrollState {
    pub offset: usize,
}

impl Default for HistoryScrollState {
    fn default() -> (scroll: Self)
        ensures
            scroll.offset == 0,
    {
        HistoryScrollState { offset: 0 }
    }
}

/// The smaller of two numbers.
pub open spec fn least(a: int, b: int) -> int {
    if a < b {
        a
    } else {
        b
    }
}

/// The greater of two numbers.
pub open spec fn greatest(a: int, b: int) -> int {
    if a > b {
        a
    } else {
        b
    }
}

/// How far the transcript is scrolled so that an item is in view: no further
/// than it has to be, with the end of the item that the anchor names at that end
/// of the view. Without such an item its end is in view.
pub open spec fn scrolled(
    offset: int,
    items: Seq<ItemView>,
    anchor_index: Option<usize>,
    anchor: ScrollAnchor,
    viewport: int,
) -> int {
    let farthest = greatest(total_height(items) - viewport, 0);
    match anchor_index {
        None => farthest,
        Some(at) => {
            let start = item_start(items, at as int);
            let end = item_start(items, at + 1);
            let near = least(offset, farthest);
            if start < near || end > near + viewport {
                least(
                    match anchor {
                        ScrollAnchor::Top => start,
                        ScrollAnchor::Bottom => greatest(end - viewport, 0),
                    },
                    farthest,
                )
            } else {
                near
            }
        },
    }
}

/// What is drawn of an item of which `clipped` lines are out of view at the top
/// and `visible` lines are in view, from row `y` on.
pub open spec fn item_commands(
    area: Rect,
    item: ItemView,
    y: int,
    visible: int,
    clipped: int,
) -> Seq<DrawView> {
    let place = Rect::at(area.x as int, y, area.width as int, visible);
    match item {
        ItemView::Paragraph { paragraph, .. } => seq![
            DrawView::Paragraph {
                paragraph: ParagraphView { scroll: clipped as u16, ..paragraph },
                area: place,
            },
        ],
        ItemView::Prompt { paragraph, cursor, .. } => {
            let drawn = seq![
                DrawView::Paragraph {
                    paragraph: ParagraphView { scroll: clipped as u16, ..paragraph },
                    area: place,
                },
            ];
            if place.width > 0 && clipped <= cursor.row < clipped + place.height {
                drawn.push(
                    DrawView::Cursor {
                        x: (place.x + least(cursor.column as int, place.width - 1)) as u16,
                        y: (place.y + cursor.row - clipped) as u16,
                    },
                )
            } else {
                drawn
            }
        },
        ItemView::Divider { .. } => if clipped == 0 && visible > 0 {
            seq![
                DrawView::Divider {
                    area: Rect::at(area.x as int, y, area.width as int, 1),
                },
            ]
        } else {
            Seq::empty()
        },
    }
}

/// What is drawn of the first `upto` items with the view at `offset`: those that
/// are in view, from the top of the area on, or where there are too few from so
/// far down that they end with the area.
pub open spec fn visible_commands(
    area: Rect,
    items: Seq<ItemView>,
    offset: int,
    upto: int,
) -> Seq<DrawView>
    decreases upto,
{
    if upto <= 0 {
        Seq::empty()
    } else {
        let at = upto - 1;
        let before = visible_commands(area, items, offset, at);
        let start = item_start(items, at);
        let end = item_start(items, at + 1);
        let bottom = offset + area.height;
        let origin = area.y + greatest(
            area.height - greatest(total_height(items) - offset, 0),
            0,
        );
        if end <= offset || start >= bottom {
            before
        } else {
            let shown_from = greatest(start, offset);
            let shown_to = least(end, bottom);
            before + item_commands(
                area,
                items[at],
                origin + shown_from - offset,
                shown_to - shown_from,
                greatest(offset - start, 0),
            )
        }
    }
}

/// Draws an item that is in part out of view.
fn render_clipped_item(
    commands: &mut Vec<DrawCommand>,
    area: Rect,
    item: RenderItem,
    render_y: u16,
    visible_height: u16,
    clipped_top: u16,
)
    requires
        area.wf(),
        render_y + visible_height <= u16::MAX,
        clipped_top + visible_height <= u16::MAX,
    ensures
        draw_views(final(commands)@) == draw_views(old(commands)@) + item_commands(
            area,
            item@,
            render_y as int,
            visible_height as int,
            clipped_top as int,
        ),
{
    let ghost before = draw_views(commands@);
    let place = Rect::new(area.x, render_y, area.width, visible_height);
    match item {
        RenderItem::Paragraph { paragraph, .. } => {
            let mut paragraph = paragraph;
            paragraph.scroll = clipped_top;
            push_command(commands, DrawCommand::Paragraph { paragraph, area: place });
        },
        RenderItem::Prompt { paragraph, cursor, .. } => {
            let mut paragraph = paragraph;
            paragraph.scroll = clipped_top;
            push_command(commands, DrawCommand::Paragraph { paragraph, area: place });
            if place.width > 0 && cursor.row >= clipped_top && cursor.row < clipped_top
                + place.height {
                let column: u16 = if cursor.column < place.width - 1 {
                    cursor.column
                } else {
                    place.width - 1
                };
                push_command(
                    commands,
                    DrawCommand::Cursor {
                        x: place.x + column,
                        y: place.y + (cursor.row - clipped_top),
                    },
                );
            }
        },
        RenderItem::Divider { .. } => {
            if clipped_top == 0 && visible_height > 0 {
                let line = Rect::new(area.x, render_y, area.width, 1);
                push_command(commands, DrawCommand::Divider { area: line });
            }
        },
    }
    assert(draw_views(commands@) =~= before + item_commands(
        area,
        item@,
        render_y as int,
        visible_height as int,
        clipped_top as int,
    ));
}

/// How far the list is scrolled and what is drawn of it.
pub open spec fn scrollbox(
    area: Rect,
    offset: int,
    items: Seq<ItemView>,
    anchor_index: Option<usize>,
    anchor: ScrollAnchor,
) -> (int, Seq<DrawView>) {
    if area.height == 0 || total_height(items) == 0 {
        (0, Seq::empty())
    } else {
        let offset = scrolled(offset, items, anchor_index, anchor, area.height as int);
        (offset, visible_commands(area, items, offset, items.len() as int))
    }
}

/// Items that start below the view draw nothing, nor do those after them.
proof fn lemma_below_view(area: Rect, items: Seq<ItemView>, offset: int, from: int, upto: int)
    requires
        0 <= from <= upto <= items.len(),
        from < items.len() ==> item_start(items, from) >= offset + area.height,
    ensures
        visible_commands(area, items, offset, upto) == visible_commands(area, items, offset, from),
    decreases upto - from,
{
    if from < upto {
        lemma_below_view(area, items, offset, from, upto - 1);
        lemma_starts_monotone(items, from, upto - 1);
    }
}

/// Draws the part of a list that is in view, and scrolls so that the anchor is.
pub fn render_scrollbox(
    commands: &mut Vec<DrawCommand>,
    area: Rect,
    history_scroll: &mut HistoryScrollState,
    items: Vec<RenderItem>,
    anchor_index: Option<usize>,
    scroll_anchor: ScrollAnchor,
)
    requires
        area.wf(),
        total_height(item_views(items@)) <= usize::MAX,
        anchor_index matches Some(at) ==> at < items@.len(),
    ensures
        ({
            let (offset, drawn) = scrollbox(
                area,
                old(history_scroll).offset as int,
                item_views(items@),
                anchor_index,
                scroll_anchor,
            );
            &&& final(history_scroll).offset == offset
            &&& draw_views(final(commands)@) == draw_views(old(commands)@) + drawn
        }),
{
    let ghost all = item_views(items@);
    let ghost before = draw_views(commands@);
    let ghost former = history_scroll.offset as int;
    let ranges = item_ranges(&items);
    let len: usize = items.len();
    proof {
        assert(all.take(len as int) =~= all);
        assert(all.take(0) =~= Seq::empty());
    }
    let total: usize = if len == 0 {
        0
    } else {
        ranges[len - 1].1
    };
    let viewport: usize = area.height as usize;
    if viewport == 0 || total == 0 {
        history_scroll.offset = 0;
        assert(draw_views(commands@) =~= before + Seq::<DrawView>::empty());
        return;
    }
    let max_offset: usize = if total > viewport {
        total - viewport
    } else {
        0
    };
    if history_scroll.offset > max_offset {
        history_scroll.offset = max_offset;
    }
    match anchor_index {
        Some(at) => {
            let (start, end) = ranges[at];
            proof {
                lemma_starts_monotone(all, at + 1, len as int);
            }
            if start < history_scroll.offset || end > history_scroll.offset + viewport {
                let wanted: usize = match scroll_anchor {
                    ScrollAnchor::Top => start,
                    ScrollAnchor::Bottom => if end > viewport {
                        end - viewport
                    } else {
                        0
                    },
                };
                history_scroll.offset = if wanted < max_offset {
                    wanted
                } else {
                    max_offset
                };
            }
        },
        None => {
            history_scroll.offset = max_offset;
        },
    }
    let offset: usize = history_scroll.offset;
    assert(offset == scrolled(former, all, anchor_index, scroll_anchor, viewport as int));
    let bottom: usize = if offset < max_offset {
        offset + viewport
    } else {
        max_offset + viewport
    };
    let shown: usize = if total - offset < viewport {
        total - offset
    } else {
        viewport
    };
    let origin: u16 = area.y + (viewport - shown) as u16;
    let mut items = items;
    let mut i: usize = 0;
    assert(draw_views(commands@) =~= before + visible_commands(area, all, offset as int, 0));
    while i < len
        invariant_except_break
            draw_views(commands@) == before + visible_commands(area, all, offset as int, i as int),
        invariant
            i <= len == ranges@.len() == all.len(),
            len == items@.len(),
            area.wf(),
            all.take(len as int) =~= all,
            viewport == area.height,
            total == total_height(all),
            offset <= total,
            bottom == offset + viewport,
            shown == least(total - offset, viewport as int),
            origin == area.y + viewport - shown,
            forall|k: int| i <= k < len ==> #[trigger] items@[k]@ == all[k],
            forall|k: int|
                0 <= k < len ==> (#[trigger] ranges@[k]).0 == item_start(all, k) && ranges@[k].1
                    == item_start(all, k + 1),
        ensures
            draw_views(commands@) == before + visible_commands(
                area,
                all,
                offset as int,
                len as int,
            ),
        decreases len - i,
    {
        let (start, end) = ranges[i];
        proof {
            lemma_item_end(all, i as int);
            lemma_starts_monotone(all, i + 1, len as int);
            assert(items@[i as int]@ == all[i as int]);
        }
        if start >= bottom {
            proof {
                lemma_below_view(area, all, offset as int, i as int, len as int);
            }
            break;
        }
        let mut item = RenderItem::Divider { height: 0 };
        std::mem::swap(&mut item, &mut items[i]);
        if end > offset {
            let clipped: usize = if offset > start {
                offset - start
            } else {
                0
            };
            let from: usize = if start > offset {
                start
            } else {
                offset
            };
            let to: usize = if end < bottom {
                end
            } else {
                bottom
            };
            let ghost drawn = visible_commands(area, all, offset as int, i as int);
            render_clipped_item(
                commands,
                area,
                item,
                origin + (from - offset) as u16,
                (to - from) as u16,
                clipped as u16,
            );
            assert(draw_views(commands@) =~= before + visible_commands(
                area,
                all,
                offset as int,
                i + 1,
            ));
        }
        i = i + 1;
    }
}

/// Wrapped lines without a frame.
pub open spec fn wrapped(lines: Seq<LineView>) -> ParagraphView {
    ParagraphView { lines, wrap: true, frame: None, scroll: 0 }
}

/// The sign before what is written.
pub open spec fn gutter() -> SpanView {
    SpanView {
        text: "> "@,
        style: TextStyle { fg: Some(Color::Yellow), bold: true, ..plain_style() },
    }
}

/// A prompt that is being written, with the cursor behind the text.
pub open spec fn editing_item(draft: Seq<char>, content_width: u16) -> ItemView {
    let lines = seq![
        seq![
            gutter(),
            SpanView {
                text: draft,
                style: TextStyle { reversed: true, bold: true, ..plain_style() },
            },
        ],
    ];
    let room = greatest(content_width - 2, 0) as u16;
    let cursor = cursor_after(draft, room, 0);
    ItemView::Prompt {
        paragraph: wrapped(lines),
        height: paragraph_height(lines, content_width),
        cursor: if cursor.row == 0 {
            PromptCursor { column: least(cursor.column + 2, u16::MAX as int) as u16, ..cursor }
        } else {
            cursor
        },
    }
}

impl HistoryEntry {
    /// A prompt that is being written.
    pub fn editing_paragraph(&self, draft: &str, content_width: u16) -> (item: RenderItem)
        requires
            content_width <= WIDEST_TEXT,
        ensures
            item@ == editing_item(draft@, content_width),
    {
        let body_style = TextStyle::plain().reversed().bold();
        let gutter_style = TextStyle::plain().fg(Color::Yellow).bold();
        let line = StyledLine::pair(
            StyledSpan::new("> ", gutter_style),
            StyledSpan::new(draft, body_style),
        );
        let ghost spans = line@;
        let lines = vec![line];
        assert(line_views(lines@) =~= seq![spans]);
        let height: u16 = measure_lines(&lines, content_width);
        let room: u16 = if content_width > 2 {
            content_width - 2
        } else {
            0
        };
        let mut cursor = wrapped_cursor_position(draft, room, 0);
        if cursor.row == 0 {
            cursor.column = if cursor.column < u16::MAX - 2 {
                cursor.column + 2
            } else {
                u16::MAX
            };
        }
        let paragraph = ParagraphSpec { lines, wrap: true, frame: None, scroll: 0 };
        assert(paragraph@ =~= wrapped(seq![spans]));
        assert(spans =~= seq![
            gutter(),
            SpanView {
                text: draft@,
                style: TextStyle { reversed: true, bold: true, ..plain_style() },
            },
        ]);
        RenderItem::Prompt { paragraph, height, cursor }
    }
}

/// How wide the text of the transcript is measured in an area: there is a margin
/// of two on either side.
pub open spec fn content_width(area: Rect) -> u16 {
    Rect::at(
        least(area.x + 2, u16::MAX as int),
        area.y as int,
        greatest(area.width - 4, 0),
        area.height as int,
    ).width
}

/// The part of an area that the text of the transcript is measured in.
pub fn transcript_content_area(area: Rect) -> (content: Rect)
    ensures
        content == Rect::at(
            least(area.x + 2, u16::MAX as int),
            area.y as int,
            greatest(area.width - 4, 0),
            area.height as int,
        ),
        content.width == content_width(area),
{
    let x: u16 = if area.x < u16::MAX - 2 {
        area.x + 2
    } else {
        u16::MAX
    };
    let width: u16 = if area.width > 4 {
        area.width - 4
    } else {
        0
    };
    Rect::new(x, area.y, width, area.height)
}

/// What the transcript is made from.
#[verifier::ext_equal]
pub struct TranscriptModel {
    pub theme: Seq<char>,
    pub entries: Seq<EntryModel>,
    pub selected: Option<usize>,
    pub draft: Seq<char>,
    pub prompt_inline: bool,
    pub models: Seq<Seq<char>>,
    pub now: u64,
}

impl TranscriptModel {
    /// The item of an entry: what is written in its place, or its lines.
    pub open spec fn item(self, width: u16, at: int) -> ItemView {
        let selected = self.selected == Some(at as usize);
        if selected && self.prompt_inline && self.entries[at] is Assistant {
            editing_item(self.draft, width)
        } else {
            let lines = entry_lines(self.theme, self.entries[at], selected, self.models, self.now);
            ItemView::Paragraph { paragraph: wrapped(lines), height: paragraph_height(lines, width) }
        }
    }

    /// The items of the first `upto` entries, with dividers between them.
    pub open spec fn items(self, width: u16, upto: nat) -> Seq<ItemView>
        decreases upto,
    {
        if upto == 0 {
            Seq::empty()
        } else if upto == 1 {
            seq![self.item(width, 0)]
        } else {
            self.items(width, (upto - 1) as nat).push(ItemView::Divider { height: 1 }).push(
                self.item(width, upto - 1),
            )
        }
    }

    /// The item of the selected entry.
    pub open spec fn anchor(self) -> Option<usize> {
        match self.selected {
            Some(at) => if at < self.entries.len() {
                Some((2 * at) as usize)
            } else {
                None
            },
            None => None,
        }
    }

    /// How far the transcript is scrolled and what is drawn of it in an area.
    pub open spec fn drawn(self, area: Rect, offset: int, anchor: ScrollAnchor) -> (
        int,
        Seq<DrawView>,
    ) {
        if area.width == 0 || area.height == 0 {
            (offset, Seq::empty())
        } else {
            scrollbox(
                area,
                offset,
                self.items(content_width(area), self.entries.len()),
                self.anchor(),
                anchor,
            )
        }
    }
}

proof fn lemma_items_bounded(transcript: TranscriptModel, width: u16, upto: nat)
    ensures
        total_height(transcript.items(width, upto)) <= 0x10000 * upto,
        transcript.items(width, upto).len() == if upto == 0 {
            0
        } else {
            2 * upto - 1
        },
    decreases upto,
{
    reveal_with_fuel(total_height, 3);
    if upto > 0 {
        lemma_items_bounded(transcript, width, (upto - 1) as nat);
        let items = transcript.items(width, upto);
        if upto == 1 {
            assert(items.drop_last() =~= Seq::empty());
        } else {
            let before = transcript.items(width, (upto - 1) as nat);
            assert(items.drop_last() =~= before.push(ItemView::Divider { height: 1 }));
            assert(items.drop_last().drop_last() =~= before);
        }
    }
}

/// Draws the part of a conversation that is in view, and scrolls so that the
/// selected entry is.
pub fn render_history_viewport(
    commands: &mut Vec<DrawCommand>,
    area: Rect,
    history_scroll: &mut HistoryScrollState,
    entries: &[HistoryEntry],
    selected_chat_entry: Option<usize>,
    draft: &str,
    prompt_inline: bool,
    scroll_anchor: ScrollAnchor,
    models: &Vec<String>,
    assets: &SyntaxAssets,
    now: u64,
)
    requires
        area.wf(),
        content_width(area) <= WIDEST_TEXT,
        0x10000 * entries@.len() <= usize::MAX,
    ensures
        ({
            let transcript = TranscriptModel {
                theme: assets.theme(),
                entries: entry_models(entries@),
                selected: selected_chat_entry,
                draft: draft@,
                prompt_inline,
                models: texts(models@),
                now,
            };
            let (offset, drawn) = transcript.drawn(
                area,
                old(history_scroll).offset as int,
                scroll_anchor,
            );
            &&& final(history_scroll).offset == offset
            &&& draw_views(final(commands)@) == draw_views(old(commands)@) + drawn
        }),
{
    let ghost transcript = TranscriptModel {
        theme: assets.theme(),
        entries: entry_models(entries@),
        selected: selected_chat_entry,
        draft: draft@,
        prompt_inline,
        models: texts(models@),
        now,
    };
    if area.width == 0 || area.height == 0 {
        assert(draw_views(commands@) =~= draw_views(commands@) + Seq::<DrawView>::empty());
        return;
    }
    let width: u16 = transcript_content_area(area).width;
    let len: usize = entries.len();
    let mut items: Vec<RenderItem> = Vec::new();
    let mut anchor_index: Option<usize> = None;
    let mut i: usize = 0;
    assert(item_views(items@) =~= transcript.items(width, 0));
    while i < len
        invariant
            i <= len == entries@.len(),
            width <= WIDEST_TEXT,
            0x10000 * len <= usize::MAX,
            transcript == (TranscriptModel {
                theme: assets.theme(),
                entries: entry_models(entries@),
                selected: selected_chat_entry,
                draft: draft@,
                prompt_inline,
                models: texts(models@),
                now,
            }),
            item_views(items@) == transcript.items(width, i as nat),
            anchor_index == (match selected_chat_entry {
                Some(at) => if at < i {
                    Some((2 * at) as usize)
                } else {
                    None
                },
                None => None,
            }),
        decreases len - i,
    {
        let ghost former = item_views(items@);
        proof {
            lemma_items_bounded(transcript, width, i as nat);
            assert(transcript.entries[i as int] == entries@[i as int]@);
        }
        if i > 0 {
            items.push(RenderItem::Divider { height: 1 });
        }
        let ghost parted = item_views(items@);
        assert(i > 0 ==> parted =~= former.push(ItemView::Divider { height: 1 }));
        let selected: bool = match selected_chat_entry {
            Some(at) => at == i,
            None => false,
        };
        let is_turn: bool = match &entries[i] {
            HistoryEntry::Assistant { .. } => true,
            _ => false,
        };
        if selected {
            anchor_index = Some(items.len());
        }
        let item = if selected && prompt_inline && is_turn {
            entries[i].editing_paragraph(draft, width)
        } else {
            let lines = entries[i].paragraph(selected, models, assets, now);
            let height: u16 = measure_lines(&lines, width);
            RenderItem::Paragraph {
                paragraph: ParagraphSpec { lines, wrap: true, frame: None, scroll: 0 },
                height,
            }
        };
        assert(item@ == transcript.item(width, i as int));
        items.push(item);
        assert(item_views(items@) =~= parted.push(transcript.item(width, i as int)));
        i = i + 1;
        assert(item_views(items@) =~= transcript.items(width, i as nat));
    }
    proof {
        lemma_items_bounded(transcript, width, len as nat);
    }
    render_scrollbox(commands, area, history_scroll, items, anchor_index, scroll_anchor);
}

/// The selected entry is in view, as far as the view is high enough for it.
pub proof fn selected_item_is_in_view(
    offset: nat,
    items: Seq<ItemView>,
    at: usize,
    anchor: ScrollAnchor,
    viewport: nat,
)
    requires
        at < items.len(),
        viewport > 0,
    ensures
        ({
            let shown_from = scrolled(offset as int, items, Some(at), anchor, viewport as int);
            let start = item_start(items, at as int);
            let end = item_start(items, at + 1);
            &&& items[at as int].height() <= viewport ==> shown_from <= start && end <= shown_from
                + viewport
            &&& items[at as int].height() > 0 ==> start < shown_from + viewport && shown_from < end
        }),
{
    lemma_item_end(items, at as int);
    lemma_starts_monotone(items, at + 1, items.len() as int);
    assert(items.take(items.len() as int) =~= items);
}

/// The transcript is scrolled no further than to its end.
pub proof fn view_ends_within_the_transcript(
    offset: nat,
    items: Seq<ItemView>,
    anchor_index: Option<usize>,
    anchor: ScrollAnchor,
    viewport: nat,
)
    requires
        anchor_index matches Some(at) ==> at < items.len(),
    ensures
        ({
            let shown_from = scrolled(offset as int, items, anchor_index, anchor, viewport as int);
            &&& 0 <= shown_from
            &&& shown_from == 0 || shown_from + viewport <= total_height(items)
        }),
{
}

/// A turn is shown with its prompt first, then its model, and then its answer, or how far it is
/// while it waits or runs, and the notes on it last. The prompt of the selected turn is
/// reversed.
pub proof fn turn_is_shown_from_prompt_to_notes(
    theme: Seq<char>,
    turn: TurnModel,
    selected: bool,
    models: Seq<Seq<char>>,
    now: u64,
)
    ensures
        ({
            let lines = entry_lines(theme, EntryModel::Assistant(turn), selected, models, now);
            let answer = markdown_lines(theme, turn.blocks, base_style(selected));
            let notes: int = if turn.callouts.len() == 0 {
                0
            } else {
                turn.callouts.len() as int + 1
            };
            let end = lines.len() - notes;
            &&& lines.len() >= 3
            &&& lines[0].len() == 1
            &&& lines[0][0].text == turn.prompt
            &&& lines[0][0].style.reversed == selected
            &&& lines[1].len() == 0
            &&& lines[2].len() == 1
            &&& lines[2][0].text == turn.model_id
            &&& turn.status is None && turn.blocks.len() > 0 ==> lines[3].len() == 0
                && lines.subrange(4, end) == answer
            &&& turn.status is None && turn.blocks.len() == 0 ==> end == 3
            &&& turn.status matches Some(status) ==> end == 5 && lines[3].len() == 0
                && lines[4].len() == 1 && lines[4][0].text == status_text(status, now)
            &&& forall|i: int|
                0 <= i < turn.callouts.len() ==> (#[trigger] lines[end + 1 + i]).len() == 1
                    && lines[end + 1 + i][0].text == turn.callouts[i]
        }),
{
    let style = base_style(selected);
    let lines = entry_lines(theme, EntryModel::Assistant(turn), selected, models, now);
    let answer = markdown_lines(theme, turn.blocks, style);
    let notes: int = if turn.callouts.len() == 0 {
        0
    } else {
        turn.callouts.len() as int + 1
    };
    let end = lines.len() - notes;
    if turn.status is None && turn.blocks.len() > 0 {
        assert(lines.subrange(4, end) =~= answer);
    }
    assert forall|i: int| 0 <= i < turn.callouts.len() implies (
    #[trigger] lines[end + 1 + i]).len() == 1 && lines[end + 1 + i][0].text
        == turn.callouts[i] by {
        assert(lines[end + 1 + i] == in_style(turn.callouts, style)[i]);
    }
}

/// How far a turn is, is said in a word, with the whole seconds since it began.
pub proof fn progress_says_word_and_seconds(started_at: u64, elapsed: u64)
    requires
        started_at + elapsed <= u64::MAX,
    ensures
        ({
            let now = (started_at + elapsed) as u64;
            let seconds = decimal((elapsed / 1000) as nat) + "s"@;
            &&& status_text(AssistantStatus::Queued { started_at }, now).skip(1)
                == " queued... "@ + seconds
            &&& status_text(AssistantStatus::Loading { started_at }, now).skip(1)
                == " loading... "@ + seconds
            &&& status_text(AssistantStatus::Generating { started_at }, now).skip(1)
                == " generating... "@ + seconds
        }),
{
    reveal_strlit("|");
    reveal_strlit("/");
    reveal_strlit("-");
    reveal_strlit("\\");
    let now = (started_at + elapsed) as u64;
    let seconds = decimal((elapsed / 1000) as nat) + "s"@;
    assert(spinner(elapsed).len() == 1);
    assert(since(started_at, now) == elapsed);
    assert(status_text(AssistantStatus::Queued { started_at }, now).skip(1) =~= " queued... "@
        + seconds);
    assert(status_text(AssistantStatus::Loading { started_at }, now).skip(1) =~= " loading... "@
        + seconds);
    assert(status_text(AssistantStatus::Generating { started_at }, now).skip(1)
        =~= " generating... "@ + seconds);
}

/// The sign turns through four pictures, a tenth of a second each, all different.
pub proof fn spinner_turns(elapsed: u64)
    requires
        elapsed + 400 <= u64::MAX,
    ensures
        spinner((elapsed + 400) as u64) == spinner(elapsed),
        spinner((elapsed + 100) as u64) != spinner(elapsed),
        spinner((elapsed + 200) as u64) != spinner(elapsed),
{
    reveal_strlit("|");
    reveal_strlit("/");
    reveal_strlit("-");
    reveal_strlit("\\");
    assert("|"@[0] != "/"@[0] && "|"@[0] != "-"@[0] && "|"@[0] != "\\"@[0]);
    assert("/"@[0] != "-"@[0] && "/"@[0] != "\\"@[0] && "-"@[0] != "\\"@[0]);
    assert((elapsed + 100) / 100 == elapsed / 100 + 1);
    assert((elapsed + 200) / 100 == elapsed / 100 + 2);
    assert((elapsed + 400) / 100 == elapsed / 100 + 4);
}

/// Commands, breaks, notices and what is loaded are shown under a label, line by line: the lines
/// under the label put together are what the entry says.
pub proof fn entry_is_shown_under_its_label(
    theme: Seq<char>,
    entry: EntryModel,
    selected: bool,
    models: Seq<Seq<char>>,
    now: u64,
)
    requires
        !(entry is Assistant),
    ensures
        ({
            let lines = entry_lines(theme, entry, selected, models, now);
            let under = lines.skip(1).map_values(|line: LineView| line[0].text);
            &&& lines.len() >= 1
            &&& lines[0].len() == 1
            &&& entry matches EntryModel::Command { raw, result } ==> lines[0][0].text == "cmd"@
                && lines_joined(under) == ":"@ + raw + "\n"@ + result
            &&& entry is Break ==> lines[0][0].text == "break"@ && lines_joined(under)
                == "history disconnected here"@
            &&& entry matches EntryModel::SystemNotice(content) ==> lines[0][0].text == "system"@
                && lines_joined(under) == content
            &&& entry matches EntryModel::LoadingModel { model_id, status } ==> lines[0][0].text
                == "loading"@ && match status {
                Some(ModelLoadStatus::Loading { started_at }) => lines_joined(under) == progress(
                    " loading model... "@,
                    started_at,
                    now,
                ),
                _ => lines_joined(under) == "model loaded: "@ + model_id,
            }
        }),
{
    let lines = entry_lines(theme, entry, selected, models, now);
    let under = lines.skip(1).map_values(|line: LineView| line[0].text);
    let content = match entry {
        EntryModel::Command { raw, result } => ":"@ + raw + "\n"@ + result,
        EntryModel::Break => "history disconnected here"@,
        EntryModel::SystemNotice(content) => content,
        EntryModel::LoadingModel { model_id, status } => match status {
            Some(ModelLoadStatus::Loading { started_at }) => progress(
                " loading model... "@,
                started_at,
                now,
            ),
            _ => "model loaded: "@ + model_id,
        },
        EntryModel::Assistant(_) => Seq::empty(),
    };
    if content.len() == 0 {
        assert(under =~= Seq::<Seq<char>>::empty());
        assert(lines_joined(under) =~= content);
    } else {
        assert(under =~= pieces(content));
        pieces_put_together_are_the_text(content);
    }
}

/// Every model that answers or is loaded has its place in the list of those met, once, in the
/// order in which they come first, and no others do.
pub proof fn models_are_met_once_each(entries: Seq<EntryModel>)
    ensures
        models_met(entries).no_duplicates(),
        forall|i: int|
            0 <= i < entries.len() ==> ((#[trigger] entries[i]) matches EntryModel::Assistant(turn)
                ==> models_met(entries).contains(turn.model_id)),
        forall|i: int|
            0 <= i < entries.len() ==> ((#[trigger] entries[i]) matches EntryModel::LoadingModel {
                model_id,
                ..
            } ==> models_met(entries).contains(model_id)),
        forall|k: int|
            0 <= k < models_met(entries).len() ==> exists|i: int|
                0 <= i < entries.len() && entry_model_id(#[trigger] entries[i]) == Some(
                    #[trigger] models_met(entries)[k],
                ),
        entries.len() > 0 ==> models_met(entries.drop_last()).len() <= models_met(entries).len()
            && models_met(entries).take(models_met(entries.drop_last()).len() as int)
            == models_met(entries.drop_last()),
    decreases entries.len(),
{
    let all = models_met(entries);
    if entries.len() > 0 {
        let start = entries.drop_last();
        models_are_met_once_each(start);
        let before = models_met(start);
        assert(all.take(before.len() as int) =~= before);
        assert forall|i: int| 0 <= i < entries.len() && entry_model_id(#[trigger] entries[i])
            is Some implies all.contains(entry_model_id(entries[i])->0) by {
            let model_id = entry_model_id(entries[i])->0;
            if i < start.len() {
                assert(start[i] == entries[i]);
                assert(before.contains(model_id));
                let k = choose|k: int| 0 <= k < before.len() && before[k] == model_id;
                assert(all[k] == model_id);
            } else if before.contains(model_id) {
                assert(all == before);
            } else {
                assert(all[before.len() as int] == model_id);
            }
        }
        assert forall|k: int| 0 <= k < all.len() implies exists|i: int|
            0 <= i < entries.len() && entry_model_id(#[trigger] entries[i]) == Some(
                #[trigger] all[k],
            ) by {
            if k < before.len() {
                assert(all[k] == before[k]);
                let i = choose|i: int|
                    0 <= i < start.len() && entry_model_id(#[trigger] start[i]) == Some(before[k]);
                assert(entries[i] == start[i]);
            } else {
                let last = entries.len() - 1;
                assert(entry_model_id(entries[last]) == Some(all[k]));
            }
        }
    }
}

/// Two models that are met have different colours, up to twelve of them.
pub proof fn models_are_told_apart_by_colour(models: Seq<Seq<char>>, i: int, j: int)
    requires
        models.no_duplicates(),
        models.len() <= 12,
        0 <= i < j < models.len(),
    ensures
        color_of(models, models[i]) is Some,
        color_of(models, models[i]) != color_of(models, models[j]),
{
    lemma_place_in_list(models, i);
    lemma_place_in_list(models, j);
}

proof fn lemma_place_in_list(models: Seq<Seq<char>>, at: int)
    requires
        models.no_duplicates(),
        0 <= at < models.len(),
    ensures
        models.contains(models[at]),
        models.index_of_first(models[at]) == Some(at),
{
    models.index_of_first_ensures(models[at]);
}

/// The cursor stands behind the text: a character moves it one column on, into the next row where
/// the row is full, and a line break moves it to the start of a row of its own.
pub proof fn cursor_follows_the_text(text: Seq<char>, ch: char, width: u16, row_offset: u16)
    requires
        width > 0,
        row_offset + text.len() + 1 <= u16::MAX,
    ensures
        ({
            let before = cursor_after(text, width, row_offset);
            let after = cursor_after(text.push(ch), width, row_offset);
            &&& cursor_after(Seq::empty(), width, row_offset) == (PromptCursor {
                row: row_offset,
                column: 0,
            })
            &&& before.column < width
            &&& ch != '\n' && before.column + 1 < width ==> after.row == before.row
                && after.column == before.column + 1
            &&& ch != '\n' && before.column + 1 == width ==> after.row == before.row + 1
                && after.column == 0
            &&& ch == '\n' ==> after.column == 0 && after.row == if before.column == 0
                && text.len() > 0 && text.last() != '\n' {
                before.row as int
            } else {
                before.row + 1
            }
        }),
{
    let wide = width as nat;
    let lines = pieces(text);
    let longer = text.push(ch);
    let next = pieces(longer);
    let last = lines.last().len();
    lemma_pieces(text);
    lemma_pieces(longer);
    assert(longer.drop_last() =~= text);
    lemma_rows_fit(text, wide);
    lemma_rows_fit(longer, wide);
    lemma_quotient_fits(last, wide);
    lemma_last_piece(text);
    vstd::arithmetic::div_mod::lemma_mod_bound(last as int, wide as int);
    assert(pieces(Seq::<char>::empty()).drop_last() =~= Seq::<Seq<char>>::empty());
    vstd::arithmetic::div_mod::lemma_small_mod(0, wide);
    vstd::arithmetic::div_mod::lemma_basic_div(0, wide as int);
    if ch == '\n' {
        assert(next.drop_last() =~= lines);
        assert(next.last() =~= Seq::<char>::empty());
        assert(rows_before(lines, wide) == rows_before(lines.drop_last(), wide) + rows_of(
            last,
            wide,
        ));
        lemma_rows_of(last, wide);
    } else {
        assert(next.drop_last() =~= lines.drop_last());
        assert(next.last().len() == last + 1);
        lemma_quotient_fits(last + 1, wide);
        lemma_one_more(last, wide);
    }
}

proof fn lemma_quotient_fits(len: nat, width: nat)
    requires
        width > 0,
    ensures
        0 <= len / width <= len,
{
    vstd::arithmetic::div_mod::lemma_div_nonincreasing(len as int, width as int);
    vstd::arithmetic::div_mod::lemma_div_pos_is_pos(len as int, width as int);
}

proof fn lemma_last_piece(text: Seq<char>)
    ensures
        text.len() > 0 && text.last() != '\n' ==> pieces(text).last().len() > 0,
        text.len() == 0 || text.last() == '\n' ==> pieces(text).last().len() == 0,
{
    if text.len() > 0 {
        lemma_pieces(text.drop_last());
    }
}

proof fn lemma_one_more(len: nat, width: nat)
    requires
        width > 0,
    ensures
        len % width + 1 < width ==> (len + 1) / width == len / width && (len + 1) % width == len
            % width + 1,
        len % width + 1 == width ==> (len + 1) / width == len / width + 1 && (len + 1) % width
            == 0,
{
    let quotient = (len / width) as int;
    let rest = (len % width) as int;
    let wide = width as int;
    vstd::arithmetic::div_mod::lemma_fundamental_div_mod(len as int, wide);
    vstd::arithmetic::div_mod::lemma_mod_bound(len as int, wide);
    if rest + 1 < wide {
        vstd::arithmetic::div_mod::lemma_fundamental_div_mod_converse(
            len as int + 1,
            wide,
            quotient,
            rest + 1,
        );
    } else {
        assert(len + 1 == (quotient + 1) * wide + 0) by (nonlinear_arith)
            requires
                len == wide * quotient + rest,
                rest + 1 == wide,
        ;
        vstd::arithmetic::div_mod::lemma_fundamental_div_mod_converse(
            len as int + 1,
            wide,
            quotient + 1,
            0,
        );
    }
}

proof fn lemma_rows_of(len: nat, width: nat)
    requires
        width > 0,
    ensures
        rows_of(len, width) == if len > 0 && len % width == 0 {
            len / width
        } else {
            len / width + 1
        },
{
    let quotient = (len / width) as int;
    let rest = (len % width) as int;
    let wide = width as int;
    vstd::arithmetic::div_mod::lemma_fundamental_div_mod(len as int, wide);
    vstd::arithmetic::div_mod::lemma_mod_bound(len as int, wide);
    if len == 0 {
        vstd::arithmetic::div_mod::lemma_basic_div(0, wide);
    } else if rest == 0 {
        assert(len + wide - 1 == quotient * wide + (wide - 1)) by (nonlinear_arith)
            requires
                len == wide * quotient + rest,
                rest == 0,
        ;
        vstd::arithmetic::div_mod::lemma_fundamental_div_mod_converse(
            len + wide - 1,
            wide,
            quotient,
            wide - 1,
        );
    } else {
        assert(len + wide - 1 == (quotient + 1) * wide + (rest - 1)) by (nonlinear_arith)
            requires
                len == wide * quotient + rest,
        ;
        vstd::arithmetic::div_mod::lemma_fundamental_div_mod_converse(
            len + wide - 1,
            wide,
            quotient + 1,
            rest - 1,
        );
    }
}

/// Every entry has an item, in the order of the entries, with a line between two of them.
pub proof fn every_entry_has_an_item(transcript: TranscriptModel, width: u16, upto: nat, at: int)
    requires
        0 <= at < upto,
    ensures
        transcript.items(width, upto).len() == 2 * upto - 1,
        transcript.items(width, upto)[2 * at] == transcript.item(width, at),
        at + 1 < upto ==> transcript.items(width, upto)[2 * at + 1] == (ItemView::Divider {
            height: 1,
        }),
    decreases upto,
{
    lemma_items_bounded(transcript, width, upto);
    if upto > 1 {
        lemma_items_bounded(transcript, width, (upto - 1) as nat);
        if at < upto - 1 {
            every_entry_has_an_item(transcript, width, (upto - 1) as nat, at);
        }
    }
}

/// The item of an entry holds the lines of the entry; while a prompt is edited in its place, what
/// is written there is shown instead, behind a sign.
pub proof fn item_shows_its_entry(transcript: TranscriptModel, width: u16, at: int)
    requires
        0 <= at < transcript.entries.len() <= usize::MAX,
    ensures
        ({
            let selected = transcript.selected == Some(at as usize);
            let lines = entry_lines(
                transcript.theme,
                transcript.entries[at],
                selected,
                transcript.models,
                transcript.now,
            );
            let edited = selected && transcript.prompt_inline && transcript.entries[at]
                is Assistant;
            &&& !edited ==> (transcript.item(width, at) matches ItemView::Paragraph {
                paragraph,
                height,
            } && paragraph.lines == lines && paragraph.wrap && height == paragraph_height(
                lines,
                width,
            ))
            &&& edited ==> (transcript.item(width, at) matches ItemView::Prompt {
                paragraph,
                ..
            } && paragraph.wrap && paragraph.lines.len() == 1 && paragraph.lines[0].len() == 2
                && paragraph.lines[0][0].text == "> "@ && paragraph.lines[0][1].text
                == transcript.draft)
        }),
{
}

/// An item that is in view is drawn, from where it comes into view, as high as it is in view and
/// as far scrolled as it is above it.
pub proof fn item_in_view_is_drawn(
    area: Rect,
    items: Seq<ItemView>,
    offset: int,
    upto: int,
    at: int,
)
    requires
        0 <= at < upto <= items.len(),
        items[at] is Paragraph,
        0 <= offset,
        item_start(items, at) < offset + area.height,
        item_start(items, at + 1) > offset,
    ensures
        ({
            let start = item_start(items, at);
            let end = item_start(items, at + 1);
            let from = if start > offset {
                start
            } else {
                offset
            };
            let to = if end < offset + area.height {
                end
            } else {
                offset + area.height
            };
            let above = if offset > start {
                offset - start
            } else {
                0
            };
            let spare = area.height - (total_height(items) - offset);
            let origin = if total_height(items) < offset {
                area.y + area.height
            } else if spare > 0 {
                area.y + spare
            } else {
                area.y as int
            };
            visible_commands(area, items, offset, upto).contains(
                DrawView::Paragraph {
                    paragraph: ParagraphView {
                        scroll: above as u16,
                        ..items[at]->Paragraph_paragraph
                    },
                    area: Rect::at(
                        area.x as int,
                        origin + from - offset,
                        area.width as int,
                        to - from,
                    ),
                },
            )
        }),
    decreases upto,
{
    let drawn = visible_commands(area, items, offset, upto);
    let before = visible_commands(area, items, offset, upto - 1);
    if at == upto - 1 {
        let own = item_commands(
            area,
            items[at],
            area.y + greatest(area.height - greatest(total_height(items) - offset, 0), 0)
                + greatest(item_start(items, at), offset) - offset,
            least(item_start(items, at + 1), offset + area.height) - greatest(
                item_start(items, at),
                offset,
            ),
            greatest(offset - item_start(items, at), 0),
        );
        assert(drawn == before + own);
        assert(drawn[before.len() as int] == own[0]);
    } else {
        item_in_view_is_drawn(area, items, offset, upto - 1, at);
        assert forall|command: DrawView| before.contains(command) implies drawn.contains(
            command,
        ) by {
            let k = choose|k: int| 0 <= k < before.len() && before[k] == command;
            assert(drawn[k] == command);
        }
    }
}

/// A view that shows the selected item already is not scrolled. One that does not comes to show
/// the end of it that the selection came to last, at that end of the view.
pub proof fn view_scrolls_no_further_than_it_has_to(
    offset: nat,
    items: Seq<ItemView>,
    at: usize,
    anchor: ScrollAnchor,
    viewport: nat,
)
    requires
        at < items.len(),
        viewport > 0,
        offset == 0 || offset + viewport <= total_height(items),
    ensures
        ({
            let start = item_start(items, at as int);
            let end = item_start(items, at + 1);
            let shown = scrolled(offset as int, items, Some(at), anchor, viewport as int);
            &&& offset <= start && end <= offset + viewport ==> shown == offset
            &&& !(offset <= start && end <= offset + viewport) && anchor == ScrollAnchor::Bottom
                && end >= viewport ==> shown + viewport == end
            &&& !(offset <= start && end <= offset + viewport) && anchor == ScrollAnchor::Top
                && start + viewport <= total_height(items) ==> shown == start
        }),
{
    lemma_item_end(items, at as int);
    lemma_starts_monotone(items, at + 1, items.len() as int);
    assert(items.take(items.len() as int) =~= items);
}

/// The selected entry is drawn, as far as it fits the area, wherever the transcript was scrolled to.
pub proof fn selected_entry_is_drawn(
    transcript: TranscriptModel,
    area: Rect,
    offset: nat,
    anchor: ScrollAnchor,
    at: usize,
)
    requires
        area.wf(),
        area.width > 0,
        area.height > 0,
        transcript.selected == Some(at),
        at < transcript.entries.len(),
        2 * transcript.entries.len() <= usize::MAX,
        !(transcript.prompt_inline && transcript.entries[at as int] is Assistant),
        transcript.item(content_width(area), at as int).height() > 0,
    ensures
        exists|k: int|
            0 <= k < transcript.drawn(area, offset as int, anchor).1.len() && (
            #[trigger] transcript.drawn(area, offset as int, anchor).1[k]
                matches DrawView::Paragraph { paragraph, .. } && paragraph.lines == entry_lines(
                transcript.theme,
                transcript.entries[at as int],
                true,
                transcript.models,
                transcript.now,
            )),
{
    let width = content_width(area);
    let count = transcript.entries.len();
    let items = transcript.items(width, count);
    every_entry_has_an_item(transcript, width, count, at as int);
    item_shows_its_entry(transcript, width, at as int);
    let place = (2 * at) as usize;
    selected_item_is_in_view(offset, items, place, anchor, area.height as nat);
    view_ends_within_the_transcript(offset, items, Some(place), anchor, area.height as nat);
    let shown = scrolled(offset as int, items, Some(place), anchor, area.height as int);
    lemma_item_end(items, place as int);
    lemma_starts_monotone(items, place + 1, items.len() as int);
    assert(items.take(items.len() as int) =~= items);
    item_in_view_is_drawn(area, items, shown, items.len() as int, place as int);
    let drawn = transcript.drawn(area, offset as int, anchor).1;
    assert(drawn == visible_commands(area, items, shown, items.len() as int));
    let wanted = choose|command: DrawView| #[trigger]
        drawn.contains(command) && (command matches DrawView::Paragraph { paragraph, .. }
            && paragraph.lines == entry_lines(
            transcript.theme,
            transcript.entries[at as int],
            true,
            transcript.models,
            transcript.now,
        ));
    let k = choose|k: int| 0 <= k < drawn.len() && drawn[k] == wanted;
    assert(drawn[k] == wanted);
}

/// Where nothing is selected, the end of the transcript is in view.
pub proof fn end_is_shown_where_nothing_is_selected(
    offset: int,
    items: Seq<ItemView>,
    anchor: ScrollAnchor,
    viewport: nat,
)
    ensures
        ({
            let shown = scrolled(offset, items, None, anchor, viewport as int);
            if total_height(items) <= viewport {
                shown == 0
            } else {
                shown + viewport == total_height(items)
            }
        }),
{
}

/// What is selected stands out, and only that; the text takes up the area but for two columns on
/// either side.
pub proof fn selection_stands_out(area: Rect, color: Color)
    requires
        area.wf(),
        area.width >= 4,
    ensures
        base_style(true).reversed,
        base_style(true).bold,
        !base_style(false).reversed,
        !base_style(false).bold,
        label_style(true, color).reversed,
        !label_style(false, color).reversed,
        label_style(true, color).fg == Some(color),
        content_width(area) == area.width - 4,
{
}

/// The cursor of a prompt that is edited in its place stands behind the sign and what is written,
/// one column on for every character, as long as that fits the first row.
pub proof fn edited_prompt_has_the_cursor_behind_it(draft: Seq<char>, width: u16)
    requires
        !draft.contains('\n'),
        draft.len() + 2 < width,
    ensures
        editing_item(draft, width) matches ItemView::Prompt { cursor, .. } && cursor.row == 0
            && cursor.column == draft.len() + 2,
{
    lemma_one_line(draft);
    let lines = pieces(draft);
    let room = (width - 2) as nat;
    assert(lines.drop_last() =~= Seq::<Seq<char>>::empty());
    vstd::arithmetic::div_mod::lemma_small_mod(draft.len(), room);
    vstd::arithmetic::div_mod::lemma_basic_div(draft.len() as int, room as int);
}

proof fn lemma_one_line(text: Seq<char>)
    requires
        !text.contains('\n'),
    ensures
        pieces(text) == seq![text],
    decreases text.len(),
{
    if text.len() > 0 {
        let start = text.drop_last();
        assert(!start.contains('\n')) by {
            if start.contains('\n') {
                let k = start.index_of('\n');
                assert(text[k] == '\n');
            }
        }
        lemma_one_line(start);
        assert(text[text.len() - 1] == text.last());
        assert(text.last() != '\n');
        assert(start.push(text.last()) =~= text);
        assert(pieces(text) =~= seq![text]);
    } else {
        assert(text =~= Seq::<char>::empty());
    }
}

/// The cursor of a prompt is drawn where its row is in view, as far below the top of what is in view
/// as its row is, and not drawn elsewhere. A divider is drawn as one row where its start is in view.
pub proof fn cursor_and_divider_are_drawn_in_view(
    area: Rect,
    paragraph: ParagraphView,
    height: u16,
    cursor: PromptCursor,
    y: int,
    visible: int,
    clipped: int,
)
    requires
        area.wf(),
        area.width > cursor.column,
        0 <= y,
        0 <= visible,
        0 <= clipped,
        y + visible <= u16::MAX,
    ensures
        ({
            let drawn = item_commands(
                area,
                ItemView::Prompt { paragraph, height, cursor },
                y,
                visible,
                clipped,
            );
            &&& drawn[0] is Paragraph
            &&& clipped <= cursor.row < clipped + visible ==> drawn.len() == 2 && drawn[1] == (
            DrawView::Cursor {
                x: (area.x + cursor.column) as u16,
                y: (y + (cursor.row - clipped)) as u16,
            })
            &&& !(clipped <= cursor.row < clipped + visible) ==> drawn.len() == 1
        }),
        ({
            let drawn = item_commands(area, ItemView::Divider { height }, y, visible, clipped);
            &&& clipped == 0 && visible > 0 ==> drawn == seq![
                DrawView::Divider { area: Rect::at(area.x as int, y, area.width as int, 1) },
            ]
            &&& clipped > 0 || visible == 0 ==> drawn.len() == 0
        }),
{
}

} // verus!
