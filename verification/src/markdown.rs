//! Blocks of Markdown as lines on the screen.

use vstd::prelude::*;
use vstd::string::*;

use crate::history::{block_models, BlockKind, BlockModel, MarkdownBlock};
use crate::style::{
    in_style, line_views, one_span, plain_style, push_line, push_lines, styled_lines, Color,
    LineView, SpanView, StyledLine, StyledSpan, TextStyle,
};
use crate::text::{
    chars_of, find_from, find_last, first_from, is_white_space, last_position, lemma_first_from,
    lemma_last_upto, lemma_pieces, lines_joined, lines_of, occurs_at, pieces,
    pieces_put_together_are_the_text, split_lines, strip_all_last, strip_last, text_lines, text_of,
    text_option, text_whole_lines, texts, trimmed_start, whole_lines, without_all_last,
    without_last,
};
use crate::transcript::least;

verus! {

/// A piece of highlighted text: its colour, as red, green and blue, and the
/// text.
pub type Segment = ((u8, u8, u8), String);

/// A piece of highlighted text by its contents.
pub type SegmentView = ((u8, u8, u8), Seq<char>);

/// The contents of the pieces of a line.
pub open spec fn segment_views(segments: Seq<Segment>) -> Seq<SegmentView> {
    segments.map_values(|segment: Segment| (segment.0, segment.1@))
}

/// The contents of a highlighted line.
pub open spec fn segments_option(line: Option<Vec<Segment>>) -> Option<Seq<SegmentView>> {
    match line {
        Some(segments) => Some(segment_views(segments@)),
        None => None,
    }
}

/// The contents of highlighted lines.
pub open spec fn highlight_views(lines: Seq<Option<Vec<Segment>>>) -> Seq<
    Option<Seq<SegmentView>>,
> {
    lines.map_values(|line: Option<Vec<Segment>>| segments_option(line))
}

/// The text of the pieces of a line.
pub open spec fn segments_text(segments: Seq<SegmentView>) -> Seq<char>
    decreases segments.len(),
{
    if segments.len() == 0 {
        Seq::empty()
    } else {
        segments_text(segments.drop_last()) + segments.last().1
    }
}

/// Whether a set of languages holds those that come with `syntect`, and no
/// others.
pub uninterp spec fn holds_defaults(syntaxes: syntect::parsing::SyntaxSet) -> bool;

/// The place at which a language stands among those that come with `syntect`;
/// `None` for any other language.
pub uninterp spec fn default_place(syntax: syntect::parsing::SyntaxReference) -> Option<nat>;

/// The name under which a theme stands among the default themes; `None` for any
/// other theme.
pub uninterp spec fn theme_name(theme: syntect::highlighting::Theme) -> Option<Seq<char>>;

/// The place of the default language that `syntect` finds for the extension of a
/// file.
pub uninterp spec fn language_by_extension(extension: Seq<char>) -> Option<nat>;

/// The place of the default language that `syntect` finds under a name.
pub uninterp spec fn language_by_name(name: Seq<char>) -> Option<nat>;

/// What highlighting goes by: a default theme, the place of a default language,
/// and the lines that came before.
#[verifier::ext_equal]
pub struct HighlightingModel {
    pub theme: Seq<char>,
    pub language: nat,
    pub before: Seq<Seq<char>>,
}

/// What a highlighter goes by; `None` for one with another language or theme.
pub uninterp spec fn highlighting(highlighter: syntect::easy::HighlightLines<'_>) -> Option<
    HighlightingModel,
>;

/// What `syntect` makes of a line of code, given what came before: its pieces, or
/// `None` for a line that it cannot parse.
pub uninterp spec fn highlighted_line(
    theme: Seq<char>,
    language: nat,
    before: Seq<Seq<char>>,
    line: Seq<char>,
) -> Option<Seq<SegmentView>>;

/// The place of the language that a word stands for: that of an extension before
/// that of a name.
pub open spec fn known_language(word: Seq<char>) -> Option<nat> {
    match language_by_extension(word) {
        Some(place) => Some(place),
        None => language_by_name(word),
    }
}

/// What is made of each line of code in a language, each after those before it.
/// `None` for all lines where the language is not known.
pub open spec fn highlighted(
    theme: Seq<char>,
    language: Seq<char>,
    lines: Seq<Seq<char>>,
) -> Option<Seq<Option<Seq<SegmentView>>>> {
    match known_language(language) {
        Some(place) => Some(
            Seq::new(
                lines.len(),
                |i: int| highlighted_line(theme, place, lines.take(i), lines[i]),
            ),
        ),
        None => None,
    }
}

/// A text without the blanks that it starts with, up to a number of them.
pub open spec fn without_blanks(text: Seq<char>, most: nat) -> Seq<char>
    decreases most,
{
    if most > 0 && text.len() > 0 && text[0] == ' ' {
        without_blanks(text.skip(1), (most - 1) as nat)
    } else {
        text
    }
}

/// How often a sign stands at the start of a text.
pub open spec fn run_length(text: Seq<char>, sign: char) -> nat
    decreases text.len(),
{
    if text.len() > 0 && text[0] == sign {
        1 + run_length(text.skip(1), sign)
    } else {
        0
    }
}

/// What a text starts with, up to white space.
pub open spec fn unspaced(text: Seq<char>) -> Seq<char>
    decreases text.len(),
{
    if text.len() == 0 || is_white_space(text[0]) {
        Seq::empty()
    } else {
        seq![text[0]] + unspaced(text.skip(1))
    }
}

/// The first word of a text.
pub open spec fn first_word(text: Seq<char>) -> Option<Seq<char>> {
    let word = unspaced(trimmed_start(text));
    if word.len() == 0 {
        None
    } else {
        Some(word)
    }
}

/// The language that the first line of a fenced block of code names: the first
/// word behind a fence of three signs or more, before which up to three blanks may
/// stand.
pub open spec fn fence_language(raw: Seq<char>) -> Option<Seq<char>> {
    let line = without_blanks(pieces(raw)[0], 3);
    if line.len() > 0 && (line[0] == '`' || line[0] == '~') && run_length(line, line[0]) >= 3 {
        first_word(line.skip(run_length(line, line[0]) as int))
    } else {
        None
    }
}

/// The languages that `syntect` knows.
#[verifier::external_type_specification]
#[verifier::external_body]
pub struct ExSyntaxSet(syntect::parsing::SyntaxSet);

/// A language that `syntect` knows.
#[verifier::external_type_specification]
#[verifier::external_body]
pub struct ExSyntaxReference(syntect::parsing::SyntaxReference);

/// What highlights code line by line.
#[verifier::external_type_specification]
#[verifier::external_body]
pub struct ExHighlightLines<'a>(syntect::easy::HighlightLines<'a>);

/// A theme of `syntect`.
#[verifier::external_type_specification]
#[verifier::external_body]
pub struct ExTheme(syntect::highlighting::Theme);

/// What highlighting needs: the languages that `syntect` knows by default, and a
/// theme.
pub struct SyntaxAssets {
    syntaxes: syntect::parsing::SyntaxSet,
    theme: syntect::highlighting::Theme,
}

/// `syntect::parsing::SyntaxSet::load_defaults_newlines` loads the languages
/// that come with the crate.
#[verifier::external_body]
fn default_syntaxes() -> (syntaxes: syntect::parsing::SyntaxSet)
    ensures
        holds_defaults(syntaxes),
{
    syntect::parsing::SyntaxSet::load_defaults_newlines()
}

/// The names of the themes that come with `syntect`.
pub open spec fn default_theme_names() -> Seq<Seq<char>> {
    seq![
        "base16-ocean.dark"@,
        "base16-eighties.dark"@,
        "base16-mocha.dark"@,
        "base16-ocean.light"@,
        "InspiredGitHub"@,
        "Solarized (dark)"@,
        "Solarized (light)"@,
    ]
}

/// `syntect::highlighting::ThemeSet::load_defaults` loads the themes that come
/// with the crate; the one of a name is taken out of them. The documentation of
/// the function lists the names.
#[verifier::external_body]
fn default_theme(name: &str) -> (theme: Option<syntect::highlighting::Theme>)
    ensures
        theme is Some <==> default_theme_names().contains(name@),
        theme matches Some(theme) ==> theme_name(theme) == Some(name@),
{
    syntect::highlighting::ThemeSet::load_defaults().themes.remove(name)
}

/// `syntect::parsing::SyntaxSet::find_syntax_by_extension` finds the language of
/// the files with an extension. What it finds in the default languages depends on
/// the extension alone.
#[verifier::external_body]
fn find_by_extension<'a>(syntaxes: &'a syntect::parsing::SyntaxSet, extension: &str) -> (found:
    Option<&'a syntect::parsing::SyntaxReference>)
    requires
        holds_defaults(*syntaxes),
    ensures
        found is Some <==> language_by_extension(extension@) is Some,
        found matches Some(syntax) ==> default_place(*syntax) == language_by_extension(extension@),
{
    syntaxes.find_syntax_by_extension(extension)
}

/// `syntect::parsing::SyntaxSet::find_syntax_by_name` finds the language of a name.
/// What it finds in the default languages depends on the name alone.
#[verifier::external_body]
fn find_by_name<'a>(syntaxes: &'a syntect::parsing::SyntaxSet, name: &str) -> (found: Option<
    &'a syntect::parsing::SyntaxReference,
>)
    requires
        holds_defaults(*syntaxes),
    ensures
        found is Some <==> language_by_name(name@) is Some,
        found matches Some(syntax) ==> default_place(*syntax) == language_by_name(name@),
{
    syntaxes.find_syntax_by_name(name)
}

/// `syntect::easy::HighlightLines::new` makes a highlighter for a language and a
/// theme, which has seen no line.
#[verifier::external_body]
fn start_highlighting<'a>(
    syntax: &syntect::parsing::SyntaxReference,
    theme: &'a syntect::highlighting::Theme,
) -> (highlighter: syntect::easy::HighlightLines<'a>)
    requires
        default_place(*syntax) is Some,
        theme_name(*theme) is Some,
    ensures
        highlighting(highlighter) == Some(
            HighlightingModel {
                theme: theme_name(*theme).unwrap(),
                language: default_place(*syntax).unwrap(),
                before: Seq::empty(),
            },
        ),
{
    syntect::easy::HighlightLines::new(syntax, theme)
}

/// `syntect::easy::HighlightLines::highlight_line` highlights the next line. The
/// pieces put together are the line.
#[verifier::external_body]
fn highlight_next_line(
    highlighter: &mut syntect::easy::HighlightLines<'_>,
    line: &str,
    syntaxes: &syntect::parsing::SyntaxSet,
) -> (segments: Option<Vec<Segment>>)
    requires
        highlighting(*old(highlighter)) is Some,
        holds_defaults(*syntaxes),
    ensures
        ({
            let state = highlighting(*old(highlighter)).unwrap();
            &&& highlighting(*final(highlighter)) == Some(
                HighlightingModel { before: state.before.push(line@), ..state },
            )
            &&& segments_option(segments) == highlighted_line(
                state.theme,
                state.language,
                state.before,
                line@,
            )
        }),
        segments matches Some(segments) ==> segments_text(segment_views(segments@)) == line@,
{
    let piece = |(style, text): (syntect::highlighting::Style, &str)| {
        let color = style.foreground;
        ((color.r, color.g, color.b), text.to_string())
    };
    match highlighter.highlight_line(line, syntaxes) {
        Ok(ranges) => Some(ranges.into_iter().map(piece).collect()),
        Err(_) => None,
    }
}

/// Highlights lines of code in the language that a word stands for.
fn highlight_lines(
    syntaxes: &syntect::parsing::SyntaxSet,
    theme: &syntect::highlighting::Theme,
    language: &str,
    lines: &Vec<String>,
) -> (found: Option<Vec<Option<Vec<Segment>>>>)
    requires
        holds_defaults(*syntaxes),
        theme_name(*theme) is Some,
    ensures
        (match found {
            Some(found) => Some(highlight_views(found@)),
            None => None,
        }) == highlighted(theme_name(*theme).unwrap(), language@, texts(lines@)),
        found matches Some(found) ==> found@.len() == lines@.len() && forall|i: int|
            0 <= i < found@.len() ==> ((#[trigger] found@[i]) matches Some(segments)
                ==> segments_text(segment_views(segments@)) == lines@[i]@),
{
    let syntax = match find_by_extension(syntaxes, language) {
        Some(syntax) => syntax,
        None => match find_by_name(syntaxes, language) {
            Some(syntax) => syntax,
            None => return None,
        },
    };
    let ghost all = texts(lines@);
    let ghost name = theme_name(*theme).unwrap();
    let ghost place = known_language(language@).unwrap();
    let mut highlighter = start_highlighting(syntax, theme);
    let mut found: Vec<Option<Vec<Segment>>> = Vec::new();
    let mut i: usize = 0;
    assert(all.take(0) =~= Seq::empty());
    while i < lines.len()
        invariant
            i <= lines@.len(),
            holds_defaults(*syntaxes),
            all == texts(lines@),
            highlighting(highlighter) == Some(
                HighlightingModel { theme: name, language: place, before: all.take(i as int) },
            ),
            found@.len() == i,
            forall|k: int|
                0 <= k < i ==> segments_option(#[trigger] found@[k]) == highlighted_line(
                    name,
                    place,
                    all.take(k),
                    all[k],
                ),
            forall|k: int|
                0 <= k < i ==> ((#[trigger] found@[k]) matches Some(segments) ==> segments_text(
                    segment_views(segments@),
                ) == lines@[k]@),
        decreases lines@.len() - i,
    {
        let segments = highlight_next_line(&mut highlighter, lines[i].as_str(), syntaxes);
        found.push(segments);
        assert(all.take(i + 1) =~= all.take(i as int).push(all[i as int]));
        i = i + 1;
    }
    assert(highlight_views(found@) =~= highlighted(name, language@, all).unwrap());
    Some(found)
}

/// `mdstream::parse_code_fence_header_from_block` reads the first line of a
/// fenced block of code; the language is the first word behind the fence, as it is
/// written.
#[verifier::external_body]
fn code_fence_language(raw: &str) -> (language: Option<String>)
    ensures
        text_option(language) == fence_language(raw@),
{
    mdstream::parse_code_fence_header_from_block(raw)?.language.map(str::to_string)
}

impl SyntaxAssets {
    /// The languages and the theme are default ones.
    #[verifier::type_invariant]
    spec fn inv(self) -> bool {
        &&& holds_defaults(self.syntaxes)
        &&& theme_name(self.theme) is Some
    }

    /// The theme that is used.
    pub closed spec fn theme(&self) -> Seq<char> {
        theme_name(self.theme).unwrap()
    }

    /// The default languages, with a dark theme.
    pub fn load() -> (assets: SyntaxAssets)
        ensures
            assets.theme() == "base16-ocean.dark"@,
    {
        assert(default_theme_names()[0] == "base16-ocean.dark"@);
        let theme = default_theme("base16-ocean.dark").unwrap();
        SyntaxAssets { syntaxes: default_syntaxes(), theme }
    }

    /// The lines of a block of code, highlighted. Highlighting in a known language
    /// keeps the text of every line.
    pub fn highlight_codeblock(&self, block: &MarkdownBlock) -> (lines: Vec<StyledLine>)
        ensures
            line_views(lines@) == codeblock_lines(self.theme(), block@),
            ({
                let code = whole_lines(code_body(block@.shown()));
                highlighted(self.theme(), block_language(block@), code) is Some ==> {
                    &&& lines@.len() >= code.len()
                    &&& forall|i: int|
                        0 <= i < code.len() ==> line_text(#[trigger] lines@[i]@) == without_last(
                            code[i],
                            '\n',
                        )
                }
            }),
    {
        proof {
            use_type_invariant(self);
        }
        let language = if block.kind == BlockKind::CodeFence {
            match code_fence_language(block.raw.as_str()) {
                Some(language) => language,
                None => "txt".to_string(),
            }
        } else {
            "txt".to_string()
        };
        let code = fenced_code_body(block.display_or_raw());
        let whole = text_whole_lines(code.as_str());
        match highlight_lines(&self.syntaxes, &self.theme, language.as_str(), &whole) {
            None => styled_lines(&text_lines(block.display_or_raw()), TextStyle::plain()),
            Some(found) => {
                let lines = highlighted_code(code.as_str(), &whole, &found);
                proof {
                    let parts = whole_lines(code@);
                    let views = highlight_views(found@);
                    assert(parts.len() == texts(whole@).len());
                    assert(views.len() == parts.len());
                    assert(line_views(lines@).len() >= parts.len());
                    assert forall|i: int| 0 <= i < parts.len() implies line_text(
                        #[trigger] lines@[i]@,
                    ) == without_last(parts[i], '\n') by {
                        assert(line_views(lines@)[i] == lines@[i]@);
                        assert(line_views(lines@)[i] == code_line(parts[i], views[i]));
                        assert(parts[i] == whole@[i]@);
                        lemma_whole_line(code@, i);
                        match found@[i] {
                            Some(segments) => lemma_segments_keep_text(segment_views(segments@)),
                            None => lemma_one_span_text(
                                without_last(parts[i], '\n'),
                                plain_style(),
                            ),
                        }
                    }
                }
                lines
            },
        }
    }
}

/// The text of a line.
pub open spec fn line_text(line: LineView) -> Seq<char>
    decreases line.len(),
{
    if line.len() == 0 {
        Seq::empty()
    } else {
        line_text(line.drop_last()) + line.last().text
    }
}

/// There is no line break but at the end.
pub open spec fn breaks_at_end_only(text: Seq<char>) -> bool {
    forall|i: int| 0 <= i < text.len() - 1 ==> #[trigger] text[i] != '\n'
}

proof fn lemma_one_span_text(text: Seq<char>, style: TextStyle)
    ensures
        line_text(one_span(text, style)) == text,
{
    let line = one_span(text, style);
    assert(line.drop_last() =~= Seq::empty());
    assert(line_text(line.drop_last()) + text =~= text);
}

proof fn lemma_segments_keep_text(segments: Seq<SegmentView>)
    requires
        breaks_at_end_only(segments_text(segments)),
    ensures
        line_text(segment_spans(segments)) == without_last(segments_text(segments), '\n'),
    decreases segments.len(),
{
    if segments.len() > 0 {
        let front = segments.drop_last();
        let before = segments_text(front);
        let last = segments.last().1;
        let whole = segments_text(segments);
        assert forall|i: int| 0 <= i < before.len() - 1 implies #[trigger] before[i] != '\n' by {
            assert(whole[i] == before[i]);
        }
        lemma_segments_keep_text(front);
        if last.len() == 0 {
            assert(whole =~= before);
        } else {
            let spans = segment_spans(segments);
            assert(spans.drop_last() =~= segment_spans(front));
            if before.len() > 0 {
                assert(whole[before.len() - 1] == before.last());
            }
            assert(without_last(before, '\n') == before);
            assert(whole.last() == last.last());
            assert(before + without_last(last, '\n') =~= without_last(whole, '\n'));
        }
    }
}

proof fn lemma_pieces_hold_no_break(text: Seq<char>)
    ensures
        forall|i: int, k: int|
            0 <= i < pieces(text).len() && 0 <= k < pieces(text)[i].len() ==> #[trigger] pieces(
                text,
            )[i][k] != '\n',
    decreases text.len(),
{
    if text.len() > 0 {
        let start = text.drop_last();
        lemma_pieces_hold_no_break(start);
        lemma_pieces(start);
        let before = pieces(start);
        let all = pieces(text);
        assert forall|i: int, k: int|
            0 <= i < all.len() && 0 <= k < all[i].len() implies #[trigger] all[i][k] != '\n' by {
            if text.last() == '\n' {
                if i < before.len() {
                    assert(all[i] == before[i]);
                }
            } else if i < before.len() - 1 {
                assert(all[i] == before[i]);
            } else if k < before.last().len() {
                assert(all[i][k] == before[before.len() - 1][k]);
            }
        }
    }
}

proof fn lemma_whole_line(text: Seq<char>, at: int)
    requires
        0 <= at < whole_lines(text).len(),
    ensures
        breaks_at_end_only(whole_lines(text)[at]),
{
    lemma_pieces_hold_no_break(text);
    let line = whole_lines(text)[at];
    assert forall|k: int| 0 <= k < line.len() - 1 implies #[trigger] line[k] != '\n' by {
        assert(pieces(text)[at][k] != '\n');
    }
}

/// The language of a block of code.
pub open spec fn block_language(block: BlockModel) -> Seq<char> {
    if block.kind == BlockKind::CodeFence {
        match fence_language(block.raw) {
            Some(language) => language,
            None => "txt"@,
        }
    } else {
        "txt"@
    }
}

/// What stands between the fences of a block of code: all after the first line,
/// up to the last closing fence.
pub open spec fn code_body(text: Seq<char>) -> Seq<char> {
    match first_from(text, seq!['\n'], 0) {
        None => Seq::empty(),
        Some(at) => {
            let body = text.skip(at + 1);
            match last_position(body, "\n```"@) {
                Some(end) => body.take(end),
                None => body,
            }
        },
    }
}

/// What stands between the fences of a block of code.
pub fn fenced_code_body(text: &str) -> (body: String)
    ensures
        body@ == code_body(text@),
{
    let chars = chars_of(text);
    let newline = vec!['\n'];
    assert(newline@ =~= seq!['\n']);
    let first: usize = match find_from(&chars, &newline, 0) {
        Some(first) => first,
        None => {
            let body = String::new();
            assert(body@ =~= Seq::<char>::empty());
            return body;
        },
    };
    proof {
        lemma_first_from(text@, seq!['\n'], 0);
    }
    let len: usize = chars.len();
    let body = text_of(&chars, first + 1, len);
    assert(body@ =~= text@.skip(first + 1));
    let inner = chars_of(body.as_str());
    let fence = chars_of("\n```");
    match find_last(&inner, &fence) {
        Some(end) => {
            proof {
                lemma_last_upto(inner@, fence@, inner@.len() - fence@.len());
            }
            let code = text_of(&inner, 0, end);
            assert(code@ =~= body@.take(end as int));
            code
        },
        None => body,
    }
}

/// The spans of the pieces of a line, without empty pieces and without the line
/// break.
pub open spec fn segment_spans(segments: Seq<SegmentView>) -> LineView
    decreases segments.len(),
{
    if segments.len() == 0 {
        Seq::empty()
    } else {
        let before = segment_spans(segments.drop_last());
        let (color, text) = segments.last();
        if text.len() == 0 {
            before
        } else {
            before.push(
                SpanView {
                    text: without_last(text, '\n'),
                    style: TextStyle {
                        fg: Some(Color::Rgb(color.0, color.1, color.2)),
                        ..plain_style()
                    },
                },
            )
        }
    }
}

/// A line of code: its pieces in their colours, or the line as it is where it
/// could not be parsed.
pub open spec fn code_line(line: Seq<char>, segments: Option<Seq<SegmentView>>) -> LineView {
    match segments {
        Some(segments) => segment_spans(segments),
        None => one_span(without_last(line, '\n'), plain_style()),
    }
}

/// The lines of highlighted code. Code that ends with a line break has an empty
/// line at its end.
pub open spec fn code_lines(
    code: Seq<char>,
    found: Seq<Option<Seq<SegmentView>>>,
) -> Seq<LineView> {
    let lines = Seq::new(found.len(), |i: int| code_line(whole_lines(code)[i], found[i]));
    if code.len() > 0 && code.last() == '\n' {
        lines.push(Seq::empty())
    } else {
        lines
    }
}

/// The lines of a block of code. A block in a language that is not known is
/// shown as it is, with its fences.
pub open spec fn codeblock_lines(theme: Seq<char>, block: BlockModel) -> Seq<LineView> {
    let code = code_body(block.shown());
    match highlighted(theme, block_language(block), whole_lines(code)) {
        None => in_style(lines_of(block.shown()), plain_style()),
        Some(found) => code_lines(code, found),
    }
}

/// The spans of the pieces of a line.
fn line_of_segments(segments: &Vec<Segment>) -> (line: StyledLine)
    ensures
        line@ == segment_spans(segment_views(segments@)),
{
    let ghost all = segment_views(segments@);
    let mut line = StyledLine::empty();
    let mut i: usize = 0;
    assert(all.take(0) =~= Seq::empty());
    while i < segments.len()
        invariant
            i <= segments@.len(),
            all == segment_views(segments@),
            line@ == segment_spans(all.take(i as int)),
        decreases segments@.len() - i,
    {
        proof {
            assert(all.take(i + 1).drop_last() =~= all.take(i as int));
            assert(all.take(i + 1).last() == (segments@[i as int].0, segments@[i as int].1@));
        }
        if !segments[i].1.as_str().is_empty() {
            let (red, green, blue): (u8, u8, u8) = segments[i].0;
            let text = strip_last(segments[i].1.as_str(), '\n');
            let span = StyledSpan {
                text,
                style: TextStyle::plain().fg(Color::Rgb(red, green, blue)),
            };
            let ghost before = line@;
            line.spans.push(span);
            assert(line@ =~= before.push(span@));
        }
        i = i + 1;
    }
    assert(all.take(all.len() as int) =~= all);
    line
}

/// Puts highlighted code on lines, given what was found for each of its lines.
pub fn highlighted_code(
    code: &str,
    whole: &Vec<String>,
    found: &Vec<Option<Vec<Segment>>>,
) -> (lines: Vec<StyledLine>)
    requires
        texts(whole@) == whole_lines(code@),
        found@.len() == whole@.len(),
    ensures
        line_views(lines@) == code_lines(code@, highlight_views(found@)),
{
    let ghost views = highlight_views(found@);
    let mut lines: Vec<StyledLine> = Vec::new();
    let mut i: usize = 0;
    while i < found.len()
        invariant
            i <= found@.len(),
            found@.len() == whole@.len(),
            texts(whole@) == whole_lines(code@),
            views == highlight_views(found@),
            lines@.len() == i,
            forall|k: int|
                0 <= k < i ==> #[trigger] lines@[k]@ == code_line(whole_lines(code@)[k], views[k]),
        decreases found@.len() - i,
    {
        assert(whole_lines(code@)[i as int] == whole@[i as int]@);
        let line = match &found[i] {
            Some(segments) => line_of_segments(segments),
            None => StyledLine::of(
                strip_last(whole[i].as_str(), '\n').as_str(),
                TextStyle::plain(),
            ),
        };
        lines.push(line);
        i = i + 1;
    }
    let ghost body = Seq::new(views.len(), |i: int| code_line(whole_lines(code@)[i], views[i]));
    assert(line_views(lines@) =~= body);
    let chars = chars_of(code);
    if chars.len() > 0 && chars[chars.len() - 1] == '\n' {
        push_line(&mut lines, StyledLine::empty());
    }
    lines
}

/// A text with its tabs filled up with blanks to the next tab stop, given the
/// column that it starts at, and the column that it ends at.
pub open spec fn tabs_expanded(text: Seq<char>, tab_width: nat, column: nat) -> (Seq<char>, nat)
    decreases text.len(),
{
    if text.len() == 0 {
        (text, column)
    } else {
        let (before, at) = tabs_expanded(text.drop_last(), tab_width, column);
        if text.last() == '\t' {
            let blanks = (tab_width - at % tab_width) as nat;
            (before + Seq::new(blanks, |i: int| ' '), at + blanks)
        } else if text.last() == '\n' {
            (before.push('\n'), 0)
        } else {
            (before.push(text.last()), at + 1)
        }
    }
}

/// The spans of a line with their tabs expanded; the columns count over all
/// spans. The second part is the column at the end.
pub open spec fn line_expanded(line: LineView, tab_width: nat) -> (LineView, nat)
    decreases line.len(),
{
    if line.len() == 0 {
        (line, 0)
    } else {
        let (before, at) = line_expanded(line.drop_last(), tab_width);
        let (text, column) = tabs_expanded(line.last().text, tab_width, at);
        (before.push(SpanView { text, style: line.last().style }), column)
    }
}

/// Expanding leaves no tabs, and every tab ends at a tab stop.
pub proof fn expanding_fills_up_to_tab_stops(text: Seq<char>, tab_width: nat, column: nat)
    requires
        tab_width > 0,
    ensures
        !tabs_expanded(text, tab_width, column).0.contains('\t'),
        text.len() > 0 && text.last() == '\t' ==> tabs_expanded(text, tab_width, column).1
            % tab_width == 0,
    decreases text.len(),
{
    if text.len() > 0 {
        expanding_fills_up_to_tab_stops(text.drop_last(), tab_width, column);
        let (before, at) = tabs_expanded(text.drop_last(), tab_width, column);
        if text.last() == '\t' {
            let blanks = (tab_width - at % tab_width) as nat;
            vstd::arithmetic::div_mod::lemma_mod_bound(at as int, tab_width as int);
            vstd::arithmetic::div_mod::lemma_fundamental_div_mod(at as int, tab_width as int);
            let whole = at as int / tab_width as int;
            assert(at + blanks == (whole + 1) * tab_width) by (nonlinear_arith)
                requires
                    at == tab_width * whole + at % tab_width,
                    blanks == tab_width - at % tab_width,
            ;
            vstd::arithmetic::div_mod::lemma_mod_multiples_basic(whole + 1, tab_width as int);
        }
    }
}

/// A text is expanded piece by piece: what follows starts at the column at which
/// the text before it ends.
pub proof fn expanding_goes_on(
    text: Seq<char>,
    following: Seq<char>,
    tab_width: nat,
    column: nat,
)
    ensures
        ({
            let (before, at) = tabs_expanded(text, tab_width, column);
            let (after, end) = tabs_expanded(following, tab_width, at);
            tabs_expanded(text + following, tab_width, column) == (before + after, end)
        }),
    decreases following.len(),
{
    let whole = text + following;
    let (before, at) = tabs_expanded(text, tab_width, column);
    if following.len() == 0 {
        assert(whole =~= text);
        assert(before + following =~= before);
    } else {
        let rest = following.drop_last();
        let (middle, end) = tabs_expanded(rest, tab_width, at);
        expanding_goes_on(text, rest, tab_width, column);
        assert(whole.drop_last() =~= text + rest);
        assert(whole.last() == following.last());
        let blanks = Seq::new((tab_width - end % tab_width) as nat, |i: int| ' ');
        assert(before + middle + blanks =~= before + (middle + blanks));
        assert((before + middle).push(whole.last()) =~= before + middle.push(whole.last()));
    }
}

/// A tab becomes at least one blank, and as many as the next tab stop is away. A
/// line break starts at the first column again. Any other character stays, and
/// takes a column.
pub proof fn expanding_changes_tabs_only(ch: char, tab_width: nat, column: nat)
    requires
        tab_width > 0,
    ensures
        ({
            let (text, end) = tabs_expanded(seq![ch], tab_width, column);
            if ch == '\t' {
                &&& 1 <= text.len() <= tab_width
                &&& forall|i: int| 0 <= i < text.len() ==> #[trigger] text[i] == ' '
                &&& end == column + text.len()
                &&& end % tab_width == 0
            } else {
                &&& text == seq![ch]
                &&& end == if ch == '\n' {
                    0
                } else {
                    column + 1
                }
            }
        }),
{
    let one = seq![ch];
    let nothing = Seq::<char>::empty();
    assert(one.drop_last() =~= nothing);
    assert(tabs_expanded(nothing, tab_width, column) == (nothing, column));
    assert(nothing.push(ch) =~= one);
    let blanks = Seq::new((tab_width - column % tab_width) as nat, |i: int| ' ');
    assert(nothing + blanks =~= blanks);
    vstd::arithmetic::div_mod::lemma_mod_bound(column as int, tab_width as int);
    lemma_next_stop(column, tab_width);
}

/// Expanding keeps every character but tabs, in order, and adds blanks only.
pub proof fn expanding_keeps_other_characters(text: Seq<char>, tab_width: nat, column: nat)
    ensures
        tabs_expanded(text, tab_width, column).0.filter(|ch: char| ch != ' ') == text.filter(
            |ch: char| ch != ' ' && ch != '\t',
        ),
    decreases text.len(),
{
    reveal(Seq::filter);
    if text.len() > 0 {
        let (before, at) = tabs_expanded(text.drop_last(), tab_width, column);
        expanding_keeps_other_characters(text.drop_last(), tab_width, column);
        if text.last() == '\t' {
            lemma_blanks_are_invisible(before, (tab_width - at % tab_width) as nat);
        } else {
            let whole = before.push(text.last());
            assert(whole.drop_last() =~= before);
            assert(whole.last() == text.last());
        }
    }
}

proof fn lemma_blanks_are_invisible(text: Seq<char>, blanks: nat)
    ensures
        (text + Seq::new(blanks, |i: int| ' ')).filter(|ch: char| ch != ' ') == text.filter(
            |ch: char| ch != ' ',
        ),
    decreases blanks,
{
    reveal(Seq::filter);
    let whole = text + Seq::new(blanks, |i: int| ' ');
    if blanks == 0 {
        assert(whole =~= text);
    } else {
        let fewer = (blanks - 1) as nat;
        lemma_blanks_are_invisible(text, fewer);
        assert(whole.drop_last() =~= text + Seq::new(fewer, |i: int| ' '));
        assert(whole.last() == ' ');
    }
}

/// The spans of a line are expanded as one text is, and keep their styles.
pub proof fn spans_are_expanded_as_one_text(line: LineView, tab_width: nat)
    ensures
        ({
            let (expanded, end) = line_expanded(line, tab_width);
            &&& tabs_expanded(line_text(line), tab_width, 0) == (line_text(expanded), end)
            &&& expanded.len() == line.len()
            &&& forall|i: int|
                0 <= i < line.len() ==> (#[trigger] expanded[i]).style == line[i].style
        }),
    decreases line.len(),
{
    if line.len() > 0 {
        let before = line.drop_last();
        let last = line.last();
        spans_are_expanded_as_one_text(before, tab_width);
        expanding_goes_on(line_text(before), last.text, tab_width, 0);
        let (expanded, end) = line_expanded(line, tab_width);
        assert(expanded.drop_last() =~= line_expanded(before, tab_width).0);
    }
}

/// Lines with their tabs expanded.
pub open spec fn lines_expanded(lines: Seq<LineView>, tab_width: nat) -> Seq<LineView> {
    lines.map_values(|line: LineView| line_expanded(line, tab_width).0)
}

/// Whether every column that expanding comes to can be counted.
pub open spec fn columns_fit(text: Seq<char>, tab_width: nat, column: nat) -> bool {
    forall|k: int|
        0 <= k <= text.len() ==> (#[trigger] tabs_expanded(text.take(k), tab_width, column)).1
            <= usize::MAX
}

/// Expands the tabs of a text. `col` is the column that the text starts at, and
/// then the one that it ends at.
pub fn expand_tabs(text: &str, tab_width: usize, col: &mut usize) -> (expanded: String)
    requires
        tab_width > 0,
        columns_fit(text@, tab_width as nat, *old(col) as nat),
    ensures
        (expanded@, *final(col) as nat) == tabs_expanded(
            text@,
            tab_width as nat,
            *old(col) as nat,
        ),
{
    let (expanded, _, end) = expand_from(
        text,
        tab_width,
        *col % tab_width,
        *col,
        Ghost(*col as nat),
    );
    assert(text@.take(text@.len() as int) =~= text@);
    *col = end;
    expanded
}

/// Expands the tabs of a text that starts at the column `from`, of which the rest
/// modulo the tab width and the part that can be counted are given. Gives the same
/// of the column that it ends at.
fn expand_from(
    text: &str,
    tab_width: usize,
    rest: usize,
    counted: usize,
    Ghost(from): Ghost<nat>,
) -> (expanded: (String, usize, usize))
    requires
        tab_width > 0,
        rest == from % (tab_width as nat),
        counted == least(from as int, usize::MAX as int),
    ensures
        ({
            let (written, end) = tabs_expanded(text@, tab_width as nat, from);
            &&& expanded.0@ == written
            &&& expanded.1 == end % (tab_width as nat)
            &&& expanded.2 == least(end as int, usize::MAX as int)
        }),
{
    let ghost width = tab_width as nat;
    let mut expanded = String::new();
    let mut at: usize = rest;
    let mut column: usize = counted;
    assert(expanded@ =~= tabs_expanded(text@.take(0), width, from).0);
    for ch in it: text.chars()
        invariant
            tab_width > 0,
            width == tab_width,
            it.seq() == text@,
            expanded@ == tabs_expanded(text@.take(it.index() as int), width, from).0,
            at == tabs_expanded(text@.take(it.index() as int), width, from).1 % width,
            column == least(
                tabs_expanded(text@.take(it.index() as int), width, from).1 as int,
                usize::MAX as int,
            ),
    {
        let ghost seen = text@.take(it.index() + 1);
        let ghost exact = tabs_expanded(text@.take(it.index() as int), width, from).1;
        let ghost before = expanded@;
        proof {
            assert(seen.drop_last() =~= text@.take(it.index() as int));
            assert(seen.last() == ch);
            vstd::arithmetic::div_mod::lemma_mod_bound(exact as int, width as int);
        }
        if ch == '\t' {
            let blanks: usize = tab_width - at;
            let mut i: usize = 0;
            assert(expanded@ =~= before + Seq::new(0, |i: int| ' '));
            while i < blanks
                invariant
                    i <= blanks,
                    expanded@ == before + Seq::new(i as nat, |i: int| ' '),
                decreases blanks - i,
            {
                expanded.push(' ');
                i = i + 1;
                assert(expanded@ =~= before + Seq::new(i as nat, |i: int| ' '));
            }
            proof {
                lemma_next_stop(exact, width);
            }
            at = 0;
            column = column.saturating_add(blanks);
        } else if ch == '\n' {
            expanded.push('\n');
            proof {
                vstd::arithmetic::div_mod::lemma_small_mod(0, width);
            }
            at = 0;
            column = 0;
        } else {
            expanded.push(ch);
            proof {
                lemma_next_column(exact, width);
            }
            at = if at + 1 == tab_width {
                0
            } else {
                at + 1
            };
            column = column.saturating_add(1);
        }
    }
    assert(text@.take(text@.len() as int) =~= text@);
    (expanded, at, column)
}

proof fn lemma_next_stop(column: nat, width: nat)
    requires
        width > 0,
    ensures
        (column + (width - column % width)) % (width as int) == 0,
{
    let rest = column % width;
    vstd::arithmetic::div_mod::lemma_fundamental_div_mod(column as int, width as int);
    let quotient = column / width;
    assert(column + (width - rest) == width * (quotient + 1)) by (nonlinear_arith)
        requires
            column == width * quotient + rest,
    ;
    vstd::arithmetic::div_mod::lemma_mod_multiples_basic((quotient + 1) as int, width as int);
    assert(width * (quotient + 1) == (quotient + 1) * width) by (nonlinear_arith);
}

proof fn lemma_next_column(column: nat, width: nat)
    requires
        width > 0,
    ensures
        (column + 1) % width == if column % width + 1 == width {
            0
        } else {
            column % width + 1
        },
{
    vstd::arithmetic::div_mod::lemma_mod_bound(column as int, width as int);
    vstd::arithmetic::div_mod::lemma_add_mod_noop(column as int, 1, width as int);
    if width == 1 {
        vstd::arithmetic::div_mod::lemma_mod_bound((column + 1) as int, 1);
    } else {
        vstd::arithmetic::div_mod::lemma_small_mod(1, width);
        if column % width + 1 == width {
            vstd::arithmetic::div_mod::lemma_mod_self_0(width as int);
        } else {
            vstd::arithmetic::div_mod::lemma_small_mod(column % width + 1, width);
        }
    }
}

/// Expands the tabs of lines.
pub fn expand_tabs_lines(lines: &mut Vec<StyledLine>, tab_width: usize)
    requires
        tab_width > 0,
    ensures
        line_views(final(lines)@) == lines_expanded(line_views(old(lines)@), tab_width as nat),
{
    let ghost all = line_views(lines@);
    let ghost width = tab_width as nat;
    let mut i: usize = 0;
    while i < lines.len()
        invariant
            tab_width > 0,
            width == tab_width,
            i <= lines@.len() == all.len(),
            forall|k: int|
                0 <= k < i ==> (#[trigger] lines@[k])@ == line_expanded(all[k], width).0,
            forall|k: int| i <= k < all.len() ==> (#[trigger] lines@[k])@ == all[k],
        decreases lines@.len() - i,
    {
        assert(lines@[i as int]@ == all[i as int]);
        let expanded = expand_line(&lines[i], tab_width);
        lines[i] = expanded;
        i = i + 1;
    }
    assert(line_views(lines@) =~= lines_expanded(all, width));
}

/// A line with its tabs expanded.
fn expand_line(line: &StyledLine, tab_width: usize) -> (expanded: StyledLine)
    requires
        tab_width > 0,
    ensures
        expanded@ == line_expanded(line@, tab_width as nat).0,
{
    let ghost all = line@;
    let ghost width = tab_width as nat;
    let mut expanded = StyledLine::empty();
    let mut at: usize = 0;
    let mut column: usize = 0;
    let mut i: usize = 0;
    assert(all.take(0) =~= Seq::empty());
    proof {
        vstd::arithmetic::div_mod::lemma_small_mod(0, width);
    }
    while i < line.spans.len()
        invariant
            tab_width > 0,
            width == tab_width,
            i <= line.spans@.len(),
            all == line@,
            expanded@ == line_expanded(all.take(i as int), width).0,
            at == line_expanded(all.take(i as int), width).1 % width,
            column == least(line_expanded(all.take(i as int), width).1 as int, usize::MAX as int),
        decreases line.spans@.len() - i,
    {
        proof {
            assert(all.take(i + 1).drop_last() =~= all.take(i as int));
            assert(all.take(i + 1).last() == line.spans@[i as int]@);
        }
        let (text, rest, end) = expand_from(
            line.spans[i].text.as_str(),
            tab_width,
            at,
            column,
            Ghost(line_expanded(all.take(i as int), width).1),
        );
        at = rest;
        column = end;
        let ghost before = expanded@;
        let span = StyledSpan { text, style: line.spans[i].style };
        expanded.spans.push(span);
        assert(expanded@ =~= before.push(span@));
        i = i + 1;
    }
    assert(all.take(all.len() as int) =~= all);
    expanded
}

/// The lines of a block of Markdown.
pub open spec fn block_lines(theme: Seq<char>, block: BlockModel, style: TextStyle) -> Seq<
    LineView,
> {
    let text = without_all_last(block.shown(), '\n');
    if block.kind == BlockKind::CodeFence {
        if code_body(block.shown()).len() == 0 {
            Seq::empty()
        } else {
            lines_expanded(codeblock_lines(theme, block), 2)
        }
    } else if text.len() == 0 {
        Seq::empty()
    } else {
        in_style(pieces(text), style)
    }
}

/// The lines of blocks of Markdown, with an empty line between two blocks.
pub open spec fn markdown_lines(
    theme: Seq<char>,
    blocks: Seq<BlockModel>,
    style: TextStyle,
) -> Seq<LineView>
    decreases blocks.len(),
{
    if blocks.len() == 0 {
        Seq::empty()
    } else {
        let before = markdown_lines(theme, blocks.drop_last(), style);
        let own = block_lines(theme, blocks.last(), style);
        if blocks.len() == 1 {
            own
        } else {
            before.push(Seq::empty()) + own
        }
    }
}

/// The lines of a block of code.
pub fn render_code_block(assets: &SyntaxAssets, block: &MarkdownBlock) -> (lines: Vec<StyledLine>)
    ensures
        line_views(lines@) == (if code_body(block@.shown()).len() == 0 {
            Seq::empty()
        } else {
            lines_expanded(codeblock_lines(assets.theme(), block@), 2)
        }),
{
    if fenced_code_body(block.display_or_raw()).as_str().is_empty() {
        let lines: Vec<StyledLine> = Vec::new();
        assert(line_views(lines@) =~= Seq::empty());
        return lines;
    }
    let mut lines = assets.highlight_codeblock(block);
    expand_tabs_lines(&mut lines, 2);
    lines
}

/// The lines of blocks of Markdown.
pub fn render_markdown_blocks(
    assets: &SyntaxAssets,
    blocks: &Vec<MarkdownBlock>,
    base_style: TextStyle,
) -> (lines: Vec<StyledLine>)
    ensures
        line_views(lines@) == markdown_lines(assets.theme(), block_models(blocks@), base_style),
{
    let ghost all = block_models(blocks@);
    let ghost theme = assets.theme();
    let mut lines: Vec<StyledLine> = Vec::new();
    let mut i: usize = 0;
    assert(line_views(lines@) =~= markdown_lines(theme, all.take(0), base_style));
    while i < blocks.len()
        invariant
            i <= blocks@.len(),
            all == block_models(blocks@),
            theme == assets.theme(),
            line_views(lines@) == markdown_lines(theme, all.take(i as int), base_style),
        decreases blocks@.len() - i,
    {
        let ghost before = line_views(lines@);
        proof {
            assert(all.take(i + 1).drop_last() =~= all.take(i as int));
            assert(all.take(i + 1).last() == blocks@[i as int]@);
        }
        if i > 0 {
            push_line(&mut lines, StyledLine::empty());
        }
        let ghost opened = line_views(lines@);
        if blocks[i].kind == BlockKind::CodeFence {
            push_lines(&mut lines, render_code_block(assets, &blocks[i]));
        } else {
            let text = strip_all_last(blocks[i].display_or_raw(), '\n');
            if !text.as_str().is_empty() {
                push_lines(&mut lines, styled_lines(&split_lines(text.as_str()), base_style));
            }
        }
        assert(line_views(lines@) =~= opened + block_lines(theme, blocks@[i as int]@, base_style));
        assert(i == 0 ==> opened + block_lines(theme, blocks@[i as int]@, base_style)
            =~= block_lines(theme, blocks@[i as int]@, base_style));
        i = i + 1;
    }
    assert(all.take(all.len() as int) =~= all);
    lines
}

/// The code of a fenced block is what stands between its first line and its closing fence,
/// whatever that is.
pub proof fn code_stands_between_its_fences(opening: Seq<char>, code: Seq<char>)
    requires
        !opening.contains('\n'),
    ensures
        code_body(opening + seq!['\n'] + code + "\n```"@) == code,
        code_body(opening).len() == 0,
{
    reveal_strlit("\n```");
    let text = opening + seq!['\n'] + code + "\n```"@;
    let at = opening.len() as int;
    lemma_first_from(text, seq!['\n'], 0);
    assert(text.subrange(at, at + 1) =~= seq!['\n']);
    assert(occurs_at(text, seq!['\n'], at));
    assert forall|i: int| 0 <= i < at implies !occurs_at(text, seq!['\n'], i) by {
        assert(text.subrange(i, i + 1)[0] == opening[i]);
        assert(opening.contains(opening[i]));
    }
    assert(first_from(text, seq!['\n'], 0) == Some(at));
    let body = text.skip(at + 1);
    assert(body =~= code + "\n```"@);
    let end = code.len() as int;
    assert(body.subrange(end, end + 4) =~= "\n```"@);
    assert(occurs_at(body, "\n```"@, end));
    assert(last_position(body, "\n```"@) == Some(end));
    assert(body.take(end) =~= code);
    lemma_first_from(opening, seq!['\n'], 0);
    if let Some(found) = first_from(opening, seq!['\n'], 0) {
        assert(opening.subrange(found, found + 1)[0] == '\n');
        assert(opening.contains(opening[found]));
    }
}

/// Blocks are shown one below the other, with an empty line between two of them; all of them, in
/// their order.
pub proof fn blocks_are_shown_one_below_the_other(
    theme: Seq<char>,
    blocks: Seq<BlockModel>,
    more: BlockModel,
    style: TextStyle,
)
    ensures
        markdown_lines(theme, Seq::empty(), style).len() == 0,
        markdown_lines(theme, blocks.push(more), style) == if blocks.len() == 0 {
            block_lines(theme, more, style)
        } else {
            markdown_lines(theme, blocks, style) + seq![Seq::<SpanView>::empty()] + block_lines(
                theme,
                more,
                style,
            )
        },
{
    let all = blocks.push(more);
    assert(all.drop_last() =~= blocks);
    if blocks.len() > 0 {
        assert(markdown_lines(theme, all, style) =~= markdown_lines(theme, blocks, style) + seq![
            Seq::<SpanView>::empty(),
        ] + block_lines(theme, more, style));
    }
}

/// The text of a block other than code is shown as it is, line by line, without the line breaks at
/// its end, in one style.
pub proof fn text_of_a_block_is_shown_whole(
    theme: Seq<char>,
    block: BlockModel,
    style: TextStyle,
)
    requires
        block.kind != BlockKind::CodeFence,
        block.shown().len() > 0,
        block.shown().last() != '\n',
    ensures
        ({
            let lines = block_lines(theme, block, style);
            &&& lines_joined(lines.map_values(|line: LineView| line[0].text)) == block.shown()
            &&& forall|i: int|
                0 <= i < lines.len() ==> (#[trigger] lines[i]).len() == 1 && lines[i][0].style
                    == style
        }),
{
    let lines = block_lines(theme, block, style);
    let text = block.shown();
    assert(without_all_last(text, '\n') == text);
    assert(lines.map_values(|line: LineView| line[0].text) =~= pieces(text));
    pieces_put_together_are_the_text(text);
}

/// What is to be shown of a block is what was repaired for it, where something was, and else what
/// was written.
pub proof fn repaired_block_is_shown_repaired(block: BlockModel)
    ensures
        block.display matches Some(display) ==> block.shown() == display,
        block.display is None ==> block.shown() == block.raw,
{
}

/// A language is looked for as the extension of a file before it is as a name; a block of code in a
/// language that is not known is shown with its fences, as it is.
pub proof fn unknown_language_is_shown_as_it_is(theme: Seq<char>, block: BlockModel)
    ensures
        language_by_extension(block_language(block)) is None && language_by_name(
            block_language(block),
        ) is None ==> codeblock_lines(theme, block) == in_style(
            lines_of(block.shown()),
            plain_style(),
        ),
        language_by_extension(block_language(block)) matches Some(place) ==> known_language(
            block_language(block),
        ) == Some(place),
{
}

/// A highlighted line shows its pieces in their own colours, in their order.
pub proof fn pieces_keep_their_colours(
    segments: Seq<SegmentView>,
    color: (u8, u8, u8),
    text: Seq<char>,
)
    requires
        text.len() > 0,
        text.last() != '\n',
    ensures
        ({
            let line = code_line(Seq::empty(), Some(segments.push((color, text))));
            let before = code_line(Seq::empty(), Some(segments));
            &&& line.len() == before.len() + 1
            &&& line.drop_last() == before
            &&& line.last().text == text
            &&& line.last().style.fg == Some(Color::Rgb(color.0, color.1, color.2))
        }),
{
    let all = segments.push((color, text));
    assert(all.drop_last() =~= segments);
    let line = code_line(Seq::empty(), Some(all));
    assert(line.drop_last() =~= code_line(Seq::empty(), Some(segments)));
}

/// A line break at the end of a text makes no difference to how it is shown.
pub proof fn last_line_breaks_are_not_shown(
    theme: Seq<char>,
    block: BlockModel,
    longer: BlockModel,
    style: TextStyle,
)
    requires
        block.kind != BlockKind::CodeFence,
        longer.kind == block.kind,
        longer.shown() == block.shown().push('\n'),
    ensures
        block_lines(theme, longer, style) == block_lines(theme, block, style),
{
    assert(longer.shown().drop_last() =~= block.shown());
}

/// A language is known where its word is the extension of a file or a name of a language; the
/// extension counts first.
pub proof fn languages_are_known_by_extension_or_name(word: Seq<char>)
    ensures
        known_language(word) is Some <==> language_by_extension(word) is Some || language_by_name(
            word,
        ) is Some,
        language_by_extension(word) is Some ==> known_language(word) == language_by_extension(word),
        language_by_extension(word) is None ==> known_language(word) == language_by_name(word),
{
}

/// The word behind an opening fence, one of three or more signs that stands in by at most three
/// blanks, is the language of the code; fewer signs and more blanks make no fence.
pub proof fn fence_names_its_language(
    blanks: nat,
    sign: char,
    signs: nat,
    word: Seq<char>,
    rest: Seq<char>,
)
    requires
        sign == '`' || sign == '~',
        signs > 0,
        word.len() > 0,
        word[0] != sign,
        forall|k: int| 0 <= k < word.len() ==> !is_white_space(#[trigger] word[k]),
    ensures
        ({
            let line = Seq::new(blanks, |i: int| ' ') + (Seq::new(signs, |i: int| sign) + word);
            let raw = line + seq!['\n'] + rest;
            fence_language(raw) == if blanks <= 3 && signs >= 3 {
                Some(word)
            } else {
                None
            }
        }),
{
    let fence = Seq::new(signs, |i: int| sign) + word;
    let line = Seq::new(blanks, |i: int| ' ') + fence;
    assert forall|k: int| 0 <= k < line.len() implies #[trigger] line[k] != '\n' by {
        if k >= blanks + signs {
            assert(line[k] == word[k - blanks - signs]);
            assert(is_white_space('\n'));
        }
    }
    lemma_first_piece(line, rest);
    lemma_without_blanks(blanks, fence, 3);
    if blanks <= 3 {
        lemma_run_length(sign, signs, word);
        assert(fence.skip(signs as int) =~= word);
        lemma_unspaced_word(word);
        assert(!is_white_space(word[0]));
        assert(trimmed_start(word) == word);
    }
}

/// The first piece of a text is what stands before its first line break.
proof fn lemma_first_piece(line: Seq<char>, rest: Seq<char>)
    requires
        forall|k: int| 0 <= k < line.len() ==> #[trigger] line[k] != '\n',
    ensures
        pieces(line + seq!['\n'] + rest).len() >= 2,
        pieces(line + seq!['\n'] + rest)[0] == line,
    decreases rest.len(),
{
    let text = line + seq!['\n'] + rest;
    if rest.len() == 0 {
        assert(text.drop_last() =~= line);
        lemma_one_piece(line);
    } else {
        assert(text.drop_last() =~= line + seq!['\n'] + rest.drop_last());
        lemma_first_piece(line, rest.drop_last());
    }
}

proof fn lemma_one_piece(line: Seq<char>)
    requires
        forall|k: int| 0 <= k < line.len() ==> #[trigger] line[k] != '\n',
    ensures
        pieces(line) == seq![line],
    decreases line.len(),
{
    if line.len() > 0 {
        assert forall|k: int| 0 <= k < line.drop_last().len() implies #[trigger] line.drop_last()[k]
            != '\n' by {
            assert(line[k] != '\n');
        }
        lemma_one_piece(line.drop_last());
        assert(line.last() != '\n');
        assert(line.drop_last().push(line.last()) =~= line);
        assert(pieces(line) =~= seq![line]);
    } else {
        assert(line =~= Seq::<char>::empty());
    }
}

proof fn lemma_without_blanks(blanks: nat, text: Seq<char>, most: nat)
    requires
        text.len() > 0,
        text[0] != ' ',
    ensures
        ({
            let left = without_blanks(Seq::new(blanks, |i: int| ' ') + text, most);
            &&& blanks <= most ==> left == text
            &&& blanks > most ==> left.len() > 0 && left[0] == ' '
        }),
    decreases blanks,
{
    let all = Seq::new(blanks, |i: int| ' ') + text;
    if blanks == 0 {
        assert(all =~= text);
    } else if most > 0 {
        let fewer = (blanks - 1) as nat;
        assert(all.skip(1) =~= Seq::new(fewer, |i: int| ' ') + text);
        lemma_without_blanks(fewer, text, (most - 1) as nat);
    }
}

proof fn lemma_run_length(sign: char, signs: nat, text: Seq<char>)
    requires
        text.len() > 0,
        text[0] != sign,
    ensures
        run_length(Seq::new(signs, |i: int| sign) + text, sign) == signs,
    decreases signs,
{
    let all = Seq::new(signs, |i: int| sign) + text;
    if signs == 0 {
        assert(all =~= text);
    } else {
        let fewer = (signs - 1) as nat;
        assert(all.skip(1) =~= Seq::new(fewer, |i: int| sign) + text);
        lemma_run_length(sign, fewer, text);
    }
}

proof fn lemma_unspaced_word(word: Seq<char>)
    requires
        forall|k: int| 0 <= k < word.len() ==> !is_white_space(#[trigger] word[k]),
    ensures
        unspaced(word) == word,
    decreases word.len(),
{
    if word.len() > 0 {
        assert(!is_white_space(word[0]));
        assert forall|k: int| 0 <= k < word.skip(1).len() implies !is_white_space(
            #[trigger] word.skip(1)[k],
        ) by {
            assert(!is_white_space(word[k + 1]));
        }
        lemma_unspaced_word(word.skip(1));
        assert(seq![word[0]] + word.skip(1) =~= word);
    } else {
        assert(word =~= Seq::<char>::empty());
    }
}

/// Code has a line for each of its lines, and an empty one where it ends with a line break. A line
/// in which nothing was told apart is shown as it is.
pub proof fn code_is_shown_line_by_line(
    code: Seq<char>,
    found: Seq<Option<Seq<SegmentView>>>,
    i: int,
)
    requires
        0 <= i < found.len() == whole_lines(code).len(),
    ensures
        ({
            let lines = code_lines(code, found);
            &&& lines.len() == found.len() as int + if code.last() == '\n' {
                1int
            } else {
                0
            }
            &&& code.last() == '\n' ==> lines.last().len() == 0
            &&& found[i] is None && whole_lines(code)[i].len() > 0 ==> lines[i].len() == 1 && (
            whole_lines(code)[i] == lines[i][0].text || whole_lines(code)[i]
                == lines[i][0].text.push('\n'))
            &&& found[i] is None ==> !lines[i][0].text.contains('\n')
        }),
{
    lemma_pieces(code);
    if code.len() == 0 {
        assert(whole_lines(code).len() == 0);
    }
    let line = whole_lines(code)[i];
    let own = pieces(code)[i];
    pieces_put_together_are_the_text(code);
    assert(!own.contains('\n'));
    if found[i] is None {
        let shown = without_last(line, '\n');
        assert(code_lines(code, found)[i] == one_span(shown, plain_style()));
        if line.len() > 0 && line.last() == '\n' {
            assert(line =~= shown.push('\n'));
        }
        assert(line == own || line == own.push('\n'));
        assert(own.push('\n').drop_last() =~= own);
        if own.len() > 0 {
            assert(own.contains(own.last()));
        }
        assert(shown == own);
    }
}

/// Code is shown with tab stops two columns apart, and only where there is code.
pub proof fn code_has_tab_stops_two_apart(
    theme: Seq<char>,
    block: BlockModel,
    style: TextStyle,
    i: int,
)
    requires
        block.kind == BlockKind::CodeFence,
        0 <= i < codeblock_lines(theme, block).len(),
    ensures
        code_body(block.shown()).len() == 0 ==> block_lines(theme, block, style).len() == 0,
        code_body(block.shown()).len() > 0 ==> {
            &&& block_lines(theme, block, style).len() == codeblock_lines(theme, block).len()
            &&& block_lines(theme, block, style)[i] == line_expanded(
                codeblock_lines(theme, block)[i],
                2,
            ).0
        },
{
}

} // verus!
