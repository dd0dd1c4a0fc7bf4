//! Answers that come in pieces, as the blocks that are there so far.

use vstd::prelude::*;
use vstd::string::*;

use crate::agent::ToolFormat;
use crate::history::{block_models, BlockKind, BlockModel, MarkdownBlock};
use crate::jobs::{answer_of, parsed_markdown, ParsedMarkdown};

verus! {

/// What reads Markdown piece by piece.
#[verifier::external_type_specification]
#[verifier::external_body]
pub struct ExMdStream(mdstream::MdStream);

/// What a piece changes.
#[verifier::external_type_specification]
#[verifier::external_body]
pub struct ExUpdate(mdstream::Update);

/// The blocks that are there.
#[verifier::external_type_specification]
#[verifier::external_body]
pub struct ExDocumentState(mdstream::DocumentState);

/// A block of Markdown.
#[verifier::external_type_specification]
#[verifier::external_body]
pub struct ExBlock(mdstream::Block);

/// What changes in a document: whether it starts anew, the blocks that are finished,
/// and the one that is not.
#[verifier::ext_equal]
pub struct ChangeModel {
    pub reset: bool,
    pub committed: Seq<BlockModel>,
    pub pending: Option<BlockModel>,
}

/// A document: the blocks that are finished, and the one that is not.
#[verifier::ext_equal]
pub struct DocumentModel {
    pub committed: Seq<BlockModel>,
    pub pending: Option<BlockModel>,
}

impl DocumentModel {
    /// The document after a change.
    pub open spec fn changed(self, change: ChangeModel) -> DocumentModel {
        DocumentModel {
            committed: if change.reset {
                change.committed
            } else {
                self.committed + change.committed
            },
            pending: change.pending,
        }
    }

    /// All its blocks.
    pub open spec fn blocks(self) -> Seq<BlockModel> {
        match self.pending {
            Some(block) => self.committed.push(block),
            None => self.committed,
        }
    }
}

/// The pieces that a stream with the defaults of `streamdown_defaults` was given;
/// `None` for a stream that was made otherwise, or that has ended.
pub uninterp spec fn stream_pieces(stream: mdstream::MdStream) -> Option<Seq<Seq<char>>>;

/// What an update says. The blocks that it marks as touched by later references are
/// left out.
pub uninterp spec fn update_change(update: mdstream::Update) -> ChangeModel;

/// What a document holds.
pub uninterp spec fn document_contents(document: mdstream::DocumentState) -> DocumentModel;

/// What a block holds. Its number is left out, and whether it is finished.
pub uninterp spec fn block_contents(block: mdstream::Block) -> BlockModel;

/// What `mdstream` makes of the last of some pieces.
pub uninterp spec fn change_by_piece(pieces: Seq<Seq<char>>) -> ChangeModel;

/// What `mdstream` makes of the end of a text that came in pieces.
pub uninterp spec fn change_at_end(pieces: Seq<Seq<char>>) -> ChangeModel;

/// The document after some pieces of a text.
pub open spec fn document_so_far(pieces: Seq<Seq<char>>) -> DocumentModel
    decreases pieces.len(),
{
    if pieces.len() == 0 {
        DocumentModel { committed: Seq::empty(), pending: None }
    } else {
        document_so_far(pieces.drop_last()).changed(change_by_piece(pieces))
    }
}

/// The document of a text that came in pieces.
pub open spec fn document_at_end(pieces: Seq<Seq<char>>) -> DocumentModel {
    document_so_far(pieces).changed(change_at_end(pieces))
}

/// `mdstream::MdStream::streamdown_defaults` makes a stream that was given nothing.
#[verifier::external_body]
fn new_stream() -> (stream: mdstream::MdStream)
    ensures
        stream_pieces(stream) == Some(Seq::<Seq<char>>::empty()),
{
    mdstream::MdStream::streamdown_defaults()
}

/// `mdstream::MdStream::append` takes the next piece of a text, and says what it
/// changes. That depends on this piece and those before it.
#[verifier::external_body]
fn append_piece(stream: &mut mdstream::MdStream, content: &str) -> (update: mdstream::Update)
    requires
        stream_pieces(*old(stream)) is Some,
    ensures
        stream_pieces(*final(stream)) == Some(stream_pieces(*old(stream)).unwrap().push(content@)),
        update_change(update) == change_by_piece(
            stream_pieces(*old(stream)).unwrap().push(content@),
        ),
{
    stream.append(content)
}

/// `mdstream::MdStream::finalize` takes the end of a text, and says what it changes.
#[verifier::external_body]
fn end_stream(stream: &mut mdstream::MdStream) -> (update: mdstream::Update)
    requires
        stream_pieces(*old(stream)) is Some,
    ensures
        stream_pieces(*final(stream)) is None,
        update_change(update) == change_at_end(stream_pieces(*old(stream)).unwrap()),
{
    stream.finalize()
}

/// `mdstream::DocumentState::new` makes a document without blocks.
#[verifier::external_body]
fn new_document() -> (document: mdstream::DocumentState)
    ensures
        document_contents(document) == (DocumentModel { committed: Seq::empty(), pending: None }),
{
    mdstream::DocumentState::new()
}

/// `mdstream::DocumentState::apply` drops the blocks if the update asks for it, adds
/// those that are finished, and replaces the one that is not.
#[verifier::external_body]
fn apply_update(document: &mut mdstream::DocumentState, update: mdstream::Update)
    ensures
        document_contents(*final(document)) == document_contents(*old(document)).changed(
            update_change(update),
        ),
{
    document.apply(update);
}

/// `mdstream::DocumentState::committed` gives the blocks that are finished.
#[verifier::external_body]
fn committed_blocks(document: &mdstream::DocumentState) -> (blocks: &[mdstream::Block])
    ensures
        blocks@.map_values(|block: mdstream::Block| block_contents(block)) == document_contents(
            *document,
        ).committed,
{
    document.committed()
}

/// `mdstream::DocumentState::pending` gives the block that is not finished.
#[verifier::external_body]
fn pending_block(document: &mdstream::DocumentState) -> (block: Option<&mdstream::Block>)
    ensures
        (match block {
            Some(block) => Some(block_contents(*block)),
            None => None,
        }) == document_contents(*document).pending,
{
    document.pending()
}

/// The fields of an `mdstream::Block` as plain values.
#[verifier::external_body]
fn block_of(block: &mdstream::Block) -> (copy: MarkdownBlock)
    ensures
        copy@ == block_contents(*block),
{
    let kind = match block.kind {
        mdstream::BlockKind::Paragraph => BlockKind::Paragraph,
        mdstream::BlockKind::Heading => BlockKind::Heading,
        mdstream::BlockKind::ThematicBreak => BlockKind::ThematicBreak,
        mdstream::BlockKind::CodeFence => BlockKind::CodeFence,
        mdstream::BlockKind::List => BlockKind::List,
        mdstream::BlockKind::BlockQuote => BlockKind::BlockQuote,
        mdstream::BlockKind::Table => BlockKind::Table,
        mdstream::BlockKind::HtmlBlock => BlockKind::HtmlBlock,
        mdstream::BlockKind::MathBlock => BlockKind::MathBlock,
        mdstream::BlockKind::FootnoteDefinition => BlockKind::FootnoteDefinition,
        mdstream::BlockKind::Unknown => BlockKind::Unknown,
    };
    MarkdownBlock { kind, raw: block.raw.clone(), display: block.display.clone() }
}

/// The blocks of a document.
fn blocks_of(document: &mdstream::DocumentState) -> (blocks: Vec<MarkdownBlock>)
    ensures
        block_models(blocks@) == document_contents(*document).blocks(),
{
    let committed = committed_blocks(document);
    let ghost contents = document_contents(*document).committed;
    let mut blocks: Vec<MarkdownBlock> = Vec::new();
    let mut i: usize = 0;
    while i < committed.len()
        invariant
            i <= committed@.len() == contents.len(),
            committed@.map_values(|block: mdstream::Block| block_contents(block)) == contents,
            block_models(blocks@) == contents.take(i as int),
        decreases committed@.len() - i,
    {
        assert(contents[i as int] == block_contents(committed@[i as int]));
        let ghost before = blocks@;
        blocks.push(block_of(&committed[i]));
        assert(block_models(blocks@) =~= block_models(before).push(contents[i as int]));
        assert(contents.take(i + 1) =~= contents.take(i as int).push(contents[i as int]));
        i = i + 1;
    }
    assert(contents.take(contents.len() as int) =~= contents);
    match pending_block(document) {
        Some(block) => {
            let ghost before = blocks@;
            blocks.push(block_of(block));
            assert(block_models(blocks@) =~= block_models(before).push(block_contents(*block)));
        },
        None => {},
    }
    blocks
}

/// An answer that comes in pieces.
pub struct MarkdownAccumulator {
    format: ToolFormat,
    stream: mdstream::MdStream,
    document: mdstream::DocumentState,
}

impl MarkdownAccumulator {
    /// The answer has not ended, and the document is what came of its pieces so far.
    pub closed spec fn wf(&self) -> bool {
        &&& stream_pieces(self.stream) is Some
        &&& document_contents(self.document) == document_so_far(self.pieces())
    }

    /// How the answer calls tools.
    pub closed spec fn format(&self) -> ToolFormat {
        self.format
    }

    /// The pieces that came.
    pub closed spec fn pieces(&self) -> Seq<Seq<char>> {
        stream_pieces(self.stream).unwrap()
    }

    /// An answer of which nothing came yet.
    pub fn new(format: ToolFormat) -> (accumulator: MarkdownAccumulator)
        ensures
            accumulator.wf(),
            accumulator.format() == format,
            accumulator.pieces() == Seq::<Seq<char>>::empty(),
    {
        MarkdownAccumulator { format, stream: new_stream(), document: new_document() }
    }

    /// Takes the next piece of the answer. It is read with the pieces before it.
    pub fn append(&mut self, content: &str) -> (parsed: ParsedMarkdown)
        requires
            old(self).wf(),
        ensures
            final(self).wf(),
            final(self).format() == old(self).format(),
            final(self).pieces() == old(self).pieces().push(content@),
            parsed@ == answer_of(
                document_so_far(final(self).pieces()).blocks(),
                final(self).format(),
            ),
    {
        let update = append_piece(&mut self.stream, content);
        assert(self.pieces().drop_last() =~= old(self).pieces());
        apply_update(&mut self.document, update);
        parsed_markdown(blocks_of(&self.document), self.format)
    }

    /// Takes the end of the answer.
    pub fn finalize(&mut self) -> (parsed: ParsedMarkdown)
        requires
            old(self).wf(),
        ensures
            final(self).format() == old(self).format(),
            parsed@ == answer_of(document_at_end(old(self).pieces()).blocks(), old(self).format()),
    {
        let update = end_stream(&mut self.stream);
        apply_update(&mut self.document, update);
        parsed_markdown(blocks_of(&self.document), self.format)
    }
}

/// The blocks of a document are those that are finished, in their order, and the one that is not
/// behind them. A change adds to the finished ones, unless the document starts anew, and replaces
/// the one that is not.
pub proof fn document_grows_at_its_end(document: DocumentModel, change: ChangeModel)
    ensures
        ({
            let next = document.changed(change);
            let kept = if change.reset {
                Seq::empty()
            } else {
                document.committed
            };
            &&& next.committed == kept + change.committed
            &&& next.pending == change.pending
            &&& change.pending matches Some(block) ==> next.blocks() == kept + change.committed
                + seq![block]
            &&& change.pending is None ==> next.blocks() == kept + change.committed
        }),
{
    let next = document.changed(change);
    if change.reset {
        assert(Seq::<BlockModel>::empty() + change.committed =~= change.committed);
    }
    if let Some(block) = change.pending {
        assert(next.blocks() =~= next.committed + seq![block]);
    }
}

/// Nothing is in a document at first. A piece more is one change more, the one that the stream makes
/// of all the pieces up to there, and the end of the text is one last change.
pub proof fn pieces_are_taken_up_in_order(pieces: Seq<Seq<char>>, piece: Seq<char>)
    ensures
        document_so_far(Seq::empty()).blocks().len() == 0,
        ({
            let before = document_so_far(pieces);
            let change = change_by_piece(pieces.push(piece));
            let after = document_so_far(pieces.push(piece));
            &&& after.pending == change.pending
            &&& change.reset ==> after.committed == change.committed
            &&& !change.reset ==> after.committed == before.committed + change.committed
        }),
        ({
            let before = document_so_far(pieces);
            let change = change_at_end(pieces);
            let after = document_at_end(pieces);
            &&& after.pending == change.pending
            &&& change.reset ==> after.committed == change.committed
            &&& !change.reset ==> after.committed == before.committed + change.committed
        }),
{
    assert(pieces.push(piece).drop_last() =~= pieces);
}

} // verus!
