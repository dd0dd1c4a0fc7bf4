use kablam::accumulator::MarkdownAccumulator;
use kablam::agent::ToolFormat;
use kablam::history::{blocks_to_raw_text, BlockKind};
use kablam::jobs::ParsedMarkdown;

fn kinds(parsed: &ParsedMarkdown) -> Vec<BlockKind> {
    parsed.blocks.iter().map(|block| block.kind).collect()
}

fn raws(parsed: &ParsedMarkdown) -> Vec<&str> {
    parsed.blocks.iter().map(|block| block.raw.as_str()).collect()
}

#[test]
fn pieces_are_read_with_those_before_them() {
    let mut markdown = MarkdownAccumulator::new(ToolFormat::XmlJson);
    let parsed = markdown.append("Hello ");
    assert_eq!(raws(&parsed), vec!["Hello "]);
    assert_eq!(kinds(&parsed), vec![BlockKind::Paragraph]);
    let parsed = markdown.append("**wor");
    assert_eq!(raws(&parsed), vec!["Hello **wor"]);
    assert_eq!(parsed.blocks[0].display.as_deref(), Some("Hello **wor**"));
    let parsed = markdown.append("ld**\n\nNext");
    assert_eq!(parsed.blocks.len(), 2);
    assert_eq!(parsed.blocks[0].display, None);
    assert_eq!(parsed.blocks[1].raw, "Next");
    let parsed = markdown.finalize();
    assert_eq!(parsed.blocks.len(), 2);
    assert!(parsed.blocks.iter().all(|block| block.display.is_none()));
    assert!(!parsed.tool_call_detected);
}

#[test]
fn an_answer_that_ends_at_once_has_no_blocks() {
    let mut markdown = MarkdownAccumulator::new(ToolFormat::XmlJson);
    let parsed = markdown.finalize();
    assert!(parsed.blocks.is_empty());
    assert!(!parsed.tool_call_detected);
}

#[test]
fn a_call_is_detected_once_it_is_whole() {
    let mut markdown = MarkdownAccumulator::new(ToolFormat::XmlJson);
    let parsed = markdown.append("<tool_call>{\"name\":\"read_file\",");
    assert!(!parsed.tool_call_detected);
    let parsed = markdown.append("\"arguments\":{}}</tool_call>");
    assert!(parsed.tool_call_detected);
    assert!(markdown.finalize().tool_call_detected);
}

#[test]
fn kinds_of_blocks_are_told_apart() {
    let mut markdown = MarkdownAccumulator::new(ToolFormat::JsonEnvelope);
    let parsed = markdown.append("# Title\n\n```rs\nlet a = 1;\n```\n\n- one\n\n> said\n\n---\n\nend");
    assert_eq!(
        kinds(&parsed),
        vec![
            BlockKind::Heading,
            BlockKind::CodeFence,
            BlockKind::List,
            BlockKind::BlockQuote,
            BlockKind::ThematicBreak,
            BlockKind::Paragraph,
        ]
    );
    assert!(parsed.blocks[1].raw.starts_with("```rs\nlet a = 1;\n```"));
}

#[test]
fn a_footnote_makes_one_block_of_the_answer() {
    let mut markdown = MarkdownAccumulator::new(ToolFormat::XmlJson);
    let parsed = markdown.append("one\n\ntwo");
    assert_eq!(parsed.blocks.len(), 2);
    let parsed = markdown.append("[^1]");
    assert_eq!(raws(&parsed), vec!["one\n\ntwo[^1]"]);
    assert_eq!(kinds(&parsed), vec![BlockKind::Unknown]);
    let parsed = markdown.finalize();
    assert_eq!(blocks_to_raw_text(&parsed.blocks), "one\n\ntwo[^1]");
}
