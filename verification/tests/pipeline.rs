use mdbook_markmap::engine::{block_content, substitute_blocks, RenderError, RenderOutcome};
use mdbook_markmap::scanner::scan_blocks;
use mdbook_markmap::MarkmapPreprocessor;

fn bytes(s: &str) -> Vec<u8> {
    s.as_bytes().to_vec()
}

fn all_failures(n: usize) -> Vec<RenderOutcome> {
    let mut v = Vec::new();
    for _ in 0..n {
        v.push(RenderOutcome::Failure(RenderError::Spawn));
    }
    v
}

#[test]
fn test_process_markmap_blocks() {
    let input = "# Hello\n\n```markmap\n\n# First\n\n## Second\n\n### Third\n\n```\n\nOut of markmap block\n";
    let text = bytes(input);
    let matches = scan_blocks(&text);
    assert_eq!(matches.len(), 1);
    let outcomes = all_failures(matches.len());
    let new_content = MarkmapPreprocessor::process_markmap_blocks(&text, &outcomes);
    println!("{:?}", String::from_utf8(new_content.clone()).unwrap());
    assert_eq!(new_content, text);
}

#[test]
fn test_no_blocks_identity() {
    let text = bytes("# Heading\n\nplain prose, no fences at all\n");
    let matches = scan_blocks(&text);
    assert_eq!(matches.len(), 0);
    let out = substitute_blocks(&text, &Vec::new());
    assert_eq!(out, text);
}

#[test]
fn test_fallback_identity() {
    let text = bytes("A\n```markmap\nx\n```\nB\n```markmap\ny\n```\nC");
    let matches = scan_blocks(&text);
    assert_eq!(matches.len(), 2);
    let out = substitute_blocks(&text, &all_failures(2));
    assert_eq!(out, text);
}

#[test]
fn test_single_block_success() {
    let text = bytes("# H\n\n```markmap\n\n# A\n\n## B\n```\n\nTail");
    let matches = scan_blocks(&text);
    assert_eq!(matches.len(), 1);
    assert_eq!(matches[0].start, 5);
    assert_eq!(matches[0].content_end, 26);
    let outcomes = vec![RenderOutcome::Success(bytes("<svg/>"))];
    let out = substitute_blocks(&text, &outcomes);
    let expected = "# H\n\n<embed src=\"data:text/html;base64,PHN2Zy8+\" width=\"100%\"></embed>\n\nTail";
    assert_eq!(String::from_utf8(out).unwrap(), expected);
}

#[test]
fn test_render_failure_keeps_input() {
    let text = bytes("# H\n\n```markmap\n\n# A\n\n## B\n```\n\nTail");
    let diagnostic = "renderer exited with status 1".to_string();
    let outcomes = vec![RenderOutcome::Failure(RenderError::Render(diagnostic.clone()))];
    let out = substitute_blocks(&text, &outcomes);
    assert_eq!(out, text);
    assert_ne!(bytes(&diagnostic), out);
}

#[test]
fn test_order_and_count_preserved() {
    let text = bytes("A\n```markmap\nx\n```\nB\n```markmap\ny\n```\nC");
    let outcomes = vec![
        RenderOutcome::Success(bytes("Z")),
        RenderOutcome::Failure(RenderError::ReadBack),
    ];
    let out = substitute_blocks(&text, &outcomes);
    let expected = "A\n<embed src=\"data:text/html;base64,Wg==\" width=\"100%\"></embed>\n\
                    B\n```markmap\ny\n```\nC";
    assert_eq!(String::from_utf8(out).unwrap(), expected);
}

#[test]
fn test_unterminated_opener_preserved() {
    let text = bytes("pre\n```markmap\nno closer anywhere after this opener");
    let matches = scan_blocks(&text);
    assert_eq!(matches.len(), 0);
    let out = substitute_blocks(&text, &Vec::new());
    assert_eq!(out, text);
}

#[test]
fn test_closer_without_content_newline_is_no_match() {
    let text = bytes("```markmap\n```");
    let matches = scan_blocks(&text);
    assert_eq!(matches.len(), 0);
    let out = substitute_blocks(&text, &Vec::new());
    assert_eq!(out, text);
}

#[test]
fn test_empty_content_block() {
    let text = bytes("```markmap\n\n```");
    let matches = scan_blocks(&text);
    assert_eq!(matches.len(), 1);
    let out = substitute_blocks(&text, &vec![RenderOutcome::Success(Vec::new())]);
    let expected = "<embed src=\"data:text/html;base64,\" width=\"100%\"></embed>";
    assert_eq!(String::from_utf8(out).unwrap(), expected);
}

#[test]
fn test_earliest_closer_wins() {
    let text = bytes("```markmap\nA\n```x\n```y");
    let matches = scan_blocks(&text);
    assert_eq!(matches.len(), 1);
    assert_eq!(matches[0].start, 0);
    assert_eq!(matches[0].content_end, 12);
    let out = substitute_blocks(&text, &vec![RenderOutcome::Success(bytes("Q"))]);
    let expected = "<embed src=\"data:text/html;base64,UQ==\" width=\"100%\"></embed>x\n```y";
    assert_eq!(String::from_utf8(out).unwrap(), expected);
}

#[test]
fn test_multibyte_text_around_block() {
    let text = bytes("Ü\n```markmap\nx\n```\nÉ");
    let matches = scan_blocks(&text);
    assert_eq!(matches.len(), 1);
    let out = substitute_blocks(&text, &vec![RenderOutcome::Success(bytes("Q"))]);
    let expected = "Ü\n<embed src=\"data:text/html;base64,UQ==\" width=\"100%\"></embed>\nÉ";
    assert_eq!(String::from_utf8(out).unwrap(), expected);
}

#[test]
fn test_extra_backtick_stays_after_closer() {
    let text = bytes("```markmap\nA\n````");
    let matches = scan_blocks(&text);
    assert_eq!(matches.len(), 1);
    assert_eq!(matches[0].content_end, 12);
    let out = substitute_blocks(&text, &vec![RenderOutcome::Success(bytes("Q"))]);
    let expected = "<embed src=\"data:text/html;base64,UQ==\" width=\"100%\"></embed>`";
    assert_eq!(String::from_utf8(out).unwrap(), expected);
}

#[test]
fn test_block_content_extraction() {
    let text = bytes("# H\n\n```markmap\n\n# A\n\n## B\n```\n\nTail");
    let matches = scan_blocks(&text);
    assert_eq!(matches.len(), 1);
    let content = block_content(&text, &matches[0]).unwrap();
    assert_eq!(String::from_utf8(content).unwrap(), "\n# A\n\n## B");
}
