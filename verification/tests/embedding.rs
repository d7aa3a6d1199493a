use mdbook_markmap::embed::embed_markup;
use mdbook_markmap::engine::{render_outcome, RenderError, RenderOutcome};
use mdbook_markmap::MarkmapPreprocessor;

fn bytes(s: &str) -> Vec<u8> {
    s.as_bytes().to_vec()
}

fn embed_string(artifact: &str) -> String {
    String::from_utf8(embed_markup(&bytes(artifact))).unwrap()
}

#[test]
fn test_preprocessor_name() {
    assert_eq!(MarkmapPreprocessor.name(), "markmap");
}

#[test]
fn test_embed_markup_empty() {
    assert_eq!(
        embed_string(""),
        "<embed src=\"data:text/html;base64,\" width=\"100%\"></embed>"
    );
}

#[test]
fn test_embed_markup_padding_two() {
    assert_eq!(
        embed_string("f"),
        "<embed src=\"data:text/html;base64,Zg==\" width=\"100%\"></embed>"
    );
}

#[test]
fn test_embed_markup_padding_one() {
    assert_eq!(
        embed_string("fo"),
        "<embed src=\"data:text/html;base64,Zm8=\" width=\"100%\"></embed>"
    );
}

#[test]
fn test_embed_markup_no_padding() {
    assert_eq!(
        embed_string("foo"),
        "<embed src=\"data:text/html;base64,Zm9v\" width=\"100%\"></embed>"
    );
}

#[test]
fn test_embed_markup_binary_payload() {
    let artifact = vec![0u8, 255u8, 16u8, 130u8];
    let markup = String::from_utf8(embed_markup(&artifact)).unwrap();
    assert_eq!(
        markup,
        "<embed src=\"data:text/html;base64,AP8Qgg==\" width=\"100%\"></embed>"
    );
}

#[test]
fn test_render_outcome_failure_keeps_stderr() {
    let r = render_outcome(false, "renderer broke".to_string(), Some(bytes("ignored")));
    assert_eq!(
        r,
        RenderOutcome::Failure(RenderError::Render("renderer broke".to_string()))
    );
}

#[test]
fn test_render_outcome_readback_failure() {
    let r = render_outcome(true, String::new(), None);
    assert_eq!(r, RenderOutcome::Failure(RenderError::ReadBack));
}

#[test]
fn test_render_outcome_success() {
    let r = render_outcome(true, String::new(), Some(bytes("<svg/>")));
    assert_eq!(r, RenderOutcome::Success(bytes("<svg/>")));
}
