use dst_update_publisher::error::AppError;

#[test]
fn display_rss_parse() {
    let err = AppError::RssParse("bad feed".into());
    assert!(err.to_string().contains("RSS parse failed"));
    assert!(err.to_string().contains("bad feed"));
}

#[test]
fn display_html_parse() {
    let err = AppError::HtmlParse("bad html".into());
    assert!(err.to_string().contains("HTML parse failed"));
}

#[test]
fn display_po_processing() {
    let err = AppError::PoProcessing("bad po".into());
    assert!(err.to_string().contains("PO file processing failed"));
}

#[test]
fn display_zip_processing() {
    let err = AppError::ZipProcessing("bad zip".into());
    assert!(err.to_string().contains("ZIP processing failed"));
}

#[test]
fn display_llm_api() {
    let err = AppError::LlmApi("timeout".into());
    assert!(err.to_string().contains("LLM API call failed"));
}

#[test]
fn display_llm_response_parse() {
    let err = AppError::LlmResponseParse("bad json".into());
    assert!(err.to_string().contains("LLM response parsing failed"));
}

#[test]
fn display_config() {
    let err = AppError::Config("missing var".into());
    assert!(err.to_string().contains("Configuration error"));
}

#[test]
fn display_revision_not_found() {
    let err = AppError::RevisionNotFound("r9999".into());
    assert!(err.to_string().contains("not found"));
}

#[test]
fn display_exact_texts() {
    assert_eq!(AppError::Http("x".into()).to_string(), "HTTP request failed: x");
    assert_eq!(AppError::Redis("x".into()).to_string(), "Redis operation failed: x");
    assert_eq!(AppError::Serialization("x".into()).to_string(), "Serialization failed: x");
    assert_eq!(AppError::Io("x".into()).to_string(), "IO error: x");
    assert_eq!(
        AppError::RevisionNotFound("r9999".into()).to_string(),
        "Update page entry not found for revision: r9999"
    );
}
