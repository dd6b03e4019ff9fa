//! The errors of the publisher, each with the text it reports.
use vstd::prelude::*;
use crate::text::concat2;

verus! {

/// What went wrong. Errors that come from an outside library carry that
/// library's message.
#[derive(Debug)]
pub enum AppError {
    Http(String),
    RssParse(String),
    HtmlParse(String),
    PoProcessing(String),
    ZipProcessing(String),
    LlmApi(String),
    LlmResponseParse(String),
    Redis(String),
    Config(String),
    Serialization(String),
    RevisionNotFound(String),
    Io(String),
}

/// A result of the publisher.
pub type AppResult<T> = Result<T, AppError>;

impl AppError {
    /// The text that reports the error: a fixed lead for its kind, then its detail.
    pub open spec fn message_spec(&self) -> Seq<char> {
        match self {
            AppError::Http(m) => "HTTP request failed: "@ + m@,
            AppError::RssParse(m) => "RSS parse failed: "@ + m@,
            AppError::HtmlParse(m) => "HTML parse failed: "@ + m@,
            AppError::PoProcessing(m) => "PO file processing failed: "@ + m@,
            AppError::ZipProcessing(m) => "ZIP processing failed: "@ + m@,
            AppError::LlmApi(m) => "LLM API call failed: "@ + m@,
            AppError::LlmResponseParse(m) => "LLM response parsing failed: "@ + m@,
            AppError::Redis(m) => "Redis operation failed: "@ + m@,
            AppError::Config(m) => "Configuration error: "@ + m@,
            AppError::Serialization(m) => "Serialization failed: "@ + m@,
            AppError::RevisionNotFound(m) => "Update page entry not found for revision: "@ + m@,
            AppError::Io(m) => "IO error: "@ + m@,
        }
    }

    /// The text that reports the error.
    pub fn to_string(&self) -> (res: String)
        ensures
            res@ == self.message_spec(),
    {
        match self {
            AppError::Http(m) => concat2("HTTP request failed: ", m.as_str()),
            AppError::RssParse(m) => concat2("RSS parse failed: ", m.as_str()),
            AppError::HtmlParse(m) => concat2("HTML parse failed: ", m.as_str()),
            AppError::PoProcessing(m) => concat2("PO file processing failed: ", m.as_str()),
            AppError::ZipProcessing(m) => concat2("ZIP processing failed: ", m.as_str()),
            AppError::LlmApi(m) => concat2("LLM API call failed: ", m.as_str()),
            AppError::LlmResponseParse(m) => concat2("LLM response parsing failed: ", m.as_str()),
            AppError::Redis(m) => concat2("Redis operation failed: ", m.as_str()),
            AppError::Config(m) => concat2("Configuration error: ", m.as_str()),
            AppError::Serialization(m) => concat2("Serialization failed: ", m.as_str()),
            AppError::RevisionNotFound(m) => concat2(
                "Update page entry not found for revision: ",
                m.as_str(),
            ),
            AppError::Io(m) => concat2("IO error: ", m.as_str()),
        }
    }
}

} // verus!
