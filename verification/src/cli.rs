//! Command-line options that shape how a function's output is shown.
use vstd::prelude::*;
use crate::ast::{OutputMode, StructuredResult, mcp_report};

verus! {

/// How command output is presented.
#[derive(Debug, Clone, Copy, PartialEq, Eq, Structural)]
pub enum OutputFormatArg {
    /// Stream output directly to the terminal (default).
    Stream,
    /// Capture and output as JSON.
    Json,
    /// Capture and output as Markdown.
    Markdown,
}

impl OutputFormatArg {
    /// The output mode for this format: streaming, or structured capture for a report.
    pub fn mode(self) -> (m: OutputMode)
        ensures
            m == (if self == OutputFormatArg::Stream { OutputMode::Stream } else { OutputMode::Structured }),
    {
        match self {
            OutputFormatArg::Stream => OutputMode::Stream,
            OutputFormatArg::Json | OutputFormatArg::Markdown => OutputMode::Structured,
        }
    }

    /// How a structured result is reported in this format: not at all when streaming,
    /// as JSON, or as the Markdown report for agents.
    pub fn result_form(self, result: &StructuredResult) -> (r: ResultForm)
        ensures
            self == OutputFormatArg::Stream ==> r is Streamed,
            self == OutputFormatArg::Json ==> r is Json,
            self == OutputFormatArg::Markdown ==> (r matches ResultForm::Markdown(s) && s@ == mcp_report(*result)),
    {
        match self {
            OutputFormatArg::Stream => ResultForm::Streamed,
            OutputFormatArg::Json => ResultForm::Json,
            OutputFormatArg::Markdown => ResultForm::Markdown(result.to_mcp_format()),
        }
    }
}

/// How a structured result is reported.
#[derive(Debug)]
pub enum ResultForm {
    /// The output was streamed: no report.
    Streamed,
    /// The result as JSON (written by the caller).
    Json,
    /// This Markdown report.
    Markdown(String),
}

} // verus!
