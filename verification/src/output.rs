//! Output formats of generated context and the pieces between file blocks.

use vstd::prelude::*;

verus! {

/// Output format of generated context.
#[derive(Debug, Clone, Copy, PartialEq, Eq, Structural)]
pub enum OutputFormat {
    Xml,
    Markdown,
    Md,
    Plain,
    Json,
}

/// Result of context generation.
#[derive(Debug)]
pub struct ContextResult {
    pub content: String,
    pub file_count: usize,
    pub total_size: u64,
}

/// The separator between file blocks of a format.
pub open spec fn separator_of(format: OutputFormat) -> Seq<char> {
    match format {
        OutputFormat::Xml => "\n"@,
        OutputFormat::Markdown | OutputFormat::Md => "\n\n"@,
        OutputFormat::Plain => "\n"@,
        OutputFormat::Json => ","@,
    }
}

/// The separator between file blocks: a newline for XML and plain text, a
/// blank line for Markdown, a comma for a JSON array.
pub fn get_separator(format: &OutputFormat) -> (r: String)
    ensures
        r@ == separator_of(*format),
{
    match format {
        OutputFormat::Xml => "\n".to_string(),
        OutputFormat::Markdown | OutputFormat::Md => "\n\n".to_string(),
        OutputFormat::Plain => "\n".to_string(),
        OutputFormat::Json => ",".to_string(),
    }
}

} // verus!
