//! mmdfmt: a formatter for Mermaid diagram scripts.
//!
//! A script is parsed line by line into statements (`parser`), then rendered
//! with consistent indentation, spacing and blank lines (`formatter`).
use vstd::prelude::*;

pub mod ast;
pub mod config;
pub mod formatter;
pub mod parser;
pub mod text;

pub use config::Config;
pub use parser::ParseError;

use formatter::{render, rendered_lines, two_blank_in_a_row};
use parser::parse_model;

verus! {

/// What formatting an input gives: the rendered text, or the line and column
/// of the first line the parser refused.
pub open spec fn format_model(input: Seq<char>, config: Config) -> Result<Seq<char>, (nat, nat)> {
    match parse_model(input) {
        Ok(ss) => Ok(render(ss, config)),
        Err(e) => Err(e),
    }
}

/// Formats a Mermaid diagram script.
pub fn format_mermaid(input: &str, config: &Config) -> (r: Result<String, ParseError>)
    requires
        input@.len() + 1 < usize::MAX,
    ensures
        match r {
            Ok(out) => format_model(input@, *config) == Ok::<Seq<char>, (nat, nat)>(out@),
            Err(ParseError::Grammar { line, column, message }) => format_model(input@, *config)
                == Err::<Seq<char>, (nat, nat)>((line as nat, column as nat)) && message@
                == parser::grammar_message(),
        },
{
    match parser::parse(input) {
        Ok(diagram) => Ok(formatter::format(&diagram, config)),
        Err(e) => Err(e),
    }
}

/// Blank lines collapse: for every input that parses, the lines of the
/// output (which `render` joins, then trims at the end) never hold two empty
/// lines in a row, however many blank lines stand together in the input.
pub proof fn lemma_blank_lines_collapse(input: Seq<char>, config: Config)
    ensures
        parse_model(input) matches Ok(ss) ==> !two_blank_in_a_row(rendered_lines(ss, config)),
{
    parser::lemma_parsed_statements_have_text(input);
    match parse_model(input) {
        Ok(ss) => formatter::lemma_no_two_blank_lines(ss, config),
        Err(_) => {},
    }
}

} // verus!
