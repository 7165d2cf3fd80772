//! Query-language front end of a structural code-search tool: the lexer and
//! parser of the search-query syntax, the query plan built from parsed terms,
//! the symbol-description types shared with the analyzers, and the text
//! helpers of the agent-facing output.
pub mod error;
pub mod output;
pub mod query;
pub mod text;
pub mod types;
