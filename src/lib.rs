//! Literal substring search over the whitespace-separated tokens of text
//! files: a tokenizer with optional line numbers, a naive matcher with
//! fixed-offset case folding, an occurrence collector, the search over a set
//! of files, the report layout, and the reading of the command line.
pub mod cli_input;
pub mod matcher;
pub mod occurrences;
pub mod report;
pub mod search;
pub mod text;
pub mod tokenizer;

pub use cli_input::{
    is_non_opt_flag, is_opt_flag, match_non_opt_flag, match_opt_flag, parse_exclude_paths,
    parse_mult_opt_flags, parse_user_input_cli, split_str_into_vec, CliError, OptFlag, UserInput,
};
pub use matcher::{cmp_chars, contains_text, match_str, match_vecs, MatchMode, Script};
pub use occurrences::{collect_occurrences, find_occurences};
pub use report::render_occurrences;
pub use search::{do_search, filter_path, FileData, FileEntry, FileFailure, ReadError};
pub use tokenizer::{char_slice_to_str, parse_to_tokens, Token, TokenWithLine};
