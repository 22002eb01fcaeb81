//! A small command-line argument parser.
//!
//! The parser holds the tokens of a command line and lets the caller take out
//! flags, options (`--key value` or `--key=value`), subcommands and positional
//! values, in any order; each token is consumed at most once, and what is left
//! at the end can be checked. Every operation states its effect on the tokens
//! in its contract.
use vstd::prelude::*;

mod arg;
mod keys;
mod error;
mod scan;
mod outcome;
mod arguments;
mod width;
mod laws;

pub use arg::{Arg, ArgView, views, text_of};
pub use keys::{Keys, valid_keys, lemma_keys_from_str, lemma_keys_from_pair};
pub use error::{Error, ErrorView, texts, joined, message, error_to_string};
pub use scan::{
    PairKind, is_first, first_where, lemma_first_where, is_exact, is_inline, first_exact,
    first_inline, lemma_first_exact, lemma_first_inline, exact_hit, inline_hit, inline_rest,
    unquoted, find_value_spec, taken, well_placed, lemma_hits_in_range, ends_with,
};
pub use arguments::Arguments;
pub use outcome::{
    after_contains, lemma_chain_step, lemma_raw_chain_step, decodes_any_text, accepts, rejects, refused_by, opt_value_outcome,
    value_outcome, store_after, search_after, value_after, values_outcome, decodes_any_arg,
    accepts_arg, rejects_arg, raw_refused_by, raw_value_spec, opt_raw_outcome, raw_outcome,
    raw_store_after, raw_value_after, raw_values_outcome, free_raw_outcome, is_flag, flags_left,
    flag_check, free_spec, positional_texts, listed_all, listed, finish_spec, free_value_outcome,
    subcommand_outcome,
};
pub use width::{digits_value, is_digits, decimal_u32, parse_width, is_width};
pub use laws::{
    names, law_contains, law_contains_twice, law_failed_extraction_keeps_tokens,
    lemma_flags_left_concat, law_stdin_is_positional, law_values_absent,
};

verus! {

} // verus!
