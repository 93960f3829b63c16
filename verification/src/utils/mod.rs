//! Helpers for the command line that a client types.

pub mod parsing;

pub use parsing::{
    parse_arguments, replace_full_width_spaces_to_half_width_spaces_if_not_in_quotes,
};
