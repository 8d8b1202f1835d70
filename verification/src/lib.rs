//! Suffix extraction for a `tail`-style utility, together with the range-list
//! selection of a `cut`-style utility and the line bookkeeping of a
//! `grep`-style utility.
//!
//! The heart of the crate is the pair of a count-spec parser ([`directive`])
//! and an offset engine ([`suffix`]): a textual count argument such as `+3`,
//! `-5` or `0` is turned into a [`directive::TakeValue`], which is then
//! evaluated against a file's total line or byte count to decide exactly
//! which trailing portion of the file to emit.

pub mod cut;
pub mod digits;
pub mod ranges;
pub mod directive;
pub mod search;
pub mod suffix;
