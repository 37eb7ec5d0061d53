//! Creditor references after ISO 11649: generation and validation.
//!
//! A creditor reference is the identifier `RF`, two check digits and a body
//! of one to twenty-one letters and digits. The check digits make the
//! reference, read as a number after the ISO 7064 MOD 97-10 rules, leave
//! the remainder 1 when divided by 97.
use vstd::prelude::*;

pub mod digits;
pub mod text;
pub mod parse_error;
pub mod model;
pub mod reference;

pub use parse_error::ParseError;
pub use reference::RfCreditorReference;

verus! {

/// The identifier that every creditor reference starts with.
pub const IDENTIFIER: &'static str = "RF";

/// The identifier with `00` for check digits: where generation starts from.
pub const GEN_PREFIX: &'static str = "RF00";

} // verus!
