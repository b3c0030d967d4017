//! The fields a parser accepts, as bits of `Parser::options`.
use vstd::prelude::*;

verus! {

/// Seconds field.
pub const SECOND: u32 = 1;
/// Seconds field, optional.
pub const SECOND_OPTIONAL: u32 = 2;
/// Minutes field.
pub const MINUTE: u32 = 4;
/// Hours field.
pub const HOUR: u32 = 8;
/// Day of month field.
pub const DOM: u32 = 16;
/// Month field.
pub const MONTH: u32 = 32;
/// Day of week field.
pub const DOW: u32 = 64;
/// Day of week field, optional.
pub const DOW_OPTIONAL: u32 = 128;
/// Descriptors such as `@monthly` and `@every 1h30m`.
pub const DESCRIPTOR: u32 = 256;

} // verus!
