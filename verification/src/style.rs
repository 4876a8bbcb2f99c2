//! The ANSI escape sequences the terminal helpers color their output with,
//! each a function returning its literal so that contracts can name the
//! exact bytes.

use vstd::prelude::*;

verus! {

/// The escape sequence that resets all styling.
pub open spec fn reset_seq() -> Seq<char> {
    "\u{1b}[0m"@
}

/// The escape sequence for bold text.
pub open spec fn bold_seq() -> Seq<char> {
    "\u{1b}[1m"@
}

/// The escape sequence for bright red text.
pub open spec fn red_seq() -> Seq<char> {
    "\u{1b}[91m"@
}

/// The escape sequence for bright green text.
pub open spec fn green_seq() -> Seq<char> {
    "\u{1b}[92m"@
}

/// The escape sequence for bright yellow text.
pub open spec fn yellow_seq() -> Seq<char> {
    "\u{1b}[93m"@
}

/// The escape sequence for bright cyan text.
pub open spec fn cyan_seq() -> Seq<char> {
    "\u{1b}[96m"@
}

/// Reset all styling.
pub fn reset() -> (r: &'static str)
    ensures
        r@ == reset_seq(),
{
    "\u{1b}[0m"
}

/// Bold text.
pub fn bold() -> (r: &'static str)
    ensures
        r@ == bold_seq(),
{
    "\u{1b}[1m"
}

/// Bright red text.
pub fn red() -> (r: &'static str)
    ensures
        r@ == red_seq(),
{
    "\u{1b}[91m"
}

/// Bright green text.
pub fn green() -> (r: &'static str)
    ensures
        r@ == green_seq(),
{
    "\u{1b}[92m"
}

/// Bright yellow text.
pub fn yellow() -> (r: &'static str)
    ensures
        r@ == yellow_seq(),
{
    "\u{1b}[93m"
}

/// Bright cyan text.
pub fn cyan() -> (r: &'static str)
    ensures
        r@ == cyan_seq(),
{
    "\u{1b}[96m"
}

} // verus!
