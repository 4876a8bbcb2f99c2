//! Leveled log lines: the text of the `error:`, `warning:`, `Success:` and
//! `Fail:` messages, colored for a terminal. Printing them is the caller's.

use vstd::prelude::*;
use vstd::string::StringExecFns;

use crate::style::{bold, bold_seq, green, green_seq, red, red_seq, reset, reset_seq, yellow,
    yellow_seq};

verus! {

/// A log line: the colored, bolded label, a colon, a space and the message.
pub open spec fn log_line_spec(color: Seq<char>, label: Seq<char>, message: Seq<char>) -> Seq<
    char,
> {
    bold_seq() + color + label + reset_seq() + bold_seq() + ":"@ + reset_seq() + " "@ + message
}

fn log_line(color: &'static str, label: &'static str, message: &str) -> (r: String)
    ensures
        r@ == log_line_spec(color@, label@, message@),
{
    String::from_str(bold()).concat(color).concat(label).concat(reset()).concat(bold()).concat(
        ":",
    ).concat(reset()).concat(" ").concat(message)
}

/// The text of an error message: `error: {message}`, colored.
pub fn error_line(message: &str) -> (r: String)
    ensures
        r@ == log_line_spec(red_seq(), "error"@, message@),
{
    log_line(red(), "error", message)
}

/// The text of a warning message: `warning: {message}`, colored.
pub fn warning_line(message: &str) -> (r: String)
    ensures
        r@ == log_line_spec(yellow_seq(), "warning"@, message@),
{
    log_line(yellow(), "warning", message)
}

/// The text of a success message: `Success: {message}`, colored.
pub fn success_line(message: &str) -> (r: String)
    ensures
        r@ == log_line_spec(green_seq(), "Success"@, message@),
{
    log_line(green(), "Success", message)
}

/// The text of a failure message: `Fail: {message}`, colored.
pub fn fail_line(message: &str) -> (r: String)
    ensures
        r@ == log_line_spec(red_seq(), "Fail"@, message@),
{
    log_line(red(), "Fail", message)
}

} // verus!
