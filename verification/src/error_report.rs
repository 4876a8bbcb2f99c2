//! The error report: the text a failing program prints, a header naming the
//! program and one numbered line per cause in the error's chain.

use vstd::prelude::*;
use vstd::string::StringExecFns;

use crate::style::{bold, bold_seq, red, red_seq, reset, reset_seq};

verus! {

/// The decimal digit character for `d`.
pub open spec fn digit_char(d: int) -> char {
    ((48 + d) as u8) as char
}

/// The decimal writing of `n`, most significant digit first.
pub open spec fn decimal_spec(n: nat) -> Seq<char>
    decreases n,
{
    if n < 10 {
        seq![digit_char(n as int)]
    } else {
        decimal_spec(n / 10) + seq![digit_char((n % 10) as int)]
    }
}

fn push_decimal(n: usize, out: &mut Vec<char>)
    ensures
        final(out)@ == old(out)@ + decimal_spec(n as nat),
    decreases n,
{
    if n < 10 {
        let d = ((48 + n as u32) as u8) as char;
        out.push(d);
        proof {
            assert(final(out)@ =~= old(out)@ + decimal_spec(n as nat));
        }
    } else {
        push_decimal(n / 10, out);
        let d = ((48 + (n % 10) as u32) as u8) as char;
        out.push(d);
        proof {
            assert(final(out)@ =~= old(out)@ + decimal_spec(n as nat));
        }
    }
}

/// The decimal writing of `n`, per [`decimal_spec`].
pub fn decimal_string(n: usize) -> (r: String)
    ensures
        r@ == decimal_spec(n as nat),
{
    let mut out: Vec<char> = Vec::new();
    push_decimal(n, &mut out);
    proof {
        assert(out@ =~= decimal_spec(n as nat));
    }
    crate::strutil::chars_to_string(&out)
}

/// One numbered cause line: two spaces, the bold red number, a bold colon,
/// the cause, a line break.
pub open spec fn report_line_spec(index: nat, cause: Seq<char>) -> Seq<char> {
    "  "@ + bold_seq() + red_seq() + decimal_spec(index) + reset_seq() + bold_seq() + ":"@
        + reset_seq() + " "@ + cause + "\n"@
}

/// The cause lines from `causes`, numbered from `index` on.
pub open spec fn report_lines_spec(causes: Seq<Seq<char>>, index: nat) -> Seq<char>
    decreases causes.len(),
{
    if causes.len() == 0 {
        Seq::empty()
    } else {
        report_line_spec(index, causes[0]) + report_lines_spec(causes.drop_first(), index + 1)
    }
}

/// The whole report: a header naming the program, then the numbered causes,
/// outermost first.
pub open spec fn report_spec(program: Seq<char>, causes: Seq<Seq<char>>) -> Seq<char> {
    "`"@ + program + "` exited unsuccessfully\n"@ + report_lines_spec(causes, 1)
}

/// Report for printing a nice account of a failure: the chain of cause
/// messages, outermost first.
pub struct Report {
    /// The cause messages, outermost first.
    pub causes: Vec<String>,
}

impl Report {
    /// Wrap a chain of cause messages, outermost first.
    pub fn new(causes: Vec<String>) -> (r: Report)
        ensures
            r.causes@ == causes@,
    {
        Report { causes }
    }

    /// Render the report for the named program, per [`report_spec`].
    #[verifier::loop_isolation(false)]
    pub fn render(&self, program: &str) -> (r: String)
        ensures
            r@ == report_spec(program@, self.causes@.map_values(|c: String| c@)),
    {
        let ghost views = self.causes@.map_values(|c: String| c@);
        let mut out = String::from_str("`").concat(program).concat("` exited unsuccessfully\n");
        let n = self.causes.len();
        let mut i: usize = 0;
        proof {
            assert(views.skip(0) =~= views);
            assert(out@ + report_lines_spec(views, 1) =~= report_spec(program@, views));
        }
        while i < n
            invariant
                i <= n,
                out@ + report_lines_spec(views.skip(i as int), i as nat + 1) == report_spec(
                    program@,
                    views,
                ),
            decreases n - i,
        {
            let line = String::from_str("  ").concat(bold()).concat(red()).concat(
                decimal_string(i + 1).as_str(),
            ).concat(reset()).concat(bold()).concat(":").concat(reset()).concat(" ").concat(
                self.causes[i].as_str(),
            ).concat("\n");
            proof {
                assert(line@ =~= report_line_spec(i as nat + 1, views[i as int]));
                assert(views.skip(i as int)[0] == views[i as int]);
                assert(views.skip(i as int).drop_first() =~= views.skip(i as int + 1));
                assert(report_lines_spec(views.skip(i as int), i as nat + 1) == report_line_spec(
                    i as nat + 1,
                    views[i as int],
                ) + report_lines_spec(views.skip(i as int + 1), i as nat + 2));
            }
            let ghost out_before = out@;
            out = out.concat(line.as_str());
            proof {
                assert(out@ + report_lines_spec(views.skip(i as int + 1), i as nat + 2)
                    =~= out_before + (line@ + report_lines_spec(
                    views.skip(i as int + 1),
                    i as nat + 2,
                )));
            }
            i = i + 1;
        }
        proof {
            assert(views.skip(n as int) =~= Seq::<Seq<char>>::empty());
            assert(report_lines_spec(views.skip(n as int), n as nat + 1) =~= Seq::<char>::empty());
            assert(out@ =~= report_spec(program@, views));
        }
        out
    }
}

/// Result that coerces any error into a report for display.
pub type ReportResult<T, E = Report> = Result<T, E>;

} // verus!
