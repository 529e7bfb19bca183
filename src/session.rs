use vstd::prelude::*;
use vstd::string::StringExecFns;
use crate::csv_data_handle::{CsvDataHandle, rectangular};
use crate::csv_io::table_text;
use crate::csv_request::{
    CsvRequest, RequestModel, parse_request, request_outcome, parse_csv_request,
    handle_csv_request,
};
use crate::text::push_char;

verus! {

/// What `str::trim` leaves of a text.
pub uninterp spec fn trimmed(s: Seq<char>) -> Seq<char>;

/// Relies on `str::trim`: the text without leading and trailing whitespace, which depends on
/// the text alone.
#[verifier::external_body]
fn trim_input(s: &str) -> (r: String)
    ensures
        r@ == trimmed(s@),
{
    s.trim().to_string()
}

/// The reply to a line that names no command.
pub open spec fn rejected_text() -> Seq<char> {
    "CSV Request Entered Incorrectly"@.push('\n')
}

/// The reply to a command that failed.
pub open spec fn failed_text() -> Seq<char> {
    ("CSV Request Failed: "@ + "invalid csv"@).push('\n')
}

/// The path an answer names, as text.
pub open spec fn path_text(r: Option<String>) -> Option<Seq<char>> {
    match r {
        Some(p) => Some(p@),
        None => None,
    }
}

/// What answering `line` does to a table with `headers` and `rows` that becomes one with
/// `headers2` and `rows2`, and to the reply text `out` that becomes `out2`, returning `path`.
pub open spec fn reply_outcome(
    line: Seq<char>,
    headers: Seq<Seq<char>>,
    rows: Seq<Seq<Seq<char>>>,
    out: Seq<char>,
    headers2: Seq<Seq<char>>,
    rows2: Seq<Seq<Seq<char>>>,
    out2: Seq<char>,
    path: Option<Seq<char>>,
) -> bool {
    match parse_request(line) {
        None => path is None && out2 == out + rejected_text() && headers2 == headers && rows2
            == rows,
        Some(RequestModel::WriteToFile(p)) => path == Some(p) && out2 == out + table_text(
            headers,
            rows,
        ) && headers2 == headers && rows2 == rows,
        Some(q) => path is None && exists|shown: Seq<char>, ok: bool|
            request_outcome(q, headers, rows, out, headers2, rows2, shown, ok) && out2 == if ok {
                shown
            } else {
                shown + failed_text()
            },
    }
}

/// Answers one line of input on the table, appending the reply to `out`.
///
/// A line that names no command gets the rejection line. A `WriteToFile` command appends the
/// table's text and returns the path, where the caller writes `out`. Any other command is
/// carried out, and a failure adds the failure line after what it showed.
pub fn respond<D: CsvDataHandle>(csv_holder: &mut D, line: &str, out: &mut String) -> (r: Option<
    String,
>)
    requires
        rectangular(old(csv_holder).header_cells(), old(csv_holder).row_cells()),
    ensures
        rectangular(final(csv_holder).header_cells(), final(csv_holder).row_cells()),
        reply_outcome(
            line@,
            old(csv_holder).header_cells(),
            old(csv_holder).row_cells(),
            old(out)@,
            final(csv_holder).header_cells(),
            final(csv_holder).row_cells(),
            final(out)@,
            path_text(r),
        ),
{
    let request = match parse_csv_request(line) {
        Some(q) => q,
        None => {
            out.append("CSV Request Entered Incorrectly");
            push_char(out, '\n');
            return None;
        },
    };
    let path = match &request {
        CsvRequest::WriteToFile(p) => Some(p.clone()),
        _ => None,
    };
    let ghost q = request@;
    match handle_csv_request(request, csv_holder, out) {
        Ok(()) => {},
        Err(e) => {
            let ghost shown = out@;
            let text = e.message();
            out.append("CSV Request Failed: ");
            out.append(text.as_str());
            push_char(out, '\n');
            assert(out@ =~= shown + failed_text());
        },
    }
    path
}

/// Answers one line as typed: the line is trimmed of surrounding whitespace first.
pub fn respond_to_input<D: CsvDataHandle>(csv_holder: &mut D, raw: &str, out: &mut String) -> (r:
    Option<String>)
    requires
        rectangular(old(csv_holder).header_cells(), old(csv_holder).row_cells()),
    ensures
        rectangular(final(csv_holder).header_cells(), final(csv_holder).row_cells()),
        reply_outcome(
            trimmed(raw@),
            old(csv_holder).header_cells(),
            old(csv_holder).row_cells(),
            old(out)@,
            final(csv_holder).header_cells(),
            final(csv_holder).row_cells(),
            final(out)@,
            path_text(r),
        ),
{
    let line = trim_input(raw);
    respond(csv_holder, line.as_str(), out)
}

} // verus!
