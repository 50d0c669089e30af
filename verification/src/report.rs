//! Report-mode helpers: the static column header line of the final text
//! report.  The report itself is printed outside the library from a
//! read-only snapshot of the session.

use vstd::prelude::*;
use vstd::string::StringExecFns;

use crate::args::Column;

verus! {

/// The header text of one column in report mode (the graph column shows
/// a standard deviation instead of a sparkline there).
pub open spec fn report_header_cell(c: Column) -> Seq<char> {
    match c {
        Column::Hop => ""@,
        Column::Host => ""@,
        Column::Loss => "Loss%"@,
        Column::Sent => " Snt"@,
        Column::Last => "   Last"@,
        Column::Avg => "    Avg"@,
        Column::Ema => "   EMA"@,
        Column::Jitter => "  Jttr"@,
        Column::JitterAvg => "  JAvg"@,
        Column::Best => "  Best"@,
        Column::Worst => "  Wrst"@,
        Column::Graph => "StDev"@,
    }
}

/// The report header line: the cells of the chosen columns joined by
/// single spaces.
pub open spec fn report_header_spec(cols: Seq<Column>) -> Seq<char>
    decreases cols.len(),
{
    if cols.len() == 0 {
        Seq::empty()
    } else if cols.len() == 1 {
        report_header_cell(cols[0])
    } else {
        report_header_spec(cols.drop_last()) + seq![' '] + report_header_cell(cols.last())
    }
}

/// The exec text of one report header cell.
fn report_header_cell_str(c: Column) -> (r: &'static str)
    ensures
        r@ == report_header_cell(c),
{
    match c {
        Column::Hop => "",
        Column::Host => "",
        Column::Loss => "Loss%",
        Column::Sent => " Snt",
        Column::Last => "   Last",
        Column::Avg => "    Avg",
        Column::Ema => "   EMA",
        Column::Jitter => "  Jttr",
        Column::JitterAvg => "  JAvg",
        Column::Best => "  Best",
        Column::Worst => "  Wrst",
        Column::Graph => "StDev",
    }
}

/// Build the header line of the report for the chosen columns.
pub fn format_column_headers(columns: &[Column]) -> (r: String)
    ensures
        r@ == report_header_spec(columns@),
{
    let mut header = String::new();
    let n = columns.len();
    let mut i: usize = 0;
    proof {
        assert(columns@.take(0) =~= Seq::<Column>::empty());
    }
    while i < n
        invariant
            0 <= i <= n,
            n == columns@.len(),
            header@ == report_header_spec(columns@.take(i as int)),
        decreases n - i,
    {
        if i > 0 {
            header.append(" ");
            proof {
                reveal_strlit(" ");
            }
        }
        header.append(report_header_cell_str(columns[i]));
        proof {
            assert(columns@.take(i + 1).drop_last() =~= columns@.take(i as int));
            assert(columns@.take(i + 1).last() == columns@[i as int]);
            assert(header@ =~= report_header_spec(columns@.take(i + 1)));
        }
        i = i + 1;
    }
    proof {
        assert(columns@.take(n as int) =~= columns@);
    }
    header
}

} // verus!
