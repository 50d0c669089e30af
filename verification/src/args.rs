//! Display and probing options: the table columns, the sparkline scale,
//! and the probe protocol selection.

use vstd::prelude::*;

verus! {

/// How the sparkline maps round-trip times to bar heights.
#[derive(Debug, Clone, Copy, PartialEq, Eq, Structural)]
pub enum SparklineScale {
    Linear,
    Logarithmic,
}

/// Which protocol the probes are framed for.  Only ICMP is genuinely
/// distinct today: the other two reuse ICMP echo framing as placeholders.
#[derive(Debug, Clone, Copy, PartialEq, Eq, Structural)]
pub enum ProbeProtocol {
    Icmp,
    Udp,
    Tcp,
}

/// One column of the hop table.
#[derive(Debug, Clone, Copy, PartialEq, Eq, Structural)]
pub enum Column {
    Hop,
    Host,
    Loss,
    Sent,
    Last,
    Avg,
    Ema,
    Jitter,
    JitterAvg,
    Best,
    Worst,
    Graph,
}

/// All columns, in their default order.
pub open spec fn all_columns() -> Seq<Column> {
    seq![
        Column::Hop,
        Column::Host,
        Column::Loss,
        Column::Sent,
        Column::Last,
        Column::Avg,
        Column::Ema,
        Column::Jitter,
        Column::JitterAvg,
        Column::Best,
        Column::Worst,
        Column::Graph,
    ]
}

/// The default column selection: everything except the jitter metrics.
pub open spec fn default_column_seq() -> Seq<Column> {
    seq![
        Column::Hop,
        Column::Host,
        Column::Loss,
        Column::Sent,
        Column::Last,
        Column::Avg,
        Column::Ema,
        Column::Best,
        Column::Worst,
        Column::Graph,
    ]
}

impl Column {
    /// Every available column, in default order.
    pub fn all() -> (r: Vec<Column>)
        ensures
            r@ == all_columns(),
    {
        let mut v: Vec<Column> = Vec::new();
        v.push(Column::Hop);
        v.push(Column::Host);
        v.push(Column::Loss);
        v.push(Column::Sent);
        v.push(Column::Last);
        v.push(Column::Avg);
        v.push(Column::Ema);
        v.push(Column::Jitter);
        v.push(Column::JitterAvg);
        v.push(Column::Best);
        v.push(Column::Worst);
        v.push(Column::Graph);
        proof {
            assert(v@ =~= all_columns());
        }
        v
    }

    /// The default columns: the jitter metrics stay hidden unless asked
    /// for.
    pub fn default_columns() -> (r: Vec<Column>)
        ensures
            r@ == default_column_seq(),
    {
        let mut v: Vec<Column> = Vec::new();
        v.push(Column::Hop);
        v.push(Column::Host);
        v.push(Column::Loss);
        v.push(Column::Sent);
        v.push(Column::Last);
        v.push(Column::Avg);
        v.push(Column::Ema);
        v.push(Column::Best);
        v.push(Column::Worst);
        v.push(Column::Graph);
        proof {
            assert(v@ =~= default_column_seq());
        }
        v
    }

    /// The text shown in this column's header.
    pub fn header(&self) -> (r: &'static str)
        ensures
            r@ == Self::header_spec(*self),
    {
        match self {
            Column::Hop => "",
            Column::Host => "Hostname",
            Column::Loss => "Loss%",
            Column::Sent => "Pkts",
            Column::Last => "LastRTT",
            Column::Avg => "AvgRTT",
            Column::Ema => "EmaRTT",
            Column::Jitter => "Jitter",
            Column::JitterAvg => "JitAvg",
            Column::Best => "BestRTT",
            Column::Worst => "WorstRTT",
            Column::Graph => "RTT History",
        }
    }

    /// The header text of each column.
    pub open spec fn header_spec(c: Column) -> Seq<char> {
        match c {
            Column::Hop => ""@,
            Column::Host => "Hostname"@,
            Column::Loss => "Loss%"@,
            Column::Sent => "Pkts"@,
            Column::Last => "LastRTT"@,
            Column::Avg => "AvgRTT"@,
            Column::Ema => "EmaRTT"@,
            Column::Jitter => "Jitter"@,
            Column::JitterAvg => "JitAvg"@,
            Column::Best => "BestRTT"@,
            Column::Worst => "WorstRTT"@,
            Column::Graph => "RTT History"@,
        }
    }

    /// The width this column is formatted to.
    pub fn width(&self) -> (r: usize)
        ensures
            r == Self::width_spec(*self),
    {
        match self {
            Column::Hop => 3,
            Column::Host => 21,
            Column::Loss => 7,
            Column::Sent => 4,
            Column::Last => 8,
            Column::Avg => 8,
            Column::Ema => 8,
            Column::Jitter => 8,
            Column::JitterAvg => 8,
            Column::Best => 8,
            Column::Worst => 8,
            Column::Graph => 20,
        }
    }

    /// The formatting width of each column.
    pub open spec fn width_spec(c: Column) -> int {
        match c {
            Column::Hop => 3,
            Column::Host => 21,
            Column::Loss => 7,
            Column::Sent => 4,
            Column::Last => 8,
            Column::Avg => 8,
            Column::Ema => 8,
            Column::Jitter => 8,
            Column::JitterAvg => 8,
            Column::Best => 8,
            Column::Worst => 8,
            Column::Graph => 20,
        }
    }
}

} // verus!
