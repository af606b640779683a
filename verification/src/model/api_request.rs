use crate::timestamp::Timestamp;
use vstd::prelude::*;
use vstd::string::StringSliceAdditionalSpecFns;

verus! {

/// The period by which readings are grouped.
#[derive(Debug, PartialEq, Eq, Structural, Clone, Copy)]
pub enum AggregationKind {
    Hourly,
    DayInMonth,
    Monthly,
    Yearly,
}

/// Whether two runs of bytes are the same.
fn same_bytes(first: &[u8], second: &[u8]) -> (same: bool)
    ensures
        same == (first@ == second@),
{
    if first.len() != second.len() {
        return false;
    }
    let mut at: usize = 0;
    while at < first.len()
        invariant
            at <= first.len(),
            first.len() == second.len(),
            forall|i: int| 0 <= i < at ==> first@[i] == second@[i],
        decreases first.len() - at,
    {
        if first[at] != second[at] {
            return false;
        }
        at += 1;
    }
    assert(first@ =~= second@);
    true
}

impl AggregationKind {
    /// The name under which the store keeps the kind.
    pub open spec fn sql_label(self) -> &'static str {
        match self {
            AggregationKind::Hourly => "Hourly",
            AggregationKind::DayInMonth => "DayInMonth",
            AggregationKind::Monthly => "Monthly",
            AggregationKind::Yearly => "Yearly",
        }
    }

    /// The unit to which the store cuts an instant down for the kind.
    /// `DayInMonth` cuts to the start of the calendar day.
    pub open spec fn period(self) -> &'static str {
        match self {
            AggregationKind::Hourly => "hour",
            AggregationKind::DayInMonth => "day",
            AggregationKind::Monthly => "month",
            AggregationKind::Yearly => "year",
        }
    }

    /// The kind that `bytes` name, if they name one.
    pub open spec fn named_by(bytes: Seq<u8>) -> Option<AggregationKind> {
        if bytes == AggregationKind::Hourly.sql_label().spec_bytes() {
            Some(AggregationKind::Hourly)
        } else if bytes == AggregationKind::DayInMonth.sql_label().spec_bytes() {
            Some(AggregationKind::DayInMonth)
        } else if bytes == AggregationKind::Monthly.sql_label().spec_bytes() {
            Some(AggregationKind::Monthly)
        } else if bytes == AggregationKind::Yearly.sql_label().spec_bytes() {
            Some(AggregationKind::Yearly)
        } else {
            None
        }
    }

    /// The name under which the store keeps the kind.
    pub fn sql_name(self) -> (name: &'static str)
        ensures
            name == self.sql_label(),
    {
        match self {
            AggregationKind::Hourly => "Hourly",
            AggregationKind::DayInMonth => "DayInMonth",
            AggregationKind::Monthly => "Monthly",
            AggregationKind::Yearly => "Yearly",
        }
    }

    /// Reads a kind from the bytes the store keeps for it. Bytes that name no
    /// kind are refused.
    pub fn from_sql(bytes: &[u8]) -> (read: Result<Self, String>)
        ensures
            match read {
                Ok(kind) => Self::named_by(bytes@) == Some(kind),
                Err(message) => Self::named_by(bytes@) is None && message@
                    == "Unrecognized enum variant"@,
            },
    {
        if same_bytes(bytes, "Hourly".as_bytes()) {
            Ok(Self::Hourly)
        } else if same_bytes(bytes, "DayInMonth".as_bytes()) {
            Ok(Self::DayInMonth)
        } else if same_bytes(bytes, "Monthly".as_bytes()) {
            Ok(Self::Monthly)
        } else if same_bytes(bytes, "Yearly".as_bytes()) {
            Ok(Self::Yearly)
        } else {
            Err("Unrecognized enum variant".to_string())
        }
    }

    /// Writes the bytes the store keeps for the kind after what `out` holds.
    pub fn to_sql(&self, out: &mut Vec<u8>)
        ensures
            final(out)@ == old(out)@ + self.sql_label().spec_bytes(),
    {
        let name = self.sql_name().as_bytes();
        let mut at: usize = 0;
        while at < name.len()
            invariant
                at <= name.len(),
                out@ == old(out)@ + name@.take(at as int),
            decreases name.len() - at,
        {
            out.push(name[at]);
            at += 1;
        }
        assert(name@.take(at as int) == name@);
    }
}

impl From<AggregationKind> for &str {
    fn from(kind: AggregationKind) -> (unit: Self) {
        match kind {
            AggregationKind::Hourly => "hour",
            AggregationKind::DayInMonth => "day",
            AggregationKind::Monthly => "month",
            AggregationKind::Yearly => "year",
        }
    }
}

impl vstd::std_specs::convert::FromSpecImpl<AggregationKind> for &str {
    open spec fn obeys_from_spec() -> bool {
        true
    }

    open spec fn from_spec(kind: AggregationKind) -> Self {
        kind.period()
    }
}

/// The bytes written for a kind are read back as that kind.
pub proof fn lemma_sql_name_round_trip(kind: AggregationKind)
    ensures
        AggregationKind::named_by(kind.sql_label().spec_bytes()) == Some(kind),
{
    reveal_strlit("Hourly");
    reveal_strlit("DayInMonth");
    reveal_strlit("Monthly");
    reveal_strlit("Yearly");
    broadcast use vstd::string::is_ascii_spec_bytes;

    assert(vstd::string::is_ascii("Hourly"));
    assert(vstd::string::is_ascii("DayInMonth"));
    assert(vstd::string::is_ascii("Monthly"));
    assert(vstd::string::is_ascii("Yearly"));
    assert("Hourly".spec_bytes()[0] == 72u8);
    assert("Yearly".spec_bytes()[0] == 89u8);
}

/// The bounds of a request; each may be absent, and both are inclusive.
#[derive(Debug, PartialEq, Eq, Structural, Clone, Copy)]
pub struct TimeSeriesRange {
    pub from_date: Option<Timestamp>,
    pub to_date: Option<Timestamp>,
}

/// A request for sums: the period to group by and the bounds.
#[derive(Debug, PartialEq, Eq, Structural, Clone, Copy)]
pub struct TimeSeriesAggregationRequest {
    pub aggregation_kind: AggregationKind,
    pub datetime_filter: TimeSeriesRange,
}

} // verus!
