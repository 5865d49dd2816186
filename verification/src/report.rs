//! The utilization report: three percentage texts assembled from the
//! trimmed outputs of the three probe commands.

use vstd::prelude::*;

use crate::number::{format_two_decimals, is_valid_decimal, two_decimals};

verus! {

/// The record a successful run emits.
#[derive(Debug)]
pub struct UtilizationReport {
    pub cpu: String,
    pub memory: String,
    pub disk: String,
}

/// The mathematical shape of a report: its three texts.
pub struct ReportView {
    pub cpu: Seq<char>,
    pub memory: Seq<char>,
    pub disk: Seq<char>,
}

impl View for UtilizationReport {
    type V = ReportView;

    open spec fn view(&self) -> ReportView {
        ReportView { cpu: self.cpu@, memory: self.memory@, disk: self.disk@ }
    }
}

/// Why a report could not be assembled.
#[derive(Debug, PartialEq, Eq, Structural)]
pub enum ReportError {
    MemoryNotNumeric,
}

/// The report assembled from the three trimmed command outputs: the
/// cpu text with a percent sign appended unchecked, the memory text
/// rendered to two decimals with a percent sign, and the disk text
/// exactly as received.
pub open spec fn report_of(cpu: Seq<char>, memory: Seq<char>, disk: Seq<char>) -> ReportView {
    ReportView { cpu: cpu + "%"@, memory: two_decimals(memory) + "%"@, disk: disk }
}

/// Assemble the report from the three trimmed command outputs; the
/// memory text must be a decimal text, the other two are taken as
/// they are.
pub fn build_report(cpu: String, memory: &str, disk: String) -> (r: Result<
    UtilizationReport,
    ReportError,
>)
    ensures
        is_valid_decimal(memory@) ==> (r matches Ok(rep) && rep@ == report_of(
            cpu@,
            memory@,
            disk@,
        )),
        !is_valid_decimal(memory@) ==> r == Err::<UtilizationReport, ReportError>(
            ReportError::MemoryNotNumeric,
        ),
{
    match format_two_decimals(memory) {
        Some(m) => {
            let rep = UtilizationReport {
                cpu: cpu.concat("%"),
                memory: m.concat("%"),
                disk,
            };
            Ok(rep)
        },
        None => Err(ReportError::MemoryNotNumeric),
    }
}

} // verus!
