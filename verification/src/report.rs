//! The text of the monitor's reports.
//!
//! The batch report is five lines: a title, a rule, and one line each for
//! memory, swap and CPU. The interactive display shows the same three
//! metric lines and one line for each process.

use vstd::prelude::*;
use vstd::string::*;
use crate::snapshot::{MetricsSnapshot, ProcessInfo};
use crate::text::{append_decimal, decimal_digits};
use crate::units::{bytes_to_mebibytes, mebibytes};
use crate::usage::{format_percent, CpuUsage};

verus! {

/// "`used`/`total` MB", both counts in whole mebibytes.
pub open spec fn usage_pair_text(used_bytes: u64, total_bytes: u64) -> Seq<char> {
    decimal_digits(mebibytes(used_bytes as int) as nat) + "/"@ + decimal_digits(
        mebibytes(total_bytes as int) as nat,
    ) + " MB"@
}

/// The memory line of a report.
pub open spec fn memory_line_text(used_bytes: u64, total_bytes: u64) -> Seq<char> {
    "Memory: "@ + usage_pair_text(used_bytes, total_bytes)
}

/// The swap line of a report.
pub open spec fn swap_line_text(used_bytes: u64, total_bytes: u64) -> Seq<char> {
    "Swap: "@ + usage_pair_text(used_bytes, total_bytes)
}

/// The CPU line of a report.
pub open spec fn cpu_line_text(usage: CpuUsage) -> Seq<char> {
    "CPU Usage: "@ + usage.text() + "%"@
}

/// The line that the display shows for one process.
pub open spec fn process_line_text(process: ProcessInfo) -> Seq<char> {
    "PID: "@ + decimal_digits(process.pid as nat) + " | Name: "@ + process.name@ + " | CPU: "@
        + process.cpu_usage.text() + "% | Mem: "@ + decimal_digits(
        mebibytes(process.memory_bytes as int) as nat,
    ) + " MB"@
}

/// The whole batch report: each of its five lines, ended by a line feed.
pub open spec fn batch_report_text(snapshot: MetricsSnapshot) -> Seq<char> {
    "System Monitoring Tool\n"@ + "----------------------\n"@ + memory_line_text(
        snapshot.memory_used_bytes,
        snapshot.memory_total_bytes,
    ) + "\n"@ + swap_line_text(snapshot.swap_used_bytes, snapshot.swap_total_bytes) + "\n"@
        + cpu_line_text(snapshot.cpu_usage) + "\n"@
}

/// The title that heads a report.
pub fn title() -> (text: &'static str)
    ensures
        text@ == "System Monitoring Tool"@,
{
    "System Monitoring Tool"
}

fn append_usage_pair(text: &mut String, used_bytes: u64, total_bytes: u64)
    ensures
        final(text)@ == old(text)@ + usage_pair_text(used_bytes, total_bytes),
{
    append_decimal(text, bytes_to_mebibytes(used_bytes) as u128);
    text.append("/");
    append_decimal(text, bytes_to_mebibytes(total_bytes) as u128);
    text.append(" MB");
    assert(text@ =~= old(text)@ + usage_pair_text(used_bytes, total_bytes));
}

/// Writes the memory line: used and total memory in whole mebibytes.
pub fn memory_line(used_bytes: u64, total_bytes: u64) -> (line: String)
    ensures
        line@ == memory_line_text(used_bytes, total_bytes),
{
    let mut line = String::from_str("Memory: ");
    append_usage_pair(&mut line, used_bytes, total_bytes);
    line
}

/// Writes the swap line: used and total swap in whole mebibytes.
pub fn swap_line(used_bytes: u64, total_bytes: u64) -> (line: String)
    ensures
        line@ == swap_line_text(used_bytes, total_bytes),
{
    let mut line = String::from_str("Swap: ");
    append_usage_pair(&mut line, used_bytes, total_bytes);
    line
}

/// Writes the CPU line: utilisation with one decimal place.
pub fn cpu_line(usage: CpuUsage) -> (line: String)
    ensures
        line@ == cpu_line_text(usage),
{
    let mut line = String::from_str("CPU Usage: ");
    let percent = format_percent(usage);
    line.append(percent.as_str());
    line.append("%");
    line
}

/// Writes the line of one process: identifier, name, CPU utilisation with one
/// decimal place and resident memory in whole mebibytes.
pub fn process_line(process: &ProcessInfo) -> (line: String)
    ensures
        line@ == process_line_text(*process),
{
    let mut line = String::from_str("PID: ");
    append_decimal(&mut line, process.pid as u128);
    line.append(" | Name: ");
    line.append(process.name.as_str());
    line.append(" | CPU: ");
    let percent = format_percent(process.cpu_usage);
    line.append(percent.as_str());
    line.append("% | Mem: ");
    append_decimal(&mut line, bytes_to_mebibytes(process.memory_bytes) as u128);
    line.append(" MB");
    line
}

/// Writes the batch report of `snapshot`: title, rule, memory, swap and CPU,
/// in this order, one to a line. Processes are not listed.
pub fn batch_report(snapshot: &MetricsSnapshot) -> (report: String)
    ensures
        report@ == batch_report_text(*snapshot),
{
    let mut report = String::from_str("System Monitoring Tool\n");
    report.append("----------------------\n");
    let memory = memory_line(snapshot.memory_used_bytes, snapshot.memory_total_bytes);
    report.append(memory.as_str());
    report.append("\n");
    let swap = swap_line(snapshot.swap_used_bytes, snapshot.swap_total_bytes);
    report.append(swap.as_str());
    report.append("\n");
    let cpu = cpu_line(snapshot.cpu_usage);
    report.append(cpu.as_str());
    report.append("\n");
    report
}

} // verus!
