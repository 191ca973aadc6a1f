use system_monitor::report::{
    batch_report, cpu_line, memory_line, process_line, swap_line, title,
};
use system_monitor::snapshot::{MetricsSnapshot, ProcessInfo};
use system_monitor::usage::CpuUsage;

fn usage(percent: f32) -> CpuUsage {
    CpuUsage::from_bits(percent.to_bits())
}

fn snapshot() -> MetricsSnapshot {
    MetricsSnapshot {
        memory_used_bytes: 2_147_483_648,
        memory_total_bytes: 4_294_967_296,
        swap_used_bytes: 1_572_864,
        swap_total_bytes: 1_073_741_824,
        cpu_usage: usage(12.345),
        processes: vec![ProcessInfo {
            pid: 1,
            name: String::from("init"),
            cpu_usage: usage(0.5),
            memory_bytes: 3 * 1024 * 1024,
        }],
    }
}

#[test]
fn memory_line_of_two_of_four_gibibytes() {
    assert_eq!(memory_line(2_147_483_648, 4_294_967_296), "Memory: 2048/4096 MB");
}

#[test]
fn batch_report_holds_the_memory_line() {
    let report = batch_report(&snapshot());
    let lines: Vec<&str> = report.lines().collect();
    assert_eq!(lines[2], "Memory: 2048/4096 MB");
}

#[test]
fn batch_report_is_five_lines_in_order() {
    assert_eq!(
        batch_report(&snapshot()),
        "System Monitoring Tool\n\
         ----------------------\n\
         Memory: 2048/4096 MB\n\
         Swap: 1/1024 MB\n\
         CPU Usage: 12.3%\n"
    );
}

#[test]
fn batch_report_lists_no_process() {
    assert!(!batch_report(&snapshot()).contains("init"));
}

#[test]
fn unsupported_platform_reads_zero_of_zero() {
    assert_eq!(memory_line(0, 0), "Memory: 0/0 MB");
    assert_eq!(swap_line(0, 0), "Swap: 0/0 MB");
}

#[test]
fn used_may_exceed_total() {
    assert_eq!(swap_line(3 * 1_048_576, 1_048_576), "Swap: 3/1 MB");
}

#[test]
fn swap_line_truncates() {
    assert_eq!(swap_line(1_572_864, 2_097_151), "Swap: 1/1 MB");
}

#[test]
fn cpu_line_has_one_decimal() {
    assert_eq!(cpu_line(usage(0.0)), "CPU Usage: 0.0%");
    assert_eq!(cpu_line(usage(12.345)), "CPU Usage: 12.3%");
    assert_eq!(cpu_line(usage(100.0)), "CPU Usage: 100.0%");
    assert_eq!(cpu_line(usage(f32::NAN)), "CPU Usage: NaN%");
}

#[test]
fn process_line_shows_pid_name_cpu_and_memory() {
    let process = ProcessInfo {
        pid: 4321,
        name: String::from("verus"),
        cpu_usage: usage(87.66),
        memory_bytes: 200 * 1024 * 1024 + 5,
    };
    assert_eq!(
        process_line(&process),
        "PID: 4321 | Name: verus | CPU: 87.7% | Mem: 200 MB"
    );
}

#[test]
fn process_line_keeps_any_name() {
    let process = ProcessInfo {
        pid: 0,
        name: String::from("kworker/0:1 | é"),
        cpu_usage: usage(0.0),
        memory_bytes: 0,
    };
    assert_eq!(
        process_line(&process),
        "PID: 0 | Name: kworker/0:1 | é | CPU: 0.0% | Mem: 0 MB"
    );
}

#[test]
fn title_is_fixed() {
    assert_eq!(title(), "System Monitoring Tool");
}
