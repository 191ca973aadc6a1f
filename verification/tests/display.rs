use system_monitor::display::{LoopState, ReportLoop, TickAction};
use system_monitor::rank::SortOrder;
use system_monitor::snapshot::{MetricsSnapshot, ProcessInfo};
use system_monitor::usage::CpuUsage;

const SECOND: u64 = 1_000_000_000;
const MIB: u64 = 1024 * 1024;

fn process(pid: u32, name: &str, cpu: f32, memory_bytes: u64) -> ProcessInfo {
    ProcessInfo {
        pid,
        name: String::from(name),
        cpu_usage: CpuUsage::from_bits(cpu.to_bits()),
        memory_bytes,
    }
}

fn snapshot() -> MetricsSnapshot {
    MetricsSnapshot {
        memory_used_bytes: 2_147_483_648,
        memory_total_bytes: 4_294_967_296,
        swap_used_bytes: 0,
        swap_total_bytes: 1_073_741_824,
        cpu_usage: CpuUsage::from_bits(37.25f32.to_bits()),
        processes: vec![
            process(1, "alpha", 50.0, 200 * MIB),
            process(2, "beta", 90.0, 50 * MIB),
            process(3, "gamma", 50.0, 50 * MIB),
        ],
    }
}

fn other_snapshot() -> MetricsSnapshot {
    MetricsSnapshot {
        memory_used_bytes: 3 * MIB,
        memory_total_bytes: 8 * MIB,
        swap_used_bytes: MIB,
        swap_total_bytes: 2 * MIB,
        cpu_usage: CpuUsage::from_bits(1.0f32.to_bits()),
        processes: vec![process(9, "omega", 1.0, MIB)],
    }
}

fn pids(list: &Vec<ProcessInfo>) -> Vec<u32> {
    let mut out = Vec::new();
    for p in list {
        out.push(p.pid);
    }
    out
}

#[test]
fn new_loop_displays_by_cpu() {
    let report_loop = ReportLoop::new(snapshot(), 0);
    assert_eq!(report_loop.current_state(), LoopState::Displaying);
    assert_eq!(report_loop.sort_order(), SortOrder::ByCpu);
    assert_eq!(report_loop.last_acquired(), Some(0));
    assert_eq!(pids(&report_loop.ranked()), vec![2, 1, 3]);
}

#[test]
fn one_acquisition_in_three_ticks() {
    let mut report_loop = ReportLoop::new(snapshot(), 0);
    assert_eq!(report_loop.tick(0), TickAction::Reuse);
    assert_eq!(report_loop.tick(SECOND / 2), TickAction::Reuse);
    assert_eq!(report_loop.tick(SECOND + SECOND / 5), TickAction::Acquire);
    assert_eq!(report_loop.last_acquired(), Some(SECOND + SECOND / 5));
    assert_eq!(report_loop.tick(2 * SECOND), TickAction::Reuse);
}

#[test]
fn idle_loop_asks_for_a_snapshot_at_once() {
    let mut report_loop = ReportLoop::idle();
    assert_eq!(report_loop.current_state(), LoopState::Idle);
    assert!(report_loop.frame().is_none());
    assert!(report_loop.ranked().is_empty());
    assert_eq!(report_loop.tick(0), TickAction::Acquire);
    report_loop.install(snapshot());
    assert_eq!(report_loop.current_state(), LoopState::Displaying);
    assert_eq!(report_loop.tick(1), TickAction::Reuse);
    assert!(report_loop.frame().is_some());
}

#[test]
fn install_replaces_the_snapshot_whole() {
    let mut report_loop = ReportLoop::new(snapshot(), 0);
    report_loop.select_order(SortOrder::ByMemory);
    report_loop.install(other_snapshot());
    assert_eq!(report_loop.sort_order(), SortOrder::ByMemory);
    assert_eq!(report_loop.last_acquired(), Some(0));
    let frame = report_loop.frame().unwrap();
    assert_eq!(frame.memory_line, "Memory: 3/8 MB");
    assert_eq!(frame.swap_line, "Swap: 1/2 MB");
    assert_eq!(frame.cpu_line, "CPU Usage: 1.0%");
    assert_eq!(
        frame.process_lines,
        vec![String::from("PID: 9 | Name: omega | CPU: 1.0% | Mem: 1 MB")]
    );
}

#[test]
fn frame_shows_metrics_and_ranked_processes() {
    let report_loop = ReportLoop::new(snapshot(), 0);
    let frame = report_loop.frame().unwrap();
    assert_eq!(frame.memory_line, "Memory: 2048/4096 MB");
    assert_eq!(frame.swap_line, "Swap: 0/1024 MB");
    assert_eq!(frame.cpu_line, "CPU Usage: 37.2%");
    assert_eq!(frame.sort_order, SortOrder::ByCpu);
    assert_eq!(
        frame.process_lines,
        vec![
            String::from("PID: 2 | Name: beta | CPU: 90.0% | Mem: 50 MB"),
            String::from("PID: 1 | Name: alpha | CPU: 50.0% | Mem: 200 MB"),
            String::from("PID: 3 | Name: gamma | CPU: 50.0% | Mem: 50 MB"),
        ]
    );
}

#[test]
fn selecting_memory_reorders_the_frame() {
    let mut report_loop = ReportLoop::new(snapshot(), 0);
    report_loop.select_order(SortOrder::ByMemory);
    assert_eq!(report_loop.sort_order(), SortOrder::ByMemory);
    assert_eq!(pids(&report_loop.ranked()), vec![1, 2, 3]);
    let frame = report_loop.frame().unwrap();
    assert_eq!(frame.sort_order, SortOrder::ByMemory);
    assert_eq!(
        frame.process_lines[0],
        "PID: 1 | Name: alpha | CPU: 50.0% | Mem: 200 MB"
    );
}

#[test]
fn cpu_memory_cpu_shows_the_first_ranking_again() {
    let mut report_loop = ReportLoop::new(snapshot(), 0);
    let first = report_loop.frame().unwrap().process_lines;
    report_loop.select_order(SortOrder::ByMemory);
    let between = report_loop.frame().unwrap().process_lines;
    report_loop.select_order(SortOrder::ByCpu);
    let last = report_loop.frame().unwrap().process_lines;
    assert_ne!(between, first);
    assert_eq!(last, first);
}

#[test]
fn a_tick_changes_neither_order_nor_snapshot() {
    let mut report_loop = ReportLoop::new(snapshot(), 0);
    report_loop.select_order(SortOrder::ByMemory);
    let before = report_loop.frame().unwrap().process_lines;
    assert_eq!(report_loop.tick(5 * SECOND), TickAction::Acquire);
    assert_eq!(report_loop.sort_order(), SortOrder::ByMemory);
    assert_eq!(report_loop.frame().unwrap().process_lines, before);
}
