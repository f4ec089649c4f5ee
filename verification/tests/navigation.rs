use pane::navigation::{ControlRow, Panel, SortColumn};

#[test]
fn panel_cycle_visits_every_panel_once() {
    let mut seen = Vec::new();
    let mut p = Panel::Dashboard;
    for _ in 0..10 {
        seen.push(p);
        p = p.next();
    }
    assert_eq!(p, Panel::Dashboard, "cycle should close");
    seen.sort_by_key(|p| p.label());
    seen.dedup_by_key(|p| p.label());
    assert_eq!(seen.len(), 10, "every panel should appear exactly once");
}

#[test]
fn sort_column_cycle_closes() {
    let mut c = SortColumn::Pid;
    for _ in 0..6 {
        c = c.next();
    }
    assert_eq!(c, SortColumn::Pid);
}

#[test]
fn control_row_next_and_prev_are_inverses() {
    for row in [
        ControlRow::FanSpeed,
        ControlRow::PowerLimit,
        ControlRow::CoreClock,
        ControlRow::MemClock,
    ] {
        assert_eq!(row.next().prev(), row);
    }
}

#[test]
fn control_row_prev_then_next_is_identity() {
    for row in [
        ControlRow::FanSpeed,
        ControlRow::PowerLimit,
        ControlRow::CoreClock,
        ControlRow::MemClock,
    ] {
        assert_eq!(row.prev().next(), row);
    }
}

#[test]
fn panel_order_and_labels() {
    assert_eq!(Panel::Dashboard.next(), Panel::Gpu);
    assert_eq!(Panel::Snapshot.next(), Panel::Dashboard);
    assert_eq!(Panel::GpuControl.label(), "GPU Ctrl");
    assert_eq!(Panel::VramCalc.label(), "VRAM Calc");
    assert_eq!(Panel::Dashboard.label(), "Dashboard");
}

#[test]
fn sort_column_order() {
    assert_eq!(SortColumn::Pid.next(), SortColumn::Name);
    assert_eq!(SortColumn::GpuVram.next(), SortColumn::Pid);
    let mut c = SortColumn::Cpu;
    for _ in 0..5 {
        c = c.next();
        assert_ne!(c, SortColumn::Cpu);
    }
}
