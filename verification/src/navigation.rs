//! The user-interface cycles: panels, process-table sort columns and the
//! rows of the GPU control panel.

use vstd::prelude::*;

verus! {

/// UI panels; `Dashboard` is the default overview, the others are detail views.
#[derive(Debug, Clone, Copy, PartialEq, Eq, Structural)]
pub enum Panel {
    Dashboard,
    Gpu,
    Cpu,
    Memory,
    Disk,
    Network,
    Processes,
    GpuControl,
    VramCalc,
    Snapshot,
}

/// The position of a panel in the navigation order.
pub open spec fn panel_index(p: Panel) -> int {
    match p {
        Panel::Dashboard => 0,
        Panel::Gpu => 1,
        Panel::Cpu => 2,
        Panel::Memory => 3,
        Panel::Disk => 4,
        Panel::Network => 5,
        Panel::Processes => 6,
        Panel::GpuControl => 7,
        Panel::VramCalc => 8,
        Panel::Snapshot => 9,
    }
}

/// The panel at a position of the navigation order (taken modulo 10).
pub open spec fn panel_at(i: int) -> Panel {
    let k = i % 10;
    if k == 0 {
        Panel::Dashboard
    } else if k == 1 {
        Panel::Gpu
    } else if k == 2 {
        Panel::Cpu
    } else if k == 3 {
        Panel::Memory
    } else if k == 4 {
        Panel::Disk
    } else if k == 5 {
        Panel::Network
    } else if k == 6 {
        Panel::Processes
    } else if k == 7 {
        Panel::GpuControl
    } else if k == 8 {
        Panel::VramCalc
    } else {
        Panel::Snapshot
    }
}

/// The text shown for a panel in the sidebar.
pub open spec fn panel_label(p: Panel) -> Seq<char> {
    match p {
        Panel::Dashboard => "Dashboard"@,
        Panel::Gpu => "GPU"@,
        Panel::Cpu => "CPU"@,
        Panel::Memory => "Memory"@,
        Panel::Disk => "Disk"@,
        Panel::Network => "Network"@,
        Panel::Processes => "Processes"@,
        Panel::GpuControl => "GPU Ctrl"@,
        Panel::VramCalc => "VRAM Calc"@,
        Panel::Snapshot => "Snapshot"@,
    }
}

impl Panel {
    /// The next panel in the navigation order; the last one wraps to the first.
    pub fn next(self) -> (r: Self)
        ensures
            r == panel_at(panel_index(self) + 1),
    {
        match self {
            Panel::Dashboard => Panel::Gpu,
            Panel::Gpu => Panel::Cpu,
            Panel::Cpu => Panel::Memory,
            Panel::Memory => Panel::Disk,
            Panel::Disk => Panel::Network,
            Panel::Network => Panel::Processes,
            Panel::Processes => Panel::GpuControl,
            Panel::GpuControl => Panel::VramCalc,
            Panel::VramCalc => Panel::Snapshot,
            Panel::Snapshot => Panel::Dashboard,
        }
    }

    /// The panel's label.
    pub fn label(self) -> (r: &'static str)
        ensures
            r@ == panel_label(self),
    {
        match self {
            Panel::Dashboard => "Dashboard",
            Panel::Gpu => "GPU",
            Panel::Cpu => "CPU",
            Panel::Memory => "Memory",
            Panel::Disk => "Disk",
            Panel::Network => "Network",
            Panel::Processes => "Processes",
            Panel::GpuControl => "GPU Ctrl",
            Panel::VramCalc => "VRAM Calc",
            Panel::Snapshot => "Snapshot",
        }
    }
}


/// Each sidebar entry names its own panel, spelled out character by
/// character: the CPU panel reads "CPU", the memory panel "Memory", and so on.
pub proof fn lemma_panel_labels_name_their_panels()
    ensures
        panel_label(Panel::Dashboard) == seq!['D', 'a', 's', 'h', 'b', 'o', 'a', 'r', 'd'],
        panel_label(Panel::Gpu) == seq!['G', 'P', 'U'],
        panel_label(Panel::Cpu) == seq!['C', 'P', 'U'],
        panel_label(Panel::Memory) == seq!['M', 'e', 'm', 'o', 'r', 'y'],
        panel_label(Panel::Disk) == seq!['D', 'i', 's', 'k'],
        panel_label(Panel::Network) == seq!['N', 'e', 't', 'w', 'o', 'r', 'k'],
        panel_label(Panel::Processes) == seq!['P', 'r', 'o', 'c', 'e', 's', 's', 'e', 's'],
        panel_label(Panel::GpuControl) == seq!['G', 'P', 'U', ' ', 'C', 't', 'r', 'l'],
        panel_label(Panel::VramCalc) == seq!['V', 'R', 'A', 'M', ' ', 'C', 'a', 'l', 'c'],
        panel_label(Panel::Snapshot) == seq!['S', 'n', 'a', 'p', 's', 'h', 'o', 't'],
{
    reveal_strlit("Dashboard");
    reveal_strlit("GPU");
    reveal_strlit("CPU");
    reveal_strlit("Memory");
    reveal_strlit("Disk");
    reveal_strlit("Network");
    reveal_strlit("Processes");
    reveal_strlit("GPU Ctrl");
    reveal_strlit("VRAM Calc");
    reveal_strlit("Snapshot");
}

/// The sidebar order, top to bottom: Dashboard, GPU, CPU, Memory, Disk,
/// Network, Processes, GPU Ctrl, VRAM Calc, Snapshot, then back to Dashboard.
/// `Panel::next` moves one step down this order.
pub proof fn lemma_panel_order()
    ensures
        panel_at(panel_index(Panel::Dashboard) + 1) == Panel::Gpu,
        panel_at(panel_index(Panel::Gpu) + 1) == Panel::Cpu,
        panel_at(panel_index(Panel::Cpu) + 1) == Panel::Memory,
        panel_at(panel_index(Panel::Memory) + 1) == Panel::Disk,
        panel_at(panel_index(Panel::Disk) + 1) == Panel::Network,
        panel_at(panel_index(Panel::Network) + 1) == Panel::Processes,
        panel_at(panel_index(Panel::Processes) + 1) == Panel::GpuControl,
        panel_at(panel_index(Panel::GpuControl) + 1) == Panel::VramCalc,
        panel_at(panel_index(Panel::VramCalc) + 1) == Panel::Snapshot,
        panel_at(panel_index(Panel::Snapshot) + 1) == Panel::Dashboard,
{
}

/// `n` steps of `Panel::next` from `p`.
#[verifier::opaque]
pub open spec fn panel_steps(p: Panel, n: nat) -> Panel
    decreases n,
{
    if n == 0 {
        p
    } else {
        let q = panel_steps(p, (n - 1) as nat);
        panel_at(panel_index(q) + 1)
    }
}

proof fn lemma_panel_at_index(p: Panel)
    ensures
        panel_at(panel_index(p)) == p,
        0 <= panel_index(p) < 10,
{
}

proof fn lemma_panel_index_at(i: int)
    requires
        0 <= i,
    ensures
        panel_index(panel_at(i)) == i % 10,
{
}

proof fn lemma_panel_steps(p: Panel, n: nat)
    ensures
        panel_steps(p, n) == panel_at(panel_index(p) + n),
    decreases n,
{
    reveal(panel_steps);
    if n > 0 {
        lemma_panel_steps(p, (n - 1) as nat);
        let i = panel_index(p) + n - 1;
        lemma_panel_index_at(i);
        assert((i % 10 + 1) % 10 == (i + 1) % 10);
    } else {
        lemma_panel_at_index(p);
    }
}

proof fn lemma_panel_steps_index(p: Panel, i: nat)
    ensures
        panel_index(panel_steps(p, i)) == (panel_index(p) + i) % 10,
{
    lemma_panel_steps(p, i);
    lemma_panel_at_index(p);
    lemma_panel_index_at(panel_index(p) + i);
}

proof fn lemma_panel_steps_distinct(p: Panel, i: nat, j: nat)
    requires
        i < j < 10,
    ensures
        panel_steps(p, i) != panel_steps(p, j),
        panel_label(panel_steps(p, i)) != panel_label(panel_steps(p, j)),
{
    lemma_panel_steps_index(p, i);
    lemma_panel_steps_index(p, j);
    lemma_panel_at_index(p);
    let a = panel_index(p) + i;
    let b = panel_index(p) + j;
    assert(a % 10 != b % 10) by (nonlinear_arith)
        requires
            0 <= a < b < a + 10,
    ;
    lemma_panel_labels_distinct(panel_steps(p, i), panel_steps(p, j));
}

/// How many steps of `Panel::next` lead from `p` to `q`.
pub open spec fn panel_distance(p: Panel, q: Panel) -> nat {
    ((panel_index(q) - panel_index(p) + 10) % 10) as nat
}

proof fn lemma_panel_steps_reach(p: Panel, q: Panel)
    ensures
        panel_steps(p, panel_distance(p, q)) == q,
        panel_distance(p, q) < 10,
{
    lemma_panel_at_index(p);
    lemma_panel_at_index(q);
    let i: int = (panel_index(q) - panel_index(p) + 10) % 10;
    lemma_panel_steps(p, i as nat);
    assert((panel_index(p) + i) % 10 == panel_index(q));
}

proof fn lemma_panel_steps_closes(p: Panel)
    ensures
        panel_steps(p, 10) == p,
{
    lemma_panel_steps(p, 10);
    lemma_panel_at_index(p);
    assert((panel_index(p) + 10) % 10 == panel_index(p));
}

/// Pressing "next panel" ten times from any panel returns to it, and the
/// ten panels passed on the way are pairwise distinct and carry pairwise
/// distinct labels: the cycle visits every panel exactly once.
pub proof fn lemma_panel_cycle_visits_every_panel_once(p: Panel)
    ensures
        panel_steps(p, 10) == p,
        forall|i: nat, j: nat|
            i < j < 10 ==> panel_steps(p, i) != panel_steps(p, j) && panel_label(
                panel_steps(p, i),
            ) != panel_label(panel_steps(p, j)),
        forall|q: Panel|
            #![trigger panel_index(q)]
            panel_steps(p, panel_distance(p, q)) == q && panel_distance(p, q) < 10,
{
    lemma_panel_steps_closes(p);
    assert forall|i: nat, j: nat| i < j < 10 implies panel_steps(p, i) != panel_steps(p, j)
        && panel_label(panel_steps(p, i)) != panel_label(panel_steps(p, j)) by {
        lemma_panel_steps_distinct(p, i, j);
    }
    assert forall|q: Panel|
        #![trigger panel_index(q)]
        panel_steps(p, panel_distance(p, q)) == q && panel_distance(p, q) < 10 by {
        lemma_panel_steps_reach(p, q);
    }
}

/// Distinct panels carry distinct labels.
pub proof fn lemma_panel_labels_distinct(p: Panel, q: Panel)
    ensures
        p != q ==> panel_label(p) != panel_label(q),
{
    reveal_strlit("Dashboard");
    reveal_strlit("GPU");
    reveal_strlit("CPU");
    reveal_strlit("Memory");
    reveal_strlit("Disk");
    reveal_strlit("Network");
    reveal_strlit("Processes");
    reveal_strlit("GPU Ctrl");
    reveal_strlit("VRAM Calc");
    reveal_strlit("Snapshot");
    if p != q {
        let a = panel_label(p);
        let b = panel_label(q);
        if a.len() == b.len() {
            assert(a[0] != b[0] || a[1] != b[1] || a[a.len() - 1] != b[b.len() - 1]);
        }
    }
}

/// Which control row is selected in the GPU Control panel.
#[derive(Debug, Clone, Copy, PartialEq, Eq, Structural)]
pub enum ControlRow {
    FanSpeed,
    PowerLimit,
    CoreClock,
    MemClock,
}

/// The position of a control row, top to bottom.
pub open spec fn control_row_index(r: ControlRow) -> int {
    match r {
        ControlRow::FanSpeed => 0,
        ControlRow::PowerLimit => 1,
        ControlRow::CoreClock => 2,
        ControlRow::MemClock => 3,
    }
}

/// The control row at a position (taken modulo 4).
pub open spec fn control_row_at(i: int) -> ControlRow {
    let k = i % 4;
    if k == 0 {
        ControlRow::FanSpeed
    } else if k == 1 {
        ControlRow::PowerLimit
    } else if k == 2 {
        ControlRow::CoreClock
    } else {
        ControlRow::MemClock
    }
}

impl ControlRow {
    /// The row below, wrapping from the last row to the first.
    pub fn next(self) -> (r: Self)
        ensures
            r == control_row_at(control_row_index(self) + 1),
    {
        match self {
            ControlRow::FanSpeed => ControlRow::PowerLimit,
            ControlRow::PowerLimit => ControlRow::CoreClock,
            ControlRow::CoreClock => ControlRow::MemClock,
            ControlRow::MemClock => ControlRow::FanSpeed,
        }
    }

    /// The row above, wrapping from the first row to the last.
    pub fn prev(self) -> (r: Self)
        ensures
            r == control_row_at(control_row_index(self) + 3),
    {
        match self {
            ControlRow::FanSpeed => ControlRow::MemClock,
            ControlRow::PowerLimit => ControlRow::FanSpeed,
            ControlRow::CoreClock => ControlRow::PowerLimit,
            ControlRow::MemClock => ControlRow::CoreClock,
        }
    }
}

/// `ControlRow::next` and `ControlRow::prev` undo each other, in either order.
pub proof fn lemma_control_row_next_prev_inverse(r: ControlRow)
    ensures
        control_row_at(control_row_index(control_row_at(control_row_index(r) + 1)) + 3) == r,
        control_row_at(control_row_index(control_row_at(control_row_index(r) + 3)) + 1) == r,
{
}

/// The GPU Control rows, top to bottom: Fan Speed, Power Limit, Core Clock,
/// Memory Clock. `ControlRow::next` moves to the row directly below (from the
/// last row back to the first) and `ControlRow::prev` to the row directly
/// above (from the first row to the last).
pub proof fn lemma_control_row_order()
    ensures
        control_row_at(control_row_index(ControlRow::FanSpeed) + 1) == ControlRow::PowerLimit,
        control_row_at(control_row_index(ControlRow::PowerLimit) + 1) == ControlRow::CoreClock,
        control_row_at(control_row_index(ControlRow::CoreClock) + 1) == ControlRow::MemClock,
        control_row_at(control_row_index(ControlRow::MemClock) + 1) == ControlRow::FanSpeed,
        control_row_at(control_row_index(ControlRow::FanSpeed) + 3) == ControlRow::MemClock,
        control_row_at(control_row_index(ControlRow::PowerLimit) + 3) == ControlRow::FanSpeed,
        control_row_at(control_row_index(ControlRow::CoreClock) + 3) == ControlRow::PowerLimit,
        control_row_at(control_row_index(ControlRow::MemClock) + 3) == ControlRow::CoreClock,
{
}

/// Process-table sort columns.
#[derive(Debug, Clone, Copy, PartialEq, Eq, Structural)]
pub enum SortColumn {
    Pid,
    Name,
    Cpu,
    Memory,
    GpuUtil,
    GpuVram,
}

/// The position of a sort column in the cycle.
pub open spec fn sort_column_index(c: SortColumn) -> int {
    match c {
        SortColumn::Pid => 0,
        SortColumn::Name => 1,
        SortColumn::Cpu => 2,
        SortColumn::Memory => 3,
        SortColumn::GpuUtil => 4,
        SortColumn::GpuVram => 5,
    }
}

/// The sort column at a position (taken modulo 6).
pub open spec fn sort_column_at(i: int) -> SortColumn {
    let k = i % 6;
    if k == 0 {
        SortColumn::Pid
    } else if k == 1 {
        SortColumn::Name
    } else if k == 2 {
        SortColumn::Cpu
    } else if k == 3 {
        SortColumn::Memory
    } else if k == 4 {
        SortColumn::GpuUtil
    } else {
        SortColumn::GpuVram
    }
}

/// `n` steps of `SortColumn::next` from `c`.
pub open spec fn sort_column_steps(c: SortColumn, n: nat) -> SortColumn
    decreases n,
{
    if n == 0 {
        c
    } else {
        let d = sort_column_steps(c, (n - 1) as nat);
        sort_column_at(sort_column_index(d) + 1)
    }
}

impl SortColumn {
    /// The next sort column, wrapping from the last to the first.
    pub fn next(self) -> (r: Self)
        ensures
            r == sort_column_at(sort_column_index(self) + 1),
    {
        match self {
            SortColumn::Pid => SortColumn::Name,
            SortColumn::Name => SortColumn::Cpu,
            SortColumn::Cpu => SortColumn::Memory,
            SortColumn::Memory => SortColumn::GpuUtil,
            SortColumn::GpuUtil => SortColumn::GpuVram,
            SortColumn::GpuVram => SortColumn::Pid,
        }
    }
}

proof fn lemma_sort_column_steps(c: SortColumn, n: nat)
    ensures
        sort_column_steps(c, n) == sort_column_at(sort_column_index(c) + n),
    decreases n,
{
    if n > 0 {
        lemma_sort_column_steps(c, (n - 1) as nat);
        let i = sort_column_index(c) + n - 1;
        assert(sort_column_index(sort_column_at(i)) == i % 6);
        assert((i % 6 + 1) % 6 == (i + 1) % 6);
    }
}

/// Cycling the sort column six times returns to the starting column, and no
/// fewer steps do.
pub proof fn lemma_sort_column_cycle_closes(c: SortColumn)
    ensures
        sort_column_steps(c, 6) == c,
        forall|n: nat| 0 < n < 6 ==> #[trigger] sort_column_steps(c, n) != c,
{
    lemma_sort_column_steps(c, 6);
    assert((sort_column_index(c) + 6) % 6 == sort_column_index(c));
    assert forall|n: nat| 0 < n < 6 implies #[trigger] sort_column_steps(c, n) != c by {
        lemma_sort_column_steps(c, n);
        assert(sort_column_index(sort_column_at(sort_column_index(c) + n)) == (sort_column_index(c)
            + n) % 6);
    }
}

/// The sort-column cycle: PID, name, CPU, memory, GPU utilization, VRAM,
/// then back to PID. `SortColumn::next` moves one step along it.
pub proof fn lemma_sort_column_order()
    ensures
        sort_column_at(sort_column_index(SortColumn::Pid) + 1) == SortColumn::Name,
        sort_column_at(sort_column_index(SortColumn::Name) + 1) == SortColumn::Cpu,
        sort_column_at(sort_column_index(SortColumn::Cpu) + 1) == SortColumn::Memory,
        sort_column_at(sort_column_index(SortColumn::Memory) + 1) == SortColumn::GpuUtil,
        sort_column_at(sort_column_index(SortColumn::GpuUtil) + 1) == SortColumn::GpuVram,
        sort_column_at(sort_column_index(SortColumn::GpuVram) + 1) == SortColumn::Pid,
{
}

} // verus!
