//! The process table of one GPU, merged from NVML's graphics and compute
//! process lists.

use vstd::prelude::*;

verus! {

/// Which NVML list a process came from.
#[derive(Debug, Clone, Copy, PartialEq, Eq, Structural)]
pub enum GpuProcessKind {
    Graphics,
    Compute,
}

/// A process using a GPU: PID, name, kind and VRAM.
#[derive(Debug, Clone)]
pub struct GpuProcessInfo {
    pub pid: u32,
    pub name: String,
    pub used_gpu_memory: u64,
    pub kind: GpuProcessKind,
}

/// `pid` has an entry in `s`.
pub open spec fn lists_pid(s: Seq<(u32, u64)>, pid: u32) -> bool {
    exists|i: int| 0 <= i < s.len() && #[trigger] s[i].0 == pid
}

/// The sum of the memory of every entry of `pid` in `s`.
pub open spec fn pid_memory(s: Seq<(u32, u64)>, pid: u32) -> nat
    decreases s.len(),
{
    if s.len() == 0 {
        0
    } else {
        pid_memory(s.drop_last(), pid) + if s.last().0 == pid {
            s.last().1 as nat
        } else {
            0
        }
    }
}

/// `n`, clamped at `u64::MAX`.
pub open spec fn clamp_u64(n: nat) -> u64 {
    if n > u64::MAX {
        u64::MAX
    } else {
        n as u64
    }
}

/// The merged memory of `pid`: all its entries in both lists summed,
/// clamped at `u64::MAX`.
pub open spec fn merged_memory(graphics: Seq<(u32, u64)>, compute: Seq<(u32, u64)>, pid: u32) -> u64 {
    clamp_u64(pid_memory(graphics + compute, pid))
}

/// The merged kind of `pid`: `Graphics` when the graphics list has it.
pub open spec fn merged_kind(graphics: Seq<(u32, u64)>, pid: u32) -> GpuProcessKind {
    if lists_pid(graphics, pid) {
        GpuProcessKind::Graphics
    } else {
        GpuProcessKind::Compute
    }
}

/// `a` comes before `b` in the table: more VRAM first, then lower PID.
pub open spec fn table_before(a: GpuProcessInfo, b: GpuProcessInfo) -> bool {
    a.used_gpu_memory > b.used_gpu_memory || (a.used_gpu_memory == b.used_gpu_memory && a.pid
        < b.pid)
}

/// One row of the merged table, as the merge defines it.
pub open spec fn merged_row<F: Fn(u32) -> String>(
    graphics: Seq<(u32, u64)>,
    compute: Seq<(u32, u64)>,
    resolve_name: F,
    row: GpuProcessInfo,
) -> bool {
    &&& lists_pid(graphics + compute, row.pid)
    &&& row.used_gpu_memory == merged_memory(graphics, compute, row.pid)
    &&& row.kind == merged_kind(graphics, row.pid)
    &&& resolve_name.ensures((row.pid,), row.name)
}

/// A row's kind depends only on which lists hold its PID, never on the
/// memory NVML reports (which is 0 when the driver does not report it): a
/// row is `Graphics` exactly when some entry of the graphics list has its
/// PID, and `Compute` exactly when only the compute list has it.
pub proof fn lemma_row_kind_is_list_membership<F: Fn(u32) -> String>(
    graphics: Seq<(u32, u64)>,
    compute: Seq<(u32, u64)>,
    resolve_name: F,
    row: GpuProcessInfo,
)
    requires
        merged_row(graphics, compute, resolve_name, row),
    ensures
        row.kind == GpuProcessKind::Graphics <==> exists|i: int|
            0 <= i < graphics.len() && #[trigger] graphics[i].0 == row.pid,
        row.kind == GpuProcessKind::Compute <==> (!exists|i: int|
            0 <= i < graphics.len() && #[trigger] graphics[i].0 == row.pid) && exists|i: int|
            0 <= i < compute.len() && #[trigger] compute[i].0 == row.pid,
{
    let both = graphics + compute;
    let k = choose|k: int| 0 <= k < both.len() && #[trigger] both[k].0 == row.pid;
    if k >= graphics.len() {
        assert(compute[k - graphics.len()].0 == row.pid);
    } else {
        assert(graphics[k].0 == row.pid);
    }
}

proof fn lemma_pid_memory_push(s: Seq<(u32, u64)>, x: (u32, u64), pid: u32)
    ensures
        pid_memory(s.push(x), pid) == pid_memory(s, pid) + if x.0 == pid {
            x.1 as nat
        } else {
            0
        },
{
    assert(s.push(x).drop_last() =~= s);
}

/// Merge NVML's graphics and compute process lists into one table.
///
/// - A PID present in both lists is reported once, as `Graphics`
///   (the graphics context is the one the user sees on screen).
/// - Duplicate PIDs *within* a list are collapsed, summing memory: NVML can
///   report one entry per context. Sums are clamped at `u64::MAX`.
/// - The result is sorted by VRAM descending, then PID ascending.
/// - Each PID's name is whatever `resolve_name` gives for it.
pub fn merge_processes<F: Fn(u32) -> String>(
    graphics: &[(u32, u64)],
    compute: &[(u32, u64)],
    resolve_name: F,
) -> (r: Vec<GpuProcessInfo>)
    requires
        forall|pid: u32| resolve_name.requires((pid,)),
    ensures
        forall|k: int|
            0 <= k < r@.len() ==> merged_row(graphics@, compute@, resolve_name, #[trigger] r@[k]),
        forall|pid: u32|
            lists_pid(graphics@ + compute@, pid) ==> exists|k: int|
                0 <= k < r@.len() && #[trigger] r@[k].pid == pid,
        rows_sorted(r@),
        forall|i: int, j: int| 0 <= i < j < r@.len() ==> #[trigger] r@[i].pid != #[trigger] r@[j].pid,
{
    let table = collect_rows(graphics, compute, &resolve_name);
    let r = sort_rows(table);
    proof {
        lemma_rows_transfer(table@, r@, graphics@, compute@, resolve_name);
        assert forall|i: int, j: int| 0 <= i < j < r@.len() implies #[trigger] r@[i].pid
            != #[trigger] r@[j].pid by {
            assert(merged_row(graphics@, compute@, resolve_name, r@[i]));
            assert(merged_row(graphics@, compute@, resolve_name, r@[j]));
            assert(table_before(r@[i], r@[j]));
        }
    }
    r
}

proof fn lemma_rows_transfer<F: Fn(u32) -> String>(
    table: Seq<GpuProcessInfo>,
    r: Seq<GpuProcessInfo>,
    graphics: Seq<(u32, u64)>,
    compute: Seq<(u32, u64)>,
    resolve_name: F,
)
    requires
        rows_track(table, graphics + compute, graphics, resolve_name),
        r.to_multiset() == table.to_multiset(),
    ensures
        forall|k: int| 0 <= k < r.len() ==> merged_row(graphics, compute, resolve_name, #[trigger] r[k]),
        forall|pid: u32|
            lists_pid(graphics + compute, pid) ==> exists|k: int| 0 <= k < r.len() && #[trigger] r[k].pid == pid,
{
    broadcast use vstd::seq_lib::group_to_multiset_ensures;

    assert forall|k: int| 0 <= k < r.len() implies merged_row(
        graphics,
        compute,
        resolve_name,
        #[trigger] r[k],
    ) by {
        assert(r.contains(r[k]));
        assert(r.to_multiset().count(r[k]) > 0);
        assert(table.to_multiset().count(r[k]) > 0);
        assert(table.contains(r[k]));
        let q = choose|q: int| 0 <= q < table.len() && #[trigger] table[q] == r[k];
        assert(table[q].pid == r[k].pid);
    }
    assert forall|pid: u32| lists_pid(graphics + compute, pid) implies exists|k: int|
        0 <= k < r.len() && #[trigger] r[k].pid == pid by {
        let q = choose|q: int| 0 <= q < table.len() && #[trigger] table[q].pid == pid;
        assert(table.contains(table[q]));
        assert(table.to_multiset().count(table[q]) > 0);
        assert(r.to_multiset().count(table[q]) > 0);
        assert(r.contains(table[q]));
        let k = choose|k: int| 0 <= k < r.len() && #[trigger] r[k] == table[q];
        assert(r[k].pid == pid);
    }
}

/// The rows built from the entries `seen` of the lists: one per PID, with
/// the PID's clamped memory sum over `seen`, its merged kind and its name.
spec fn rows_track<F: Fn(u32) -> String>(
    rows: Seq<GpuProcessInfo>,
    seen: Seq<(u32, u64)>,
    graphics: Seq<(u32, u64)>,
    resolve_name: F,
) -> bool {
    &&& forall|k: int|
        0 <= k < rows.len() ==> {
            &&& lists_pid(seen, #[trigger] rows[k].pid)
            &&& rows[k].used_gpu_memory == clamp_u64(pid_memory(seen, rows[k].pid))
            &&& rows[k].kind == merged_kind(graphics, rows[k].pid)
            &&& resolve_name.ensures((rows[k].pid,), rows[k].name)
        }
    &&& forall|pid: u32|
        lists_pid(seen, pid) ==> exists|k: int| 0 <= k < rows.len() && #[trigger] rows[k].pid == pid
    &&& forall|a: int, b: int| 0 <= a < b < rows.len() ==> #[trigger] rows[a].pid != #[trigger] rows[b].pid
}

/// Take one more entry `(pid, mem)` of the lists into the rows.
fn add_entry<F: Fn(u32) -> String>(
    out: &mut Vec<GpuProcessInfo>,
    pid: u32,
    mem: u64,
    kind: GpuProcessKind,
    resolve_name: &F,
    Ghost(seen): Ghost<Seq<(u32, u64)>>,
    Ghost(graphics): Ghost<Seq<(u32, u64)>>,
)
    requires
        forall|p: u32| resolve_name.requires((p,)),
        rows_track(old(out)@, seen, graphics, *resolve_name),
        kind == merged_kind(graphics, pid) || lists_pid(seen, pid),
    ensures
        rows_track(final(out)@, seen.push((pid, mem)), graphics, *resolve_name),
{
    let ghost next = seen.push((pid, mem));
    proof {
        assert forall|p: u32| #[trigger] pid_memory(next, p) == pid_memory(seen, p) + if p == pid {
            mem as nat
        } else {
            0
        } by {
            lemma_pid_memory_push(seen, (pid, mem), p);
        }
        assert forall|p: u32| lists_pid(seen, p) implies #[trigger] lists_pid(next, p) by {
            let i = choose|i: int| 0 <= i < seen.len() && #[trigger] seen[i].0 == p;
            assert(next[i].0 == p);
        }
        assert(next[seen.len() as int].0 == pid);
        assert(lists_pid(next, pid));
    }
    let ghost old_out = out@;
    let found = position_of_pid(out, pid);
    let ghost at: int;
    match found {
        Some(k) => {
            let used = out[k].used_gpu_memory.saturating_add(mem);
            let mut row = out.remove(k);
            row.used_gpu_memory = used;
            out.insert(k, row);
            proof {
                at = k as int;
                assert(out@[at].pid == pid);
                assert(pid_memory(next, pid) == pid_memory(seen, pid) + mem);
                assert(out@[at].used_gpu_memory == clamp_u64(pid_memory(next, pid)));
                assert forall|a: int| 0 <= a < out@.len() && a != at implies out@[a] == old_out[a] by {}
            }
        },
        None => {
            proof {
                if lists_pid(seen, pid) {
                    let k = choose|k: int| 0 <= k < out@.len() && #[trigger] out@[k].pid == pid;
                    assert(false);
                }
                assert(pid_memory(seen, pid) == 0) by {
                    lemma_pid_memory_absent(seen, pid);
                }
            }
            let name = resolve_name(pid);
            out.push(GpuProcessInfo { pid, name, used_gpu_memory: mem, kind });
            proof {
                at = old_out.len() as int;
                assert(out@[at].pid == pid);
            }
        },
    }
    proof {
        assert(out@[at].pid == pid);
        assert forall|p: u32| lists_pid(next, p) implies exists|k: int|
            0 <= k < out@.len() && #[trigger] out@[k].pid == p by {
            if p != pid {
                let i = choose|i: int| 0 <= i < next.len() && #[trigger] next[i].0 == p;
                assert(seen[i].0 == p);
                assert(lists_pid(seen, p));
                let k = choose|k: int| 0 <= k < old_out.len() && #[trigger] old_out[k].pid == p;
                if k == at {
                    assert(false);
                }
                assert(out@[k].pid == p);
            } else {
                assert(out@[at].pid == p);
            }
        }
    }
}

proof fn lemma_pid_memory_absent(s: Seq<(u32, u64)>, pid: u32)
    requires
        !lists_pid(s, pid),
    ensures
        pid_memory(s, pid) == 0,
    decreases s.len(),
{
    if s.len() > 0 {
        assert(s.last().0 != pid) by {
            if s.last().0 == pid {
                assert(s[s.len() - 1].0 == pid);
            }
        }
        assert(!lists_pid(s.drop_last(), pid)) by {
            if lists_pid(s.drop_last(), pid) {
                let i = choose|i: int| 0 <= i < s.drop_last().len() && #[trigger] s.drop_last()[i].0 == pid;
                assert(s[i].0 == pid);
            }
        }
        lemma_pid_memory_absent(s.drop_last(), pid);
    }
}

/// The rows of the merged table, in order of first appearance.
fn collect_rows<F: Fn(u32) -> String>(
    graphics: &[(u32, u64)],
    compute: &[(u32, u64)],
    resolve_name: &F,
) -> (r: Vec<GpuProcessInfo>)
    requires
        forall|pid: u32| resolve_name.requires((pid,)),
    ensures
        rows_track(r@, graphics@ + compute@, graphics@, *resolve_name),
{
    let mut out: Vec<GpuProcessInfo> = Vec::new();
    let ng = graphics.len();
    let mut i: usize = 0;
    assert(graphics@.take(0) =~= Seq::<(u32, u64)>::empty());
    while i < ng
        invariant
            i <= ng,
            ng == graphics@.len(),
            forall|pid: u32| resolve_name.requires((pid,)),
            rows_track(out@, graphics@.take(i as int), graphics@, *resolve_name),
        decreases ng - i,
    {
        let (pid, mem) = graphics[i];
        proof {
            assert(graphics@[i as int].0 == pid);
            assert(lists_pid(graphics@, pid));
        }
        add_entry(
            &mut out,
            pid,
            mem,
            GpuProcessKind::Graphics,
            resolve_name,
            Ghost(graphics@.take(i as int)),
            Ghost(graphics@),
        );
        assert(graphics@.take(i as int).push((pid, mem)) =~= graphics@.take(i + 1));
        i = i + 1;
    }
    let nc = compute.len();
    let mut j: usize = 0;
    assert(graphics@ + compute@.take(0) =~= graphics@.take(ng as int));
    while j < nc
        invariant
            j <= nc,
            nc == compute@.len(),
            ng == graphics@.len(),
            forall|pid: u32| resolve_name.requires((pid,)),
            rows_track(out@, graphics@ + compute@.take(j as int), graphics@, *resolve_name),
        decreases nc - j,
    {
        let (pid, mem) = compute[j];
        let ghost seen = graphics@ + compute@.take(j as int);
        proof {
            if lists_pid(graphics@, pid) {
                let q = choose|q: int| 0 <= q < graphics@.len() && #[trigger] graphics@[q].0 == pid;
                assert(seen[q].0 == pid);
            }
        }
        add_entry(&mut out, pid, mem, GpuProcessKind::Compute, resolve_name, Ghost(seen), Ghost(graphics@));
        assert(seen.push((pid, mem)) =~= graphics@ + compute@.take(j + 1));
        j = j + 1;
    }
    assert(graphics@ + compute@.take(nc as int) =~= graphics@ + compute@);
    out
}

/// The index of the row holding `pid`, if any.
fn position_of_pid(rows: &Vec<GpuProcessInfo>, pid: u32) -> (r: Option<usize>)
    ensures
        match r {
            Some(k) => k < rows@.len() && rows@[k as int].pid == pid,
            None => forall|k: int| 0 <= k < rows@.len() ==> #[trigger] rows@[k].pid != pid,
        },
{
    let n = rows.len();
    let mut k: usize = 0;
    while k < n
        invariant
            k <= n,
            n == rows@.len(),
            forall|j: int| 0 <= j < k ==> #[trigger] rows@[j].pid != pid,
        decreases n - k,
    {
        if rows[k].pid == pid {
            return Some(k);
        }
        k = k + 1;
    }
    None
}

/// Every row comes before every later row.
pub open spec fn rows_sorted(s: Seq<GpuProcessInfo>) -> bool {
    forall|i: int, j: int| 0 <= i < j < s.len() ==> table_before(#[trigger] s[i], #[trigger] s[j])
}

proof fn lemma_insert_sorted(s: Seq<GpuProcessInfo>, pos: int, x: GpuProcessInfo)
    requires
        rows_sorted(s),
        0 <= pos <= s.len(),
        forall|k: int| 0 <= k < pos ==> table_before(#[trigger] s[k], x),
        forall|k: int| pos <= k < s.len() ==> table_before(x, #[trigger] s[k]),
    ensures
        rows_sorted(s.insert(pos, x)),
{
    let t = s.insert(pos, x);
    assert forall|i: int, j: int| 0 <= i < j < t.len() implies table_before(
        #[trigger] t[i],
        #[trigger] t[j],
    ) by {
        if j < pos {
            assert(t[i] == s[i] && t[j] == s[j]);
        } else if j == pos {
            assert(t[i] == s[i]);
        } else if i == pos {
            assert(t[j] == s[j - 1]);
        } else if i < pos {
            assert(t[i] == s[i] && t[j] == s[j - 1]);
        } else {
            assert(t[i] == s[i - 1] && t[j] == s[j - 1]);
        }
    }
}

proof fn lemma_pids_differ(s: Seq<GpuProcessInfo>, orig: Seq<GpuProcessInfo>, lo: int)
    requires
        0 <= lo < orig.len(),
        s.to_multiset() == orig.skip(lo + 1).to_multiset(),
        forall|a: int, b: int|
            0 <= a < b < orig.len() ==> #[trigger] orig[a].pid != #[trigger] orig[b].pid,
    ensures
        forall|k: int| 0 <= k < s.len() ==> #[trigger] s[k].pid != orig[lo].pid,
{
    broadcast use vstd::seq_lib::group_to_multiset_ensures;

    assert forall|k: int| 0 <= k < s.len() implies #[trigger] s[k].pid != orig[lo].pid by {
        assert(s.contains(s[k]));
        assert(s.to_multiset().count(s[k]) > 0);
        assert(orig.skip(lo + 1).contains(s[k]));
        let i = choose|i: int| 0 <= i < orig.skip(lo + 1).len() && #[trigger] orig.skip(lo + 1)[i] == s[k];
        assert(orig[lo + 1 + i] == s[k]);
        assert(orig[lo].pid != orig[lo + 1 + i].pid);
    }
}

/// The rows ordered by VRAM descending, then PID ascending.
fn sort_rows(rows: Vec<GpuProcessInfo>) -> (r: Vec<GpuProcessInfo>)
    requires
        forall|a: int, b: int|
            0 <= a < b < rows@.len() ==> #[trigger] rows@[a].pid != #[trigger] rows@[b].pid,
    ensures
        r@.to_multiset() == rows@.to_multiset(),
        rows_sorted(r@),
{
    broadcast use vstd::seq_lib::group_to_multiset_ensures;

    let ghost orig = rows@;
    let mut rest = rows;
    let mut sorted: Vec<GpuProcessInfo> = Vec::new();
    assert(orig.skip(orig.len() as int) =~= Seq::<GpuProcessInfo>::empty());
    while rest.len() > 0
        invariant
            rest@ == orig.take(rest@.len() as int),
            rest@.len() <= orig.len(),
            forall|a: int, b: int|
                0 <= a < b < orig.len() ==> #[trigger] orig[a].pid != #[trigger] orig[b].pid,
            sorted@.to_multiset() == orig.skip(rest@.len() as int).to_multiset(),
            rows_sorted(sorted@),
        decreases rest@.len(),
    {
        let ghost m = rest@.len() - 1;
        let x = rest.pop().unwrap();
        assert(x == orig[m]);
        proof {
            lemma_pids_differ(sorted@, orig, m);
        }
        let pos = insertion_point(&sorted, &x);
        let ghost old_sorted = sorted@;
        sorted.insert(pos, x);
        proof {
            lemma_insert_sorted(old_sorted, pos as int, x);
            assert(orig.skip(m + 1).insert(0, x) =~= orig.skip(m));
            vstd::seq_lib::to_multiset_insert(orig.skip(m + 1), 0, x);
            vstd::seq_lib::to_multiset_insert(old_sorted, pos as int, x);
            assert(sorted@ == old_sorted.insert(pos as int, x));
            assert(rest@ =~= orig.take(m));
        }
    }
    assert(orig.skip(0) =~= orig);
    sorted
}

/// Where `x` goes in the sorted `rows`: the first row that `x` precedes.
fn insertion_point(rows: &Vec<GpuProcessInfo>, x: &GpuProcessInfo) -> (r: usize)
    requires
        forall|i: int, j: int|
            0 <= i < j < rows@.len() ==> table_before(#[trigger] rows@[i], #[trigger] rows@[j]),
        forall|k: int| 0 <= k < rows@.len() ==> #[trigger] rows@[k].pid != x.pid,
    ensures
        r <= rows@.len(),
        forall|k: int| 0 <= k < r ==> table_before(#[trigger] rows@[k], *x),
        forall|k: int| r <= k < rows@.len() ==> table_before(*x, #[trigger] rows@[k]),
{
    let n = rows.len();
    let mut k: usize = 0;
    while k < n
        invariant
            k <= n,
            n == rows@.len(),
            forall|j: int| 0 <= j < k ==> table_before(#[trigger] rows@[j], *x),
            forall|j: int| 0 <= j < n ==> #[trigger] rows@[j].pid != x.pid,
            forall|i: int, j: int|
                0 <= i < j < rows@.len() ==> table_before(#[trigger] rows@[i], #[trigger] rows@[j]),
        decreases n - k,
    {
        let row = &rows[k];
        if x.used_gpu_memory > row.used_gpu_memory || (x.used_gpu_memory == row.used_gpu_memory
            && x.pid < row.pid) {
            assert forall|j: int| k <= j < n implies table_before(*x, #[trigger] rows@[j]) by {
                if j > k {
                    assert(table_before(rows@[k as int], rows@[j]));
                }
            }
            return k;
        }
        k = k + 1;
    }
    n
}

} // verus!
