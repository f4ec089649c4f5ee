# Pane

A system monitor whose core is verified with Verus.

- `src/` is the verified library:
  - `navigation`: the panel, sort-column and control-row cycles.
  - `history`: the bounded sample history behind the charts.
  - `pdh`: the grammar of Windows GPU performance-counter instance names and
    paths, the per-process aggregation of their samples (maximum utilization
    across engines, memory summed across adapters), the collector's choice
    between native PDH and the PowerShell fallback, and UTF-16 strings for
    the wide-character APIs.
  - `nvml`: the merge of NVML's graphics and compute process lists.
  - `vram`: free-VRAM arithmetic and KV-cache shapes of the headroom calculator.
  - `processes`: the process-table name filter.
  - `render_gpu`: the `--gpu` flag, the adapter picker list and the adapter choice.
  - `text`: character-level helpers shared by the parsers.
- `app/` is the program around it: the egui window, the NVML and PDH/PowerShell
  queries, and the floating-point parts (percentages, gigabyte sizes and the
  "what fits" verdicts).
- `tests/` exercises the library.
