use std::collections::HashMap;

use pane::pdh::{
    classify_memory_counter, extract_pid, extract_pid_from_path, fold_memory, fold_utilization,
    instance_from_path, parse_gpu_instance, refresh_step, split_ps_pair, status_after_init, wide,
    CollectorStatus, MemoryCounter, PdhSource, ProcessGpuUsage,
};

/// A utilization sample as the collectors hand it to the aggregate: finite,
/// non-negative percentages as their bit pattern, anything else dropped.
fn utilization_sample(value: f64) -> Option<u64> {
    if !value.is_finite() || value < 0.0 {
        None
    } else if value == 0.0 {
        Some(0)
    } else {
        Some(value.to_bits())
    }
}

fn fold_util(map: &mut HashMap<u32, ProcessGpuUsage>, instance: &str, value: f64) {
    if let Some(bits) = utilization_sample(value) {
        fold_utilization(map, instance, bits);
    }
}

/// `instance=value` as the PowerShell fallback reads it.
fn parse_ps_pair(line: &str) -> Option<(&str, f64)> {
    let (lhs, rhs) = split_ps_pair(line)?;
    let value: f64 = rhs.parse().ok()?;
    Some((lhs, value))
}

#[test]
fn parses_full_engine_instance() {
    let inst = parse_gpu_instance("pid_12345_luid_0x00000000_0x0000D1B5_phys_0_eng_3_engtype_3D")
        .expect("should parse");
    assert_eq!(inst.pid, 12345);
    assert_eq!(inst.luid.as_deref(), Some("0x00000000_0x0000d1b5"));
    assert_eq!(inst.phys, Some(0));
    assert_eq!(inst.eng, Some(3));
    assert_eq!(inst.engtype.as_deref(), Some("3d"));
}

#[test]
fn parses_process_memory_instance() {
    let inst =
        parse_gpu_instance("pid_4242_luid_0x00000000_0x0000ABCD_phys_1").expect("should parse");
    assert_eq!(inst.pid, 4242);
    assert_eq!(inst.phys, Some(1));
    assert_eq!(inst.eng, None);
    assert_eq!(inst.engtype, None);
}

#[test]
fn parses_multiword_engtype() {
    let inst = parse_gpu_instance("pid_1_luid_0x0_0x1_phys_0_eng_5_engtype_Video_Decode").unwrap();
    assert_eq!(inst.engtype.as_deref(), Some("video_decode"));
}

#[test]
fn tolerates_missing_trailing_fields() {
    let inst = parse_gpu_instance("pid_777").unwrap();
    assert_eq!(inst.pid, 777);
    assert_eq!(inst.luid, None);
    assert_eq!(inst.phys, None);
}

#[test]
fn trims_surrounding_whitespace() {
    assert_eq!(parse_gpu_instance("  pid_55_phys_0  ").unwrap().pid, 55);
}

#[test]
fn rejects_malformed_instances() {
    let bad = [
        "",
        "   ",
        "pid_",
        "pid_abc",
        "pid__luid_0x0_0x1",
        "_pid_1234",
        "engtype_3D",
        "Total",
        "luid_0x0_0x1_phys_0",
        "pid-1234_phys_0",
        "pid_12ab_phys_0",
    ];
    for case in bad {
        assert_eq!(parse_gpu_instance(case), None, "should reject {case:?}");
    }
}

#[test]
fn pid_overflow_is_rejected() {
    assert_eq!(parse_gpu_instance("pid_99999999999999999999_phys_0"), None);
}

#[test]
fn extract_pid_matches_parse() {
    assert_eq!(extract_pid("pid_31337_luid_0x0_0x1_phys_1"), Some(31337));
    assert_eq!(extract_pid("Total"), None);
}

#[test]
fn extract_pid_from_path_handles_full_paths() {
    let path = r"\\DESKTOP\GPU Process Memory(pid_9012_luid_0x00000000_0x0000D1B5_phys_0)\Dedicated Usage";
    assert_eq!(extract_pid_from_path(path), Some(9012));
    assert_eq!(
        extract_pid_from_path(r"\\HOST\Processor(_Total)\% Idle Time"),
        None
    );
    assert_eq!(extract_pid_from_path(""), None);
    assert_eq!(extract_pid_from_path("pid_x"), None);
}

#[test]
fn unwraps_instance_from_counter_path() {
    // Regression: the PowerShell fallback reports .Path, not .InstanceName.
    // Feeding the raw path to the instance parser silently dropped all
    // memory samples.
    let path = r"\\DESKTOP\gpu process memory(pid_9012_luid_0x0_0xd1b5_phys_0)\dedicated usage";
    assert_eq!(
        instance_from_path(path),
        Some("pid_9012_luid_0x0_0xd1b5_phys_0")
    );
    assert_eq!(parse_gpu_instance(instance_from_path(path).unwrap()).unwrap().pid, 9012);
    // A raw path must NOT parse as an instance name.
    assert_eq!(parse_gpu_instance(path), None);

    assert_eq!(instance_from_path("no parens here"), None);
    assert_eq!(instance_from_path(r"\obj()\counter"), None);
    assert_eq!(instance_from_path(""), None);
    assert_eq!(instance_from_path(r"\Processor(_Total)\% Idle"), Some("_Total"));
}

#[test]
fn powershell_memory_path_round_trip() {
    let line = r"\\HOST\gpu process memory(pid_555_luid_0x0_0x1_phys_1)\shared usage=2048";
    let (path, value) = parse_ps_pair(line).unwrap();
    let instance = instance_from_path(path).unwrap();
    let mut map = HashMap::new();
    fold_memory(&mut map, instance, classify_memory_counter(path), value as u64);
    assert_eq!(map[&555].shared_vram, 2048);
    assert_eq!(map[&555].dedicated_vram, 0);
}

#[test]
fn classifies_memory_counters() {
    let base = "(pid_1_luid_0x0_0x1_phys_0)";
    assert_eq!(
        classify_memory_counter(&format!(r"\GPU Process Memory{base}\Dedicated Usage")),
        MemoryCounter::Dedicated
    );
    assert_eq!(
        classify_memory_counter(&format!(r"\GPU Process Memory{base}\Shared Usage")),
        MemoryCounter::Shared
    );
    assert_eq!(
        classify_memory_counter(&format!(r"\GPU Process Memory{base}\Local Usage")),
        MemoryCounter::Local
    );
    assert_eq!(
        classify_memory_counter(&format!(r"\GPU Process Memory{base}\Non Local Usage")),
        MemoryCounter::NonLocal
    );
    assert_eq!(
        classify_memory_counter(&format!(r"\GPU Process Memory{base}\Total Committed")),
        MemoryCounter::Other
    );
}

#[test]
fn classification_ignores_the_instance_part() {
    // The instance name itself mentions "shared usage"; only the tail counts.
    assert_eq!(
        classify_memory_counter(r"\GPU Process Memory(shared usage)\Dedicated Usage"),
        MemoryCounter::Dedicated
    );
    // Without a closing parenthesis the whole path is the tail.
    assert_eq!(classify_memory_counter("SHARED USAGE"), MemoryCounter::Shared);
}

#[test]
fn utilization_takes_max_across_engines() {
    let mut map = HashMap::new();
    fold_util(&mut map, "pid_10_luid_0x0_0x1_phys_0_eng_0_engtype_3D", 12.0);
    fold_util(&mut map, "pid_10_luid_0x0_0x1_phys_0_eng_1_engtype_Copy", 44.5);
    fold_util(&mut map, "pid_10_luid_0x0_0x1_phys_0_eng_2_engtype_3D", 3.0);
    assert_eq!(f64::from_bits(map[&10].utilization), 44.5);
    assert_eq!(map.len(), 1);
}

#[test]
fn utilization_ignores_junk() {
    let mut map = HashMap::new();
    fold_util(&mut map, "Total", 99.0);
    fold_util(&mut map, "pid_10_phys_0", f64::NAN);
    fold_util(&mut map, "pid_10_phys_0", -5.0);
    assert!(map.is_empty());
}

#[test]
fn utilization_entry_exists_after_a_zero_sample() {
    let mut map = HashMap::new();
    fold_utilization(&mut map, "pid_3_phys_0", 0);
    assert_eq!(
        map[&3],
        ProcessGpuUsage { pid: 3, utilization: 0, dedicated_vram: 0, shared_vram: 0 }
    );
}

#[test]
fn memory_sums_across_adapters() {
    // Dual-GPU: one process holding VRAM on both cards.
    let mut map = HashMap::new();
    fold_memory(
        &mut map,
        "pid_2000_luid_0x0_0xAAA_phys_0",
        MemoryCounter::Dedicated,
        2 * 1024 * 1024 * 1024,
    );
    fold_memory(
        &mut map,
        "pid_2000_luid_0x0_0xBBB_phys_1",
        MemoryCounter::Dedicated,
        1024 * 1024 * 1024,
    );
    fold_memory(
        &mut map,
        "pid_2000_luid_0x0_0xAAA_phys_0",
        MemoryCounter::Shared,
        512 * 1024 * 1024,
    );
    // Local / NonLocal must not be folded into dedicated.
    fold_memory(
        &mut map,
        "pid_2000_luid_0x0_0xAAA_phys_0",
        MemoryCounter::Local,
        99 * 1024 * 1024 * 1024,
    );

    let e = &map[&2000];
    assert_eq!(e.dedicated_vram, 3 * 1024 * 1024 * 1024);
    assert_eq!(e.shared_vram, 512 * 1024 * 1024);
}

#[test]
fn memory_saturates_instead_of_overflowing() {
    let mut map = HashMap::new();
    fold_memory(&mut map, "pid_1_phys_0", MemoryCounter::Dedicated, u64::MAX);
    fold_memory(&mut map, "pid_1_phys_0", MemoryCounter::Dedicated, 1024);
    assert_eq!(map[&1].dedicated_vram, u64::MAX);
}

#[test]
fn memory_ignores_unparsable_instances_and_other_counters() {
    let mut map = HashMap::new();
    fold_memory(&mut map, "Total", MemoryCounter::Dedicated, 5);
    fold_memory(&mut map, "pid_1_phys_0", MemoryCounter::NonLocal, 5);
    fold_memory(&mut map, "pid_1_phys_0", MemoryCounter::Other, 5);
    assert!(map.is_empty());
}

#[test]
fn parses_powershell_pairs() {
    assert_eq!(
        parse_ps_pair("pid_1234_luid_0x0_0x1_phys_0_eng_0_engtype_3D=12.50"),
        Some(("pid_1234_luid_0x0_0x1_phys_0_eng_0_engtype_3D", 12.5))
    );
    assert_eq!(
        parse_ps_pair(r"\\HOST\gpu process memory(pid_1_phys_0)\dedicated usage=4096"),
        Some((
            r"\\HOST\gpu process memory(pid_1_phys_0)\dedicated usage",
            4096.0
        ))
    );
    assert_eq!(parse_ps_pair("no-equals-sign"), None);
    assert_eq!(parse_ps_pair("pid_1=notanumber"), None);
    assert_eq!(parse_ps_pair(""), None);
}

#[test]
fn split_ps_pair_uses_the_last_equals_sign_and_trims() {
    assert_eq!(split_ps_pair(" a=b = 7 "), Some(("a=b", "7")));
    assert_eq!(split_ps_pair("x="), Some(("x", "")));
    assert_eq!(split_ps_pair("none"), None);
}

#[test]
fn parser_keeps_later_fields_and_odd_numbers() {
    let inst = parse_gpu_instance("PID_8_phys_+2_phys_3_eng__engtype_").unwrap();
    assert_eq!(inst.pid, 8);
    assert_eq!(inst.phys, Some(3));
    assert_eq!(inst.eng, None);
    assert_eq!(inst.engtype.as_deref(), Some(""));
    let inst = parse_gpu_instance("pid_8_phys_+2").unwrap();
    assert_eq!(inst.phys, Some(2));
    let inst = parse_gpu_instance("pid_0008_luid_a").unwrap();
    assert_eq!(inst.pid, 8);
    assert_eq!(inst.luid, None);
    assert_eq!(parse_gpu_instance("\u{3000}pid_9\u{a0}").unwrap().pid, 9);
}

#[test]
fn source_labels() {
    assert_eq!(PdhSource::NativePdh.label(), "PDH");
    assert_eq!(PdhSource::PowerShell.label(), "PowerShell");
    assert_eq!(PdhSource::Unavailable.label(), "unavailable");
}

#[test]
fn wide_strings_are_nul_terminated_utf16() {
    assert_eq!(wide(""), vec![0]);
    assert_eq!(wide("A"), vec![0x41, 0]);
    assert_eq!(wide(r"\GPU"), vec![0x5c, 0x47, 0x50, 0x55, 0]);
    let expected: Vec<u16> = "é😀".encode_utf16().chain(std::iter::once(0)).collect();
    assert_eq!(wide("é😀"), expected);
}

#[test]
fn upper_and_lower_cased_names_parse_alike() {
    let name = "pid_77_luid_0x0_0xAbC_phys_1_eng_2_engtype_VideoDecode";
    let plain = parse_gpu_instance(name).expect("should parse");
    assert_eq!(parse_gpu_instance(&name.to_ascii_uppercase()), Some(plain.clone()));
    assert_eq!(parse_gpu_instance(&name.to_ascii_lowercase()), Some(plain.clone()));
    assert_eq!(plain.luid.as_deref(), Some("0x0_0xabc"));
    assert_eq!(plain.engtype.as_deref(), Some("videodecode"));
}

#[test]
fn appended_fields_keep_the_pid() {
    for name in ["pid_42", "pid_42_luid_0x1_0x2_phys_0", "PID_42_luid_0x1_0x2_phys_0_eng_1_engtype_3D"] {
        for extra in ["", "new", "extra_field_9", "  padded  ", "engtype_copy"] {
            let longer = format!("{name}_{extra}");
            assert_eq!(extract_pid(&longer), Some(42), "{longer}");
        }
    }
}

#[test]
fn collector_uses_native_pdh_when_the_query_opens() {
    let s = status_after_init(Ok(()));
    assert_eq!(s.source, PdhSource::NativePdh);
    assert!(s.native);
    assert_eq!(s.init_error, None);
}

#[test]
fn collector_falls_back_when_the_query_cannot_open() {
    let s = status_after_init(Err("PdhOpenQueryW failed: 0x1".to_string()));
    assert_eq!(s.source, PdhSource::PowerShell);
    assert!(!s.native);
    assert_eq!(s.init_error.as_deref(), Some("PdhOpenQueryW failed: 0x1"));
}

#[test]
fn successful_native_refresh_keeps_the_query() {
    let s = status_after_init(Ok(()));
    let (next, run_powershell) = refresh_step(s, Some(Ok(())));
    assert_eq!(next.source, PdhSource::NativePdh);
    assert!(next.native);
    assert_eq!(next.init_error, None);
    assert!(!run_powershell);
}

#[test]
fn failed_native_refresh_falls_back_for_good() {
    let s = status_after_init(Ok(()));
    let (next, run_powershell) = refresh_step(s, Some(Err("collect failed".to_string())));
    assert_eq!(next.source, PdhSource::PowerShell);
    assert!(!next.native);
    assert_eq!(next.init_error.as_deref(), Some("collect failed"));
    assert!(run_powershell);
    let (after, again) = refresh_step(next, None);
    assert_eq!(after.source, PdhSource::PowerShell);
    assert!(!after.native);
    assert_eq!(after.init_error.as_deref(), Some("collect failed"));
    assert!(again);
}

#[test]
fn refresh_without_a_query_runs_powershell() {
    let s = CollectorStatus { source: PdhSource::Unavailable, native: false, init_error: None };
    let (next, run_powershell) = refresh_step(s, None);
    assert_eq!(next.source, PdhSource::PowerShell);
    assert_eq!(next.init_error, None);
    assert!(run_powershell);
}
