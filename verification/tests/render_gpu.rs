use pane::processes::name_matches_filter;
use pane::render_gpu::{gpu_flag, select_adapter, unique_adapter_names};

fn strings(v: &[&str]) -> Vec<String> {
    v.iter().map(|s| s.to_string()).collect()
}

#[test]
fn gpu_flag_takes_the_next_argument() {
    assert_eq!(gpu_flag(&strings(&["--gpu", "4090"])), Some("4090".to_string()));
    assert_eq!(gpu_flag(&strings(&["-v", "--gpu", "RTX", "--gpu", "x"])), Some("RTX".to_string()));
    assert_eq!(gpu_flag(&strings(&["--gpu"])), None);
    assert_eq!(gpu_flag(&strings(&["--GPU", "a"])), None);
    assert_eq!(gpu_flag(&strings(&[])), None);
}

#[test]
fn adapter_names_are_deduplicated_in_order() {
    let names = strings(&["RTX 5090", "", "RTX 4090", "RTX 5090", "llvmpipe"]);
    assert_eq!(unique_adapter_names(&names), strings(&["RTX 5090", "RTX 4090", "llvmpipe"]));
    assert!(unique_adapter_names(&strings(&["", ""])).is_empty());
}

#[test]
fn adapter_choice_is_a_case_insensitive_substring() {
    let names = strings(&["NVIDIA GeForce RTX 5090", "NVIDIA GeForce RTX 4090"]);
    assert_eq!(select_adapter(&names, &vec![true, true], "rtx 4090"), Some(1));
    assert_eq!(select_adapter(&names, &vec![true, true], "5090"), Some(0));
}

#[test]
fn adapter_choice_falls_back_to_first_compatible() {
    let names = strings(&["Intel UHD", "NVIDIA GeForce RTX 4090", "AMD"]);
    // Unmatched name: first compatible adapter.
    assert_eq!(select_adapter(&names, &vec![false, true, true], "stale"), Some(1));
    // A matching but incompatible adapter is skipped.
    assert_eq!(select_adapter(&names, &vec![true, false, true], "4090"), Some(0));
    assert_eq!(select_adapter(&names, &vec![false, false, false], "4090"), None);
    assert_eq!(select_adapter(&vec![], &vec![], "x"), None);
}

#[test]
fn name_filter_is_case_insensitive_substring() {
    assert!(name_matches_filter("Ollama.exe", "OLLAMA"));
    assert!(!name_matches_filter("chrome.exe", "OLLAMA"));
    assert!(!name_matches_filter("idle", "nomatch"));
    assert!(name_matches_filter("idle", ""));
    assert!(name_matches_filter("ÉCRAN.EXE", "écran"));
}
