use pane::vram::{aggregate_free, free_bytes};

const GB: u64 = 1024 * 1024 * 1024;

#[test]
fn free_bytes_never_underflows() {
    assert_eq!(free_bytes(4 * GB, 24 * GB), 20 * GB);
    // Driver can briefly report used > total; must clamp, not wrap.
    assert_eq!(free_bytes(25 * GB, 24 * GB), 0);
    assert_eq!(free_bytes(0, 0), 0);
}

#[test]
fn dual_gpu_aggregation_5090_plus_4090() {
    // RTX 5090 (32 GiB, 8 used) + RTX 4090 (24 GiB, 4 used).
    let gpus = [(8 * GB, 32 * GB), (4 * GB, 24 * GB)];
    let (largest, combined) = aggregate_free(&gpus);
    assert_eq!(largest, 24 * GB); // 5090 has more free
    assert_eq!(combined, 44 * GB);
}

#[test]
fn largest_is_not_always_the_biggest_card() {
    // 32 GiB card nearly full, 24 GiB card empty.
    let gpus = [(31 * GB, 32 * GB), (0, 24 * GB)];
    let (largest, combined) = aggregate_free(&gpus);
    assert_eq!(largest, 24 * GB);
    assert_eq!(combined, 25 * GB);
}

#[test]
fn aggregation_handles_zero_and_one_gpu() {
    assert_eq!(aggregate_free(&[]), (0, 0));
    assert_eq!(aggregate_free(&[(2 * GB, 8 * GB)]), (6 * GB, 6 * GB));
}

#[test]
fn combined_free_saturates() {
    let gpus = [(0, u64::MAX), (0, 5)];
    assert_eq!(aggregate_free(&gpus), (u64::MAX, u64::MAX));
}

#[test]
fn overcommitted_card_counts_as_zero() {
    let gpus = [(9 * GB, 8 * GB), (1 * GB, 4 * GB)];
    assert_eq!(aggregate_free(&gpus), (3 * GB, 3 * GB));
}

use pane::vram::{kv_shape, KvShape};

#[test]
fn kv_shapes_per_model_class() {
    let s = |l| Some(KvShape { num_layers: l, head_dim: 128, num_kv_heads: 8 });
    assert_eq!(kv_shape("7B"), s(32));
    assert_eq!(kv_shape("8B"), s(32));
    assert_eq!(kv_shape("14B"), s(40));
    assert_eq!(kv_shape("47B"), s(32));
    assert_eq!(kv_shape("70B"), s(80));
    assert_eq!(kv_shape("72B"), s(80));
    assert_eq!(kv_shape("80B"), s(80));
    assert_eq!(kv_shape("405B"), s(126));
    assert_eq!(kv_shape("671B"), s(61));
    // Unknown classes have no shape; the calculator falls back to a fixed guess.
    assert_eq!(kv_shape("3B"), None);
    assert_eq!(kv_shape(""), None);
    assert_eq!(kv_shape("70b"), None);
}
