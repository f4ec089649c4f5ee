//! Free-VRAM arithmetic of the headroom calculator.

use vstd::prelude::*;
use crate::text::{chars_equal, chars_of};

verus! {

/// Free VRAM of one card: `total - used`, or 0 when the driver reports more
/// used than total.
pub open spec fn card_free(used: u64, total: u64) -> u64 {
    if used > total {
        0
    } else {
        (total - used) as u64
    }
}

/// Free VRAM on a single card, in bytes. Never underflows.
pub fn free_bytes(used: u64, total: u64) -> (r: u64)
    ensures
        r == card_free(used, total),
{
    total.saturating_sub(used)
}

/// The largest free VRAM of the cards, 0 when there are none.
pub open spec fn largest_free(gpus: Seq<(u64, u64)>) -> u64
    decreases gpus.len(),
{
    if gpus.len() == 0 {
        0
    } else {
        let rest = largest_free(gpus.drop_last());
        let f = card_free(gpus.last().0, gpus.last().1);
        if f > rest {
            f
        } else {
            rest
        }
    }
}

/// The free VRAM of all cards added up.
pub open spec fn total_free(gpus: Seq<(u64, u64)>) -> nat
    decreases gpus.len(),
{
    if gpus.len() == 0 {
        0
    } else {
        total_free(gpus.drop_last()) + card_free(gpus.last().0, gpus.last().1) as nat
    }
}

/// `n`, clamped at `u64::MAX`.
pub open spec fn clamp(n: nat) -> u64 {
    if n > u64::MAX {
        u64::MAX
    } else {
        n as u64
    }
}

/// Aggregate free VRAM across all detected GPUs, given `(used, total)` per card.
///
/// Returns `(largest_single_card_free, combined_free)` in bytes. A model must
/// fit in the largest single card to run unsplit; the combined figure is only
/// meaningful for runtimes that shard layers across devices. The combined
/// figure is clamped at `u64::MAX`.
pub fn aggregate_free(gpus: &[(u64, u64)]) -> (r: (u64, u64))
    ensures
        r.0 == largest_free(gpus@),
        r.1 == clamp(total_free(gpus@)),
{
    let n = gpus.len();
    let mut largest: u64 = 0;
    let mut combined: u64 = 0;
    let mut i: usize = 0;
    while i < n
        invariant
            i <= n,
            n == gpus@.len(),
            largest == largest_free(gpus@.take(i as int)),
            combined == clamp(total_free(gpus@.take(i as int))),
        decreases n - i,
    {
        let (used, total) = gpus[i];
        let f = free_bytes(used, total);
        assert(gpus@.take(i + 1).drop_last() =~= gpus@.take(i as int));
        if f > largest {
            largest = f;
        }
        combined = combined.saturating_add(f);
        i = i + 1;
    }
    assert(gpus@.take(n as int) =~= gpus@);
    (largest, combined)
}

/// The largest single-card figure is the free VRAM of one of the cards
/// (0 when there are none), no card has more, and it never exceeds the
/// combined figure.
pub proof fn lemma_largest_free_bounds(gpus: Seq<(u64, u64)>)
    ensures
        forall|i: int|
            0 <= i < gpus.len() ==> card_free(#[trigger] gpus[i].0, gpus[i].1) <= largest_free(
                gpus,
            ),
        gpus.len() == 0 ==> largest_free(gpus) == 0,
        gpus.len() > 0 ==> exists|i: int|
            0 <= i < gpus.len() && card_free(#[trigger] gpus[i].0, gpus[i].1) == largest_free(
                gpus,
            ),
        largest_free(gpus) <= clamp(total_free(gpus)),
    decreases gpus.len(),
{
    if gpus.len() > 0 {
        let init = gpus.drop_last();
        lemma_largest_free_bounds(init);
        assert forall|i: int| 0 <= i < gpus.len() implies card_free(
            #[trigger] gpus[i].0,
            gpus[i].1,
        ) <= largest_free(gpus) by {
            if i < gpus.len() - 1 {
                assert(gpus[i] == init[i]);
            }
        }
        let last = gpus.len() - 1;
        if card_free(gpus[last].0, gpus[last].1) > largest_free(init) {
            assert(card_free(gpus[last].0, gpus[last].1) == largest_free(gpus));
        } else {
            if init.len() > 0 {
                let i = choose|i: int|
                    0 <= i < init.len() && card_free(#[trigger] init[i].0, init[i].1) == largest_free(init);
                assert(gpus[i] == init[i]);
                assert(card_free(gpus[i].0, gpus[i].1) == largest_free(gpus));
            } else {
                assert(card_free(gpus[last].0, gpus[last].1) == largest_free(gpus));
            }
        }
    }
}


/// The shape of a model's KV cache.
#[derive(Debug, Clone, Copy, PartialEq, Eq, Structural)]
pub struct KvShape {
    pub num_layers: usize,
    pub head_dim: usize,
    pub num_kv_heads: usize,
}

/// The KV-cache shape assumed for a model size class, by its parameter
/// count: bigger classes have more layers; the mixture-of-experts classes
/// (`47B`, `671B`) have fewer. Unknown classes have none.
pub open spec fn kv_shape_spec(params: Seq<char>) -> Option<KvShape> {
    let layers: int = if params == seq!['7', 'B'] || params == seq!['8', 'B'] {
        32
    } else if params == seq!['1', '4', 'B'] {
        40
    } else if params == seq!['4', '7', 'B'] {
        32
    } else if params == seq!['7', '0', 'B'] || params == seq!['7', '2', 'B'] || params == seq![
        '8',
        '0',
        'B',
    ] {
        80
    } else if params == seq!['4', '0', '5', 'B'] {
        126
    } else if params == seq!['6', '7', '1', 'B'] {
        61
    } else {
        0
    };
    if layers == 0 {
        None
    } else {
        Some(KvShape { num_layers: layers as usize, head_dim: 128, num_kv_heads: 8 })
    }
}

/// The KV-cache shape for a parameter-count class such as `"70B"`.
pub fn kv_shape(params: &str) -> (r: Option<KvShape>)
    ensures
        r == kv_shape_spec(params@),
{
    let p = chars_of(params);
    let layers: usize = if chars_equal(&p, &['7', 'B']) || chars_equal(&p, &['8', 'B']) {
        32
    } else if chars_equal(&p, &['1', '4', 'B']) {
        40
    } else if chars_equal(&p, &['4', '7', 'B']) {
        32
    } else if chars_equal(&p, &['7', '0', 'B']) || chars_equal(&p, &['7', '2', 'B'])
        || chars_equal(&p, &['8', '0', 'B']) {
        80
    } else if chars_equal(&p, &['4', '0', '5', 'B']) {
        126
    } else if chars_equal(&p, &['6', '7', '1', 'B']) {
        61
    } else {
        0
    };
    if layers == 0 {
        None
    } else {
        Some(KvShape { num_layers: layers, head_dim: 128, num_kv_heads: 8 })
    }
}

} // verus!
