//! Choosing the GPU that renders the user interface: the `--gpu` command-line
//! flag, the list of adapter names offered in the picker, and the match of a
//! chosen name against the adapters.

use vstd::prelude::*;
use crate::processes::{lowercase_string, unicode_lowercase};
use crate::text::{chars_equal, chars_of, contains_seq, find_chars};

verus! {

/// The characters of the flag that names the render GPU.
pub open spec fn gpu_flag_seq() -> Seq<char> {
    seq!['-', '-', 'g', 'p', 'u']
}

/// The first position at or after `i`, below `n`, where `p` holds.
pub open spec fn first_from(p: spec_fn(int) -> bool, i: int, n: int) -> Option<int>
    decreases n - i,
{
    if i < 0 || i >= n {
        None
    } else if p(i) {
        Some(i)
    } else {
        first_from(p, i + 1, n)
    }
}

/// The value given with `--gpu`: the argument after the first `--gpu`, if
/// any (the program name excluded).
pub open spec fn gpu_flag_spec(args: Seq<Seq<char>>) -> Option<Seq<char>> {
    match first_from(|i: int| args[i] == gpu_flag_seq(), 0, args.len() as int) {
        None => None,
        Some(i) => if i + 1 < args.len() {
            Some(args[i + 1])
        } else {
            None
        },
    }
}

/// The character sequences of a list of strings.
pub open spec fn strings_view(v: Seq<String>) -> Seq<Seq<char>> {
    v.map_values(|s: String| s@)
}


/// Parse `--gpu <name-substring>` from the command-line arguments (without
/// the program name). `None` when the flag is absent or has no value.
pub fn gpu_flag(args: &Vec<String>) -> (r: Option<String>)
    ensures
        match r {
            Some(s) => gpu_flag_spec(strings_view(args@)) == Some(s@),
            None => gpu_flag_spec(strings_view(args@)) is None,
        },
{
    let ghost sv = strings_view(args@);
    let ghost p = |i: int| sv[i] == gpu_flag_seq();
    let flag: [char; 5] = ['-', '-', 'g', 'p', 'u'];
    assert(flag@ =~= gpu_flag_seq());
    let n = args.len();
    let mut i: usize = 0;
    while i < n
        invariant
            i <= n,
            n == args@.len(),
            sv == strings_view(args@),
            p == (|i: int| sv[i] == gpu_flag_seq()),
            flag@ == gpu_flag_seq(),
            first_from(p, 0, n as int) == first_from(p, i as int, n as int),
        decreases n - i,
    {
        let cs = chars_of(args[i].as_str());
        if chars_equal(&cs, &flag) {
            assert(p(i as int));
            if i + 1 < n {
                let v = args[i + 1].clone();
                return Some(v);
            }
            return None;
        }
        i = i + 1;
    }
    None
}

/// The adapter names for the render-GPU picker: the non-empty names, each
/// kept once, in the order they first appear.
pub open spec fn unique_names_spec(names: Seq<Seq<char>>) -> Seq<Seq<char>>
    decreases names.len(),
{
    if names.len() == 0 {
        Seq::<Seq<char>>::empty()
    } else {
        let prev = unique_names_spec(names.drop_last());
        let n = names.last();
        if n.len() == 0 || prev.contains(n) {
            prev
        } else {
            prev.push(n)
        }
    }
}

fn contains_string(v: &Vec<String>, s: &String) -> (r: bool)
    ensures
        r == strings_view(v@).contains(s@),
{
    let n = v.len();
    let mut i: usize = 0;
    while i < n
        invariant
            i <= n,
            n == v@.len(),
            forall|j: int| 0 <= j < i ==> v@[j]@ != s@,
        decreases n - i,
    {
        if v[i] == *s {
            assert(strings_view(v@)[i as int] == s@);
            return true;
        }
        i = i + 1;
    }
    assert forall|j: int| 0 <= j < strings_view(v@).len() implies strings_view(v@)[j] != s@ by {
        assert(strings_view(v@)[j] == v@[j]@);
    }
    false
}

/// Deduplicate adapter names across backends, dropping empty ones.
pub fn unique_adapter_names(names: &Vec<String>) -> (r: Vec<String>)
    ensures
        strings_view(r@) == unique_names_spec(strings_view(names@)),
{
    let mut out: Vec<String> = Vec::new();
    let n = names.len();
    let mut i: usize = 0;
    while i < n
        invariant
            i <= n,
            n == names@.len(),
            strings_view(out@) == unique_names_spec(strings_view(names@.take(i as int))),
        decreases n - i,
    {
        let name = &names[i];
        assert(strings_view(names@.take(i + 1)).drop_last() =~= strings_view(names@.take(i as int)));
        assert(strings_view(names@.take(i + 1)).last() == name@);
        if !name.as_str().is_empty() && !contains_string(&out, name) {
            let ghost before = out@;
            out.push(name.clone());
            assert(strings_view(out@) =~= strings_view(before).push(name@));
        }
        i = i + 1;
    }
    assert(names@.take(n as int) =~= names@);
    out
}

/// Adapter `i` is compatible and its name contains the choice, both
/// lower-cased.
pub open spec fn adapter_matches(
    names: Seq<Seq<char>>,
    compatible: Seq<bool>,
    choice: Seq<char>,
    i: int,
) -> bool {
    compatible[i] && contains_seq(unicode_lowercase(names[i]), unicode_lowercase(choice))
}

/// The adapter chosen for `choice`: the first compatible adapter whose name
/// contains it (ignoring case), else the first compatible adapter, else none.
pub open spec fn select_adapter_spec(
    names: Seq<Seq<char>>,
    compatible: Seq<bool>,
    choice: Seq<char>,
) -> Option<int> {
    let n = names.len() as int;
    match first_from(|i: int| adapter_matches(names, compatible, choice, i), 0, n) {
        Some(i) => Some(i),
        None => first_from(|i: int| compatible[i], 0, n),
    }
}

/// Pick the render adapter for `choice` among adapters with the given
/// names, of which those marked in `compatible` can draw to the window.
/// A stale or unmatched choice falls back to the first compatible adapter,
/// so it never prevents start-up; `None` only when no adapter is compatible.
pub fn select_adapter(names: &Vec<String>, compatible: &Vec<bool>, choice: &str) -> (r: Option<usize>)
    requires
        names@.len() == compatible@.len(),
    ensures
        match r {
            Some(i) => select_adapter_spec(strings_view(names@), compatible@, choice@) == Some(i as int),
            None => select_adapter_spec(strings_view(names@), compatible@, choice@) is None,
        },
{
    let ghost sv = strings_view(names@);
    let ghost pm = |i: int| adapter_matches(sv, compatible@, choice@, i);
    let ghost pc = |i: int| compatible@[i];
    let lowered = lowercase_string(choice);
    let want = chars_of(lowered.as_str());
    let n = names.len();
    let mut i: usize = 0;
    while i < n
        invariant
            i <= n,
            n == names@.len(),
            n == compatible@.len(),
            sv == strings_view(names@),
            pm == (|i: int| adapter_matches(sv, compatible@, choice@, i)),
            want@ == unicode_lowercase(choice@),
            first_from(pm, 0, n as int) == first_from(pm, i as int, n as int),
        decreases n - i,
    {
        if compatible[i] {
            let lname = lowercase_string(names[i].as_str());
            let have = chars_of(lname.as_str());
            assert(sv[i as int] == names@[i as int]@);
            if find_chars(&have, &want, 0).is_some() {
                assert(pm(i as int));
                return Some(i);
            }
        }
        i = i + 1;
    }
    let mut j: usize = 0;
    while j < n
        invariant
            j <= n,
            n == compatible@.len(),
            pc == (|i: int| compatible@[i]),
            first_from(pc, 0, n as int) == first_from(pc, j as int, n as int),
            n == names@.len(),
            sv == strings_view(names@),
            pm == (|i: int| adapter_matches(sv, compatible@, choice@, i)),
            first_from(pm, 0, n as int) is None,
        decreases n - j,
    {
        if compatible[j] {
            return Some(j);
        }
        j = j + 1;
    }
    None
}


proof fn lemma_first_from_finds(p: spec_fn(int) -> bool, i: int, n: int, k: int)
    requires
        0 <= i <= k < n,
        p(k),
    ensures
        first_from(p, i, n) matches Some(j) && i <= j <= k && p(j),
    decreases k - i,
{
    if !p(i) {
        lemma_first_from_finds(p, i + 1, n, k);
    }
}

/// A stale or unmatched choice never prevents start-up: whenever some
/// adapter is compatible, one is chosen, and the chosen one is compatible.
pub proof fn lemma_select_adapter_falls_back(
    names: Seq<Seq<char>>,
    compatible: Seq<bool>,
    choice: Seq<char>,
    k: int,
)
    requires
        names.len() == compatible.len(),
        0 <= k < compatible.len(),
        compatible[k],
    ensures
        select_adapter_spec(names, compatible, choice) matches Some(i) && 0 <= i < names.len()
            && compatible[i],
{
    let n = names.len() as int;
    let pm = |i: int| adapter_matches(names, compatible, choice, i);
    let pc = |i: int| compatible[i];
    lemma_first_from_finds(pc, 0, n, k);
    match first_from(pm, 0, n) {
        Some(i) => {
            lemma_first_from_some(pm, 0, n);
        },
        None => {},
    }
}

proof fn lemma_first_from_some(p: spec_fn(int) -> bool, i: int, n: int)
    ensures
        first_from(p, i, n) matches Some(j) ==> 0 <= i <= j < n && p(j),
    decreases n - i,
{
    if 0 <= i < n && !p(i) {
        lemma_first_from_some(p, i + 1, n);
    }
}

/// The adapter chosen for a choice is the first one that fits: when some
/// compatible adapter's name contains the choice (both lower-cased), the
/// chosen adapter is such an adapter and none before it is; otherwise the
/// chosen adapter is the first compatible one; and nothing is chosen only
/// when no adapter is compatible.
pub proof fn lemma_select_adapter_picks_first_match(
    names: Seq<Seq<char>>,
    compatible: Seq<bool>,
    choice: Seq<char>,
)
    requires
        names.len() == compatible.len(),
    ensures
        match select_adapter_spec(names, compatible, choice) {
            Some(i) => {
                &&& 0 <= i < names.len()
                &&& compatible[i]
                &&& if exists|j: int|
                    0 <= j < names.len() && compatible[j] && contains_seq(
                        unicode_lowercase(#[trigger] names[j]),
                        unicode_lowercase(choice),
                    ) {
                    &&& contains_seq(unicode_lowercase(names[i]), unicode_lowercase(choice))
                    &&& forall|j: int|
                        0 <= j < i ==> !(compatible[j] && contains_seq(
                            unicode_lowercase(#[trigger] names[j]),
                            unicode_lowercase(choice),
                        ))
                } else {
                    forall|j: int| 0 <= j < i ==> !(#[trigger] compatible[j])
                }
            },
            None => forall|j: int| 0 <= j < names.len() ==> !(#[trigger] compatible[j]),
        },
{
    let n = names.len() as int;
    let pm = |i: int| adapter_matches(names, compatible, choice, i);
    let pc = |i: int| compatible[i];
    let found = exists|j: int|
        0 <= j < names.len() && compatible[j] && contains_seq(
            unicode_lowercase(#[trigger] names[j]),
            unicode_lowercase(choice),
        );
    if found {
        let k = choose|j: int|
            0 <= j < names.len() && compatible[j] && contains_seq(
                unicode_lowercase(#[trigger] names[j]),
                unicode_lowercase(choice),
            );
        assert(pm(k));
        lemma_first_from_finds(pm, 0, n, k);
        let i = first_from(pm, 0, n)->0;
        assert(pm(i));
        assert forall|j: int| 0 <= j < i implies !(compatible[j] && contains_seq(
            unicode_lowercase(#[trigger] names[j]),
            unicode_lowercase(choice),
        )) by {
            if compatible[j] && contains_seq(unicode_lowercase(names[j]), unicode_lowercase(choice)) {
                assert(pm(j));
                lemma_first_from_finds(pm, 0, n, j);
            }
        }
    } else {
        assert forall|j: int| 0 <= j < n implies !#[trigger] pm(j) by {
            if pm(j) {
                assert(compatible[j] && contains_seq(unicode_lowercase(names[j]), unicode_lowercase(choice)));
            }
        }
        if first_from(pm, 0, n) is Some {
            lemma_first_from_some(pm, 0, n);
            let i = first_from(pm, 0, n)->0;
            assert(pm(i));
        }
        assert(first_from(pm, 0, n) is None);
        match first_from(pc, 0, n) {
            Some(i) => {
                lemma_first_from_some(pc, 0, n);
                assert forall|j: int| 0 <= j < i implies !(#[trigger] compatible[j]) by {
                    if compatible[j] {
                        assert(pc(j));
                        lemma_first_from_finds(pc, 0, n, j);
                    }
                }
            },
            None => {
                assert forall|j: int| 0 <= j < n implies !(#[trigger] compatible[j]) by {
                    if compatible[j] {
                        assert(pc(j));
                        lemma_first_from_finds(pc, 0, n, j);
                    }
                }
            },
        }
    }
}

} // verus!
