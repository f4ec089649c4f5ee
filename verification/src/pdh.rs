//! Windows performance-counter (PDH) data: the grammar of the `GPU Engine`
//! and `GPU Process Memory` counter instance names and paths, and the
//! per-process aggregation of their samples.
//!
//! Instance names have the form
//! `pid_<PID>_luid_<hi>_<lo>_phys_<N>[_eng_<N>_engtype_<NAME>]`.

use std::collections::HashMap;
use vstd::prelude::*;
use vstd::string::StringSliceAdditionalSpecFns;
use vstd::utf8::{
    decode_utf8, encode_utf8_decode_utf8, encode_utf8_valid_utf8, is_char_boundary,
    is_char_boundary_iff_not_is_continuation_byte, is_continuation_byte, length_of_first_scalar,
    pop_first_scalar, valid_utf8,
};
use crate::text::{
    ascii_lower_seq, char_vecs_view, chars_equal, extend_chars, is_digit, join_chars_from,
    join_seq, lower_chars, parse_u32_chars, parse_u32_seq, split_chars, split_seq, string_from_chars,
    trim_seq, trim_str, lemma_trim_lower_commute, chars_of, contains_seq, find_byte, find_byte_from, find_chars, find_from,
    last_byte, last_index_of, rfind_byte, rfind_char, ascii_upper_seq, no_ascii_upper,
    lemma_lower_after_upper, lemma_trim_end_append, lemma_split_no_upper, lemma_join_no_upper,
    trim_start_seq, trim_end_seq, is_white_space, ascii_lower,
};

verus! {

/// Which backend produced the per-process GPU data.
#[derive(Debug, Clone, Copy, PartialEq, Eq, Structural)]
pub enum PdhSource {
    /// Native PDH.
    NativePdh,
    /// The PowerShell `Get-Counter` fallback.
    PowerShell,
    /// Not available on this platform.
    Unavailable,
}

/// The text shown for a data source.
pub open spec fn pdh_source_label(s: PdhSource) -> Seq<char> {
    match s {
        PdhSource::NativePdh => "PDH"@,
        PdhSource::PowerShell => "PowerShell"@,
        PdhSource::Unavailable => "unavailable"@,
    }
}

impl PdhSource {
    /// The source's label.
    pub fn label(self) -> (r: &'static str)
        ensures
            r@ == pdh_source_label(self),
    {
        match self {
            PdhSource::NativePdh => "PDH",
            PdhSource::PowerShell => "PowerShell",
            PdhSource::Unavailable => "unavailable",
        }
    }
}

/// Where the per-process collector stands: which backend answers, whether a
/// native query is still held, and why the native path was given up.
#[derive(Debug, Clone)]
pub struct CollectorStatus {
    pub source: PdhSource,
    /// A native PDH query is held and is tried on each refresh.
    pub native: bool,
    /// Why native PDH could not be used, once it could not.
    pub init_error: Option<String>,
}

/// The status after trying to open the native query: on success the native
/// backend is used; on failure the collector falls back to PowerShell for good
/// and keeps the error.
pub fn status_after_init(init: Result<(), String>) -> (s: CollectorStatus)
    ensures
        match init {
            Ok(()) => s == (CollectorStatus {
                source: PdhSource::NativePdh,
                native: true,
                init_error: None,
            }),
            Err(e) => s == (CollectorStatus {
                source: PdhSource::PowerShell,
                native: false,
                init_error: Some(e),
            }),
        },
{
    match init {
        Ok(()) => CollectorStatus { source: PdhSource::NativePdh, native: true, init_error: None },
        Err(e) => CollectorStatus { source: PdhSource::PowerShell, native: false, init_error: Some(e) },
    }
}

/// One refresh decision. `native_result` is the outcome of the native
/// collection; it is present exactly when a query is held. Returns the next
/// status and whether PowerShell must run. A failed native collection is
/// treated as permanent: the query is given up and its error kept.
pub fn refresh_step(s: CollectorStatus, native_result: Option<Result<(), String>>) -> (r: (
    CollectorStatus,
    bool,
))
    requires
        native_result is Some <==> s.native,
    ensures
        match native_result {
            Some(Ok(())) => r.0 == (CollectorStatus { source: PdhSource::NativePdh, ..s }) && !r.1,
            Some(Err(e)) => r.0 == (CollectorStatus {
                source: PdhSource::PowerShell,
                native: false,
                init_error: Some(e),
            }) && r.1,
            None => r.0 == (CollectorStatus { source: PdhSource::PowerShell, ..s }) && r.1,
        },
{
    match native_result {
        Some(Ok(())) => (CollectorStatus { source: PdhSource::NativePdh, ..s }, false),
        Some(Err(e)) => (
            CollectorStatus { source: PdhSource::PowerShell, native: false, init_error: Some(e) },
            true,
        ),
        None => (CollectorStatus { source: PdhSource::PowerShell, ..s }, true),
    }
}

/// A parsed `GPU Engine` / `GPU Process Memory` counter instance name.
#[derive(Debug, Clone, PartialEq, Eq)]
pub struct GpuInstance {
    pub pid: u32,
    /// The `luid_<hi>_<lo>` portion, lower-cased, without the `luid_` prefix.
    pub luid: Option<String>,
    /// Physical adapter index from `phys_<N>`.
    pub phys: Option<u32>,
    /// Engine index from `eng_<N>`.
    pub eng: Option<u32>,
    /// Engine type from `engtype_<NAME>` (e.g. `3d`, `copy`, `video_decode`).
    pub engtype: Option<String>,
}

/// The content of a `GpuInstance`, with its strings as character sequences.
pub struct InstanceFields {
    pub pid: u32,
    pub luid: Option<Seq<char>>,
    pub phys: Option<u32>,
    pub eng: Option<u32>,
    pub engtype: Option<Seq<char>>,
}

pub open spec fn opt_string_view(s: Option<String>) -> Option<Seq<char>> {
    match s {
        Some(t) => Some(t@),
        None => None,
    }
}

impl View for GpuInstance {
    type V = InstanceFields;

    open spec fn view(&self) -> InstanceFields {
        InstanceFields {
            pid: self.pid,
            luid: opt_string_view(self.luid),
            phys: self.phys,
            eng: self.eng,
            engtype: opt_string_view(self.engtype),
        }
    }
}

pub open spec fn opt_instance_view(r: Option<GpuInstance>) -> Option<InstanceFields> {
    match r {
        Some(i) => Some(i@),
        None => None,
    }
}

/// The number of ASCII digits at the start of `s`.
pub open spec fn leading_digits(s: Seq<char>) -> nat
    decreases s.len(),
{
    if s.len() > 0 && is_digit(s[0]) {
        1 + leading_digits(s.drop_first())
    } else {
        0
    }
}

/// The fields after the PID, read left to right from piece `i` of the
/// `_`-separated pieces: `luid` takes the next two pieces, `phys` and `eng`
/// the next one, `engtype` everything that follows (pieces joined with `_`)
/// and ends the scan; any other piece is skipped. A later field of the same
/// kind replaces an earlier one.
pub open spec fn scan_fields(parts: Seq<Seq<char>>, i: int, acc: InstanceFields) -> InstanceFields
    decreases parts.len() - i,
{
    if i < 0 || i >= parts.len() {
        acc
    } else if parts[i] == seq!['l', 'u', 'i', 'd'] && i + 2 < parts.len() {
        scan_fields(
            parts,
            i + 3,
            InstanceFields { luid: Some(parts[i + 1].push('_') + parts[i + 2]), ..acc },
        )
    } else if parts[i] == seq!['p', 'h', 'y', 's'] && i + 1 < parts.len() {
        scan_fields(parts, i + 2, InstanceFields { phys: parse_u32_seq(parts[i + 1]), ..acc })
    } else if parts[i] == seq!['e', 'n', 'g'] && i + 1 < parts.len() {
        scan_fields(parts, i + 2, InstanceFields { eng: parse_u32_seq(parts[i + 1]), ..acc })
    } else if parts[i] == seq!['e', 'n', 'g', 't', 'y', 'p', 'e'] && i + 1 < parts.len() {
        InstanceFields { engtype: Some(join_seq(parts.skip(i + 1), '_')), ..acc }
    } else {
        scan_fields(parts, i + 1, acc)
    }
}

/// What an instance name means. The name is trimmed and ASCII-lower-cased;
/// it must then start with `pid_` and a run of digits that ends the name or
/// is followed by `_`, and whose value fits in `u32`. The other fields come
/// from `scan_fields` over the `_`-separated pieces of the lower-cased name.
pub open spec fn gpu_instance_spec(name: Seq<char>) -> Option<InstanceFields> {
    let lower = ascii_lower_seq(trim_seq(name));
    let rest = lower.skip(4);
    let d = leading_digits(rest) as int;
    if !(lower.len() >= 4 && lower.take(4) == seq!['p', 'i', 'd', '_']) {
        None
    } else if d == 0 || !(d == rest.len() || rest[d] == '_') {
        None
    } else {
        match parse_u32_seq(rest.take(d)) {
            None => None,
            Some(pid) => Some(
                scan_fields(
                    split_seq(lower, '_'),
                    0,
                    InstanceFields { pid, luid: None, phys: None, eng: None, engtype: None },
                ),
            ),
        }
    }
}

/// Instance names are read without regard to ASCII case: a name, its
/// lower-cased form and its upper-cased form mean the same.
pub proof fn lemma_instance_ignores_ascii_case(name: Seq<char>)
    ensures
        gpu_instance_spec(ascii_lower_seq(name)) == gpu_instance_spec(name),
        gpu_instance_spec(ascii_upper_seq(name)) == gpu_instance_spec(name),
{
    lemma_trim_lower_commute(name);
    lemma_trim_lower_commute(trim_seq(name));
    assert(ascii_lower_seq(trim_seq(ascii_lower_seq(name))) == ascii_lower_seq(trim_seq(name)));
    lemma_trim_lower_commute(ascii_upper_seq(name));
    lemma_lower_after_upper(name);
    assert(ascii_lower_seq(trim_seq(ascii_upper_seq(name))) == ascii_lower_seq(trim_seq(name)));
}

/// An optional text field without capital letters.
pub open spec fn opt_no_ascii_upper(o: Option<Seq<char>>) -> bool {
    match o {
        Some(s) => no_ascii_upper(s),
        None => true,
    }
}

/// Scanning the fields never changes the PID.
proof fn lemma_scan_keeps_pid(parts: Seq<Seq<char>>, i: int, acc: InstanceFields)
    ensures
        scan_fields(parts, i, acc).pid == acc.pid,
    decreases parts.len() - i,
{
    if 0 <= i < parts.len() {
        if parts[i] == seq!['l', 'u', 'i', 'd'] && i + 2 < parts.len() {
            lemma_scan_keeps_pid(
                parts,
                i + 3,
                InstanceFields { luid: Some(parts[i + 1].push('_') + parts[i + 2]), ..acc },
            );
        } else if parts[i] == seq!['p', 'h', 'y', 's'] && i + 1 < parts.len() {
            lemma_scan_keeps_pid(parts, i + 2, InstanceFields { phys: parse_u32_seq(parts[i + 1]), ..acc });
        } else if parts[i] == seq!['e', 'n', 'g'] && i + 1 < parts.len() {
            lemma_scan_keeps_pid(parts, i + 2, InstanceFields { eng: parse_u32_seq(parts[i + 1]), ..acc });
        } else if parts[i] == seq!['e', 'n', 'g', 't', 'y', 'p', 'e'] && i + 1 < parts.len() {
        } else {
            lemma_scan_keeps_pid(parts, i + 1, acc);
        }
    }
}

/// Scanning pieces without capital letters gives text fields without them.
proof fn lemma_scan_lower_fields(parts: Seq<Seq<char>>, i: int, acc: InstanceFields)
    requires
        forall|j: int| 0 <= j < parts.len() ==> no_ascii_upper(#[trigger] parts[j]),
        opt_no_ascii_upper(acc.luid),
        opt_no_ascii_upper(acc.engtype),
    ensures
        opt_no_ascii_upper(scan_fields(parts, i, acc).luid),
        opt_no_ascii_upper(scan_fields(parts, i, acc).engtype),
    decreases parts.len() - i,
{
    if 0 <= i < parts.len() {
        if parts[i] == seq!['l', 'u', 'i', 'd'] && i + 2 < parts.len() {
            let a = parts[i + 1].push('_');
            let b = parts[i + 2];
            assert(no_ascii_upper(parts[i + 1]));
            assert(no_ascii_upper(parts[i + 2]));
            let l = a + b;
            assert forall|k: int| 0 <= k < l.len() implies !('A' <= #[trigger] l[k] && l[k] <= 'Z') by {
                if k < a.len() - 1 {
                    assert(l[k] == parts[i + 1][k]);
                } else if k == a.len() - 1 {
                    assert(l[k] == '_');
                } else {
                    assert(l[k] == b[k - a.len()]);
                }
            }
            lemma_scan_lower_fields(parts, i + 3, InstanceFields { luid: Some(l), ..acc });
        } else if parts[i] == seq!['p', 'h', 'y', 's'] && i + 1 < parts.len() {
            lemma_scan_lower_fields(parts, i + 2, InstanceFields { phys: parse_u32_seq(parts[i + 1]), ..acc });
        } else if parts[i] == seq!['e', 'n', 'g'] && i + 1 < parts.len() {
            lemma_scan_lower_fields(parts, i + 2, InstanceFields { eng: parse_u32_seq(parts[i + 1]), ..acc });
        } else if parts[i] == seq!['e', 'n', 'g', 't', 'y', 'p', 'e'] && i + 1 < parts.len() {
            let rest = parts.skip(i + 1);
            assert forall|j: int| 0 <= j < rest.len() implies no_ascii_upper(#[trigger] rest[j]) by {
                assert(rest[j] == parts[j + i + 1]);
            }
            lemma_join_no_upper(rest, '_');
        } else {
            lemma_scan_lower_fields(parts, i + 1, acc);
        }
    }
}

/// The text fields of a parsed instance name are in lower case: neither the
/// luid nor the engine type holds an ASCII capital letter.
pub proof fn lemma_instance_fields_lower_case(name: Seq<char>)
    ensures
        match gpu_instance_spec(name) {
            Some(f) => opt_no_ascii_upper(f.luid) && opt_no_ascii_upper(f.engtype),
            None => true,
        },
{
    let lower = ascii_lower_seq(trim_seq(name));
    lemma_lower_after_upper(trim_seq(name));
    lemma_split_no_upper(lower, '_');
    if let Some(f) = gpu_instance_spec(name) {
        let rest = lower.skip(4);
        let d = leading_digits(rest) as int;
        let pid = parse_u32_seq(rest.take(d))->0;
        lemma_scan_lower_fields(
            split_seq(lower, '_'),
            0,
            InstanceFields { pid, luid: None, phys: None, eng: None, engtype: None },
        );
    }
}

/// A run of leading digits is never longer than the sequence.
proof fn lemma_leading_digits_bound(s: Seq<char>)
    ensures
        leading_digits(s) <= s.len(),
    decreases s.len(),
{
    if s.len() > 0 && is_digit(s[0]) {
        lemma_leading_digits_bound(s.drop_first());
    }
}

/// Appending to a sequence whose run of leading digits is already ended,
/// by a non-digit or by what is appended, keeps that run.
proof fn lemma_leading_digits_append(s: Seq<char>, t: Seq<char>)
    requires
        leading_digits(s) < s.len() || (t.len() > 0 && !is_digit(t[0])),
    ensures
        leading_digits(s + t) == leading_digits(s),
    decreases s.len(),
{
    lemma_leading_digits_bound(s);
    if s.len() == 0 {
        assert(s + t =~= t);
    } else {
        assert((s + t)[0] == s[0]);
        if is_digit(s[0]) {
            assert((s + t).drop_first() =~= s.drop_first() + t);
            lemma_leading_digits_append(s.drop_first(), t);
        }
    }
}

/// Drivers may add fields at the end of an instance name: a trimmed name
/// that parses still parses, to the same PID, after `_` and any further text
/// are appended to it.
pub proof fn lemma_instance_extra_fields_keep_pid(name: Seq<char>, x: Seq<char>)
    requires
        name == trim_seq(name),
        gpu_instance_spec(name) is Some,
    ensures
        gpu_instance_spec(name + seq!['_'] + x) is Some,
        gpu_instance_spec(name + seq!['_'] + x)->0.pid == gpu_instance_spec(name)->0.pid,
{
    let lower = ascii_lower_seq(name);
    assert(lower.take(4)[0] == 'p');
    assert(lower[0] == 'p');
    assert(lower[0] == ascii_lower(name[0]));
    assert(!is_white_space(name[0]));
    let a = name + seq!['_'];
    let n2 = a + x;
    assert(n2[0] == name[0]);
    assert(trim_start_seq(n2) == n2);
    lemma_trim_end_append(a, x);
    let y = trim_end_seq(x);
    assert(trim_seq(n2) == a + y);
    let lower2 = ascii_lower_seq(a + y);
    let ly = ascii_lower_seq(y);
    assert(lower2 =~= lower + seq!['_'] + ly);
    assert(lower2.take(4) =~= lower.take(4));
    let rest = lower.skip(4);
    let t = seq!['_'] + ly;
    let rest2 = lower2.skip(4);
    assert(rest2 =~= rest + t);
    let d = leading_digits(rest) as int;
    lemma_leading_digits_bound(rest);
    lemma_leading_digits_append(rest, t);
    assert(leading_digits(rest2) == d);
    assert(rest2[d] == '_');
    assert(rest2.take(d) =~= rest.take(d));
    let pid = parse_u32_seq(rest.take(d))->0;
    lemma_scan_keeps_pid(
        split_seq(lower2, '_'),
        0,
        InstanceFields { pid, luid: None, phys: None, eng: None, engtype: None },
    );
    lemma_scan_keeps_pid(
        split_seq(lower, '_'),
        0,
        InstanceFields { pid, luid: None, phys: None, eng: None, engtype: None },
    );
}


/// Parse a GPU counter instance name.
///
/// Returns `None` unless the name starts with `pid_` followed by digits.
/// Missing trailing segments are tolerated so that driver revisions which add
/// new fields do not break parsing.
pub fn parse_gpu_instance(name: &str) -> (r: Option<GpuInstance>)
    ensures
        opt_instance_view(r) == gpu_instance_spec(name@),
{
    let trimmed = trim_str(name);
    let lower = lower_chars(trimmed);
    let ghost rest = lower@.skip(4);
    let n = lower.len();
    if !(n >= 4 && lower[0] == 'p' && lower[1] == 'i' && lower[2] == 'd' && lower[3] == '_') {
        proof {
            if lower@.len() >= 4 && lower@.take(4) == seq!['p', 'i', 'd', '_'] {
                assert(lower@.take(4)[0] == 'p');
                assert(lower@.take(4)[1] == 'i');
                assert(lower@.take(4)[2] == 'd');
                assert(lower@.take(4)[3] == '_');
            }
        }
        return None;
    }
    assert(lower@.take(4) =~= seq!['p', 'i', 'd', '_']);
    // PID: leading run of digits, terminated by `_` or the end of the name.
    let mut k: usize = 4;
    assert(rest.skip(0) =~= rest);
    while k < n && '0' <= lower[k] && lower[k] <= '9'
        invariant
            4 <= k <= n,
            n == lower@.len(),
            rest == lower@.skip(4),
            leading_digits(rest.skip(k - 4)) + (k - 4) == leading_digits(rest),
        decreases n - k,
    {
        assert(rest.skip(k - 4).drop_first() =~= rest.skip(k + 1 - 4));
        k = k + 1;
    }
    proof {
        if k < n {
            assert(rest.skip(k - 4)[0] == lower@[k as int]);
        }
        assert(rest.skip(k - 4).len() == 0 || !is_digit(rest.skip(k - 4)[0]));
    }
    let d = k - 4;
    if d == 0 {
        return None;
    }
    if k < n && lower[k] != '_' {
        return None;
    }
    let digits = slice_chars(&lower, 4, k);
    assert(digits@ =~= rest.take(d as int));
    let pid = match parse_u32_chars(digits.as_slice()) {
        Some(p) => p,
        None => {
            return None;
        },
    };
    let parts = split_chars(&lower, '_');
    let ghost pv = char_vecs_view(parts@);
    let mut inst = GpuInstance { pid, luid: None, phys: None, eng: None, engtype: None };
    let luid_w: [char; 4] = ['l', 'u', 'i', 'd'];
    let phys_w: [char; 4] = ['p', 'h', 'y', 's'];
    let eng_w: [char; 3] = ['e', 'n', 'g'];
    let engtype_w: [char; 7] = ['e', 'n', 'g', 't', 'y', 'p', 'e'];
    assert(luid_w@ =~= seq!['l', 'u', 'i', 'd']);
    assert(phys_w@ =~= seq!['p', 'h', 'y', 's']);
    assert(eng_w@ =~= seq!['e', 'n', 'g']);
    assert(engtype_w@ =~= seq!['e', 'n', 'g', 't', 'y', 'p', 'e']);
    let ghost target = scan_fields(
        pv,
        0,
        InstanceFields { pid, luid: None, phys: None, eng: None, engtype: None },
    );
    assert(gpu_instance_spec(name@) == Some(target));
    let np = parts.len();
    let mut i: usize = 0;
    while i < np
        invariant
            np == parts@.len(),
            pv == char_vecs_view(parts@),
            i <= np,
            scan_fields(pv, i as int, inst@) == target,
            gpu_instance_spec(name@) == Some(target),
            luid_w@ == seq!['l', 'u', 'i', 'd'],
            phys_w@ == seq!['p', 'h', 'y', 's'],
            eng_w@ == seq!['e', 'n', 'g'],
            engtype_w@ == seq!['e', 'n', 'g', 't', 'y', 'p', 'e'],
        decreases np - i,
    {
        let part = &parts[i];
        assert(pv[i as int] == part@);
        if chars_equal(part, &luid_w) && np - i > 2 {
            let mut l = Vec::new();
            extend_chars(&mut l, &parts[i + 1]);
            l.push('_');
            extend_chars(&mut l, &parts[i + 2]);
            assert(l@ =~= pv[i + 1].push('_') + pv[i + 2]);
            inst.luid = Some(string_from_chars(&l));
            i = i + 3;
        } else if chars_equal(part, &phys_w) && np - i > 1 {
            inst.phys = parse_u32_chars(parts[i + 1].as_slice());
            i = i + 2;
        } else if chars_equal(part, &eng_w) && np - i > 1 {
            inst.eng = parse_u32_chars(parts[i + 1].as_slice());
            i = i + 2;
        } else if chars_equal(part, &engtype_w) && np - i > 1 {
            let t = join_chars_from(&parts, i + 1, '_');
            let ghost before = inst@;
            inst.engtype = Some(string_from_chars(&t));
            assert(t@ == join_seq(pv.skip(i + 1), '_'));
            assert(scan_fields(pv, i as int, before) == InstanceFields {
                engtype: Some(join_seq(pv.skip(i + 1), '_')),
                ..before
            });
            assert(inst@ == InstanceFields { engtype: Some(join_seq(pv.skip(i + 1), '_')), ..before });
            return Some(inst);
        } else {
            i = i + 1;
        }
    }
    Some(inst)
}

/// The characters `v[from..to]`.
fn slice_chars(v: &Vec<char>, from: usize, to: usize) -> (r: Vec<char>)
    requires
        from <= to <= v@.len(),
    ensures
        r@ == v@.subrange(from as int, to as int),
{
    let mut out: Vec<char> = Vec::new();
    let mut i = from;
    while i < to
        invariant
            from <= i <= to,
            to <= v@.len(),
            out@ =~= v@.subrange(from as int, i as int),
        decreases to - i,
    {
        out.push(v[i]);
        i = i + 1;
    }
    out
}

/// The PID of an instance name, when the name parses.
pub fn extract_pid(instance: &str) -> (r: Option<u32>)
    ensures
        r == (match gpu_instance_spec(instance@) {
            Some(f) => Some(f.pid),
            None => None,
        }),
{
    match parse_gpu_instance(instance) {
        Some(i) => Some(i.pid),
        None => None,
    }
}


/// In valid UTF-8, the position just after an ASCII byte starts a character.
proof fn lemma_boundary_after_ascii(bytes: Seq<u8>, i: int)
    requires
        valid_utf8(bytes),
        0 <= i < bytes.len(),
        bytes[i] < 0x80,
    ensures
        is_char_boundary(bytes, i + 1),
    decreases bytes.len(),
{
    let l = length_of_first_scalar(bytes);
    assert(1 <= l <= 4 && l <= bytes.len());
    let tail = pop_first_scalar(bytes);
    assert(valid_utf8(tail));
    if i == 0 {
        assert(bytes[0] < 0x80);
        assert(l == 1);
        assert(is_char_boundary(tail, 0));
    } else {
        if i < l {
            assert(is_continuation_byte(bytes[i]));
            assert(false);
        }
        assert(tail[i - l] == bytes[i]);
        lemma_boundary_after_ascii(tail, i - l);
    }
}

/// Where the instance name sits in a counter path, as byte positions: just
/// after the first `(`, up to the first `)` that follows it; no span when
/// either is missing or the parentheses are empty.
pub open spec fn instance_span(b: Seq<u8>) -> Option<(int, int)> {
    match find_byte(b, 0x28, 0) {
        None => None,
        Some(open) => match find_byte(b, 0x29, open + 1) {
            None => None,
            Some(close) => if close == open + 1 {
                None
            } else {
                Some((open + 1, close))
            },
        },
    }
}

proof fn lemma_find_byte_bounds(b: Seq<u8>, x: u8, from: int)
    ensures
        find_byte(b, x, from) matches Some(k) ==> from <= k < b.len() && b[k] == x,
    decreases b.len() - from,
{
    if 0 <= from < b.len() && b[from] != x {
        lemma_find_byte_bounds(b, x, from + 1);
    }
}

/// Extract the instance name from a full counter path such as
/// `\\HOST\GPU Process Memory(pid_1234_luid_..._phys_0)\Dedicated Usage`.
///
/// PowerShell's `Get-Counter` reports `.Path` (not `.InstanceName`) for the
/// memory counters, so the instance has to be unwrapped from the parentheses
/// before it can be parsed.
pub fn instance_from_path(path: &str) -> (r: Option<&str>)
    ensures
        match r {
            None => instance_span(path.spec_bytes()) is None,
            Some(inner) => instance_span(path.spec_bytes()) matches Some((a, c))
                && inner.spec_bytes() == path.spec_bytes().subrange(a, c),
        },
{
    let b = path.as_bytes();
    let open = match find_byte_from(b, 0x28, 0) {
        Some(k) => k,
        None => {
            return None;
        },
    };
    proof {
        lemma_find_byte_bounds(b@, 0x28, 0);
    }
    let n = b.len();
    assert(open < n);
    let close = match find_byte_from(b, 0x29, open + 1) {
        Some(k) => k,
        None => {
            return None;
        },
    };
    if close == open + 1 {
        return None;
    }
    proof {
        lemma_find_byte_bounds(b@, 0x28, 0);
        lemma_find_byte_bounds(b@, 0x29, open + 1);
        encode_utf8_valid_utf8(path@);
        lemma_boundary_after_ascii(b@, open as int);
    }
    let (_, tail) = path.split_at(open + 1);
    let ghost tb = tail.spec_bytes();
    assert(tb =~= b@.subrange(open + 1, b@.len() as int));
    proof {
        encode_utf8_valid_utf8(tail@);
        assert(tb[close - open - 1] == 0x29);
        is_char_boundary_iff_not_is_continuation_byte(tb, close - open - 1);
    }
    let (inner, _) = tail.split_at(close - open - 1);
    assert(inner.spec_bytes() =~= b@.subrange(open + 1, close as int));
    Some(inner)
}

/// What `extract_pid_from_path` reads: after the first `pid_` of the
/// ASCII-lower-cased path, the run of ASCII digits, when there is at least one
/// and its value fits in `u32`.
pub open spec fn path_pid_spec(path: Seq<char>) -> Option<u32> {
    let lower = ascii_lower_seq(path);
    match find_from(lower, seq!['p', 'i', 'd', '_'], 0) {
        None => None,
        Some(at) => {
            let rest = lower.skip(at + 4);
            let d = leading_digits(rest) as int;
            if d == 0 {
                None
            } else {
                parse_u32_seq(rest.take(d))
            }
        },
    }
}

proof fn lemma_find_from_bounds(s: Seq<char>, pat: Seq<char>, from: int)
    ensures
        find_from(s, pat, from) matches Some(k) ==> from <= k && k + pat.len() <= s.len(),
    decreases s.len() - from,
{
    if 0 <= from && from + pat.len() <= s.len() && !(pat.len() == 0 || s.subrange(
        from,
        from + pat.len(),
    ) == pat) {
        lemma_find_from_bounds(s, pat, from + 1);
    }
}

/// Extract a PID from a full counter path such as
/// `\\HOST\GPU Process Memory(pid_1234_luid_..._phys_0)\Dedicated Usage`.
pub fn extract_pid_from_path(path: &str) -> (r: Option<u32>)
    ensures
        r == path_pid_spec(path@),
{
    let lower = lower_chars(path);
    let pat = vec!['p', 'i', 'd', '_'];
    assert(pat@ =~= seq!['p', 'i', 'd', '_']);
    let at = match find_chars(&lower, &pat, 0) {
        Some(k) => k,
        None => {
            return None;
        },
    };
    proof {
        lemma_find_from_bounds(lower@, pat@, 0);
    }
    let n = lower.len();
    assert(at + 4 <= n);
    let start = at + 4;
    let ghost rest = lower@.skip(start as int);
    let mut k = start;
    assert(rest.skip(0) =~= rest);
    while k < n && '0' <= lower[k] && lower[k] <= '9'
        invariant
            start <= k <= n,
            n == lower@.len(),
            rest == lower@.skip(start as int),
            leading_digits(rest.skip(k - start)) + (k - start) == leading_digits(rest),
        decreases n - k,
    {
        assert(rest.skip(k - start).drop_first() =~= rest.skip(k + 1 - start));
        k = k + 1;
    }
    proof {
        if k < n {
            assert(rest.skip(k - start)[0] == lower@[k as int]);
        }
        assert(rest.skip(k - start).len() == 0 || !is_digit(rest.skip(k - start)[0]));
    }
    if k == start {
        return None;
    }
    let digits = slice_chars(&lower, start, k);
    assert(digits@ =~= rest.take(k - start));
    parse_u32_chars(digits.as_slice())
}

/// Which `GPU Process Memory` counter a path refers to.
#[derive(Debug, Clone, Copy, PartialEq, Eq, Structural)]
pub enum MemoryCounter {
    Dedicated,
    Shared,
    Local,
    NonLocal,
    Other,
}

/// The part of a lower-cased path that names the counter: from the last `)`
/// to the end, or the whole path when it has no `)`.
pub open spec fn counter_tail(lower: Seq<char>) -> Seq<char> {
    match last_index_of(lower, ')') {
        Some(k) => lower.skip(k),
        None => lower,
    }
}

/// How a counter path is classified: the first of `dedicated usage`,
/// `shared usage`, `non local usage` and `local usage` that occurs in the
/// lower-cased counter tail decides; otherwise `Other`.
pub open spec fn memory_counter_spec(path: Seq<char>) -> MemoryCounter {
    let tail = counter_tail(ascii_lower_seq(path));
    if contains_seq(tail, "dedicated usage"@) {
        MemoryCounter::Dedicated
    } else if contains_seq(tail, "shared usage"@) {
        MemoryCounter::Shared
    } else if contains_seq(tail, "non local usage"@) {
        MemoryCounter::NonLocal
    } else if contains_seq(tail, "local usage"@) {
        MemoryCounter::Local
    } else {
        MemoryCounter::Other
    }
}

/// Classify the counter name at the end of a PDH counter path.
pub fn classify_memory_counter(path: &str) -> (r: MemoryCounter)
    ensures
        r == memory_counter_spec(path@),
{
    let lower = lower_chars(path);
    let tail = match rfind_char(&lower, ')') {
        Some(idx) => {
            proof {
                lemma_last_index_bound(lower@, ')');
            }
            slice_chars(&lower, idx, lower.len())
        },
        None => lower,
    };
    if find_chars(&tail, &chars_of("dedicated usage"), 0).is_some() {
        MemoryCounter::Dedicated
    } else if find_chars(&tail, &chars_of("shared usage"), 0).is_some() {
        MemoryCounter::Shared
    } else if find_chars(&tail, &chars_of("non local usage"), 0).is_some() {
        MemoryCounter::NonLocal
    } else if find_chars(&tail, &chars_of("local usage"), 0).is_some() {
        MemoryCounter::Local
    } else {
        MemoryCounter::Other
    }
}

proof fn lemma_last_index_bound(s: Seq<char>, c: char)
    ensures
        last_index_of(s, c) matches Some(k) ==> 0 <= k < s.len(),
    decreases s.len(),
{
    if s.len() > 0 && s.last() != c {
        lemma_last_index_bound(s.drop_last(), c);
    }
}

/// Where a PowerShell `instance=value` line splits: at its last `=` byte.
pub open spec fn ps_pair_split(b: Seq<u8>) -> Option<int> {
    last_byte(b, 0x3d)
}

proof fn lemma_last_byte_bound(b: Seq<u8>, x: u8)
    ensures
        last_byte(b, x) matches Some(k) ==> 0 <= k < b.len() && b[k] == x,
    decreases b.len(),
{
    if b.len() > 0 && b.last() != x {
        lemma_last_byte_bound(b.drop_last(), x);
    }
}

/// Split one `instance=value` line, as emitted by the PowerShell fallback,
/// at its last `=`; both sides are returned trimmed. Reading the value as a
/// number is left to the caller.
pub fn split_ps_pair(line: &str) -> (r: Option<(&str, &str)>)
    ensures
        match r {
            None => ps_pair_split(line.spec_bytes()) is None,
            Some((lhs, rhs)) => ps_pair_split(line.spec_bytes()) matches Some(k) && lhs@
                == trim_seq(decode_utf8(line.spec_bytes().take(k))) && rhs@ == trim_seq(
                decode_utf8(line.spec_bytes().skip(k + 1)),
            ),
        },
{
    let b = line.as_bytes();
    let k = match rfind_byte(b, 0x3d) {
        Some(k) => k,
        None => {
            return None;
        },
    };
    proof {
        lemma_last_byte_bound(b@, 0x3d);
        encode_utf8_valid_utf8(line@);
        is_char_boundary_iff_not_is_continuation_byte(b@, k as int);
        lemma_boundary_after_ascii(b@, k as int);
    }
    let (lhs, tail) = line.split_at(k);
    proof {
        encode_utf8_decode_utf8(lhs@);
        encode_utf8_valid_utf8(tail@);
        is_char_boundary_iff_not_is_continuation_byte(tail.spec_bytes(), 0);
    }
    assert(tail.spec_bytes()[0] == 0x3d);
    proof {
        lemma_boundary_after_ascii(tail.spec_bytes(), 0);
    }
    let (_, rhs) = tail.split_at(1);
    proof {
        encode_utf8_decode_utf8(rhs@);
    }
    assert(rhs.spec_bytes() =~= b@.skip(k + 1));
    assert(lhs.spec_bytes() =~= b@.take(k as int));
    Some((trim_str(lhs), trim_str(rhs)))
}


/// Per-process GPU usage, aggregated across all engines and adapters.
#[derive(Debug, Clone, Copy, Default, PartialEq, Eq, Structural)]
pub struct ProcessGpuUsage {
    pub pid: u32,
    /// The highest single-engine utilization seen for this process, as the
    /// bit pattern of the sampled percentage (`f64::to_bits`). Samples are
    /// finite and non-negative, and for such numbers the bit patterns are
    /// ordered as the numbers are, so the largest pattern is the largest
    /// percentage.
    pub utilization: u64,
    /// Dedicated (on-card) VRAM in bytes.
    pub dedicated_vram: u64,
    /// Shared (system) GPU memory in bytes.
    pub shared_vram: u64,
}

/// The aggregate for `pid`, or a fresh zero one when the map has none.
pub open spec fn usage_entry(m: Map<u32, ProcessGpuUsage>, pid: u32) -> ProcessGpuUsage {
    if m.contains_key(pid) {
        m[pid]
    } else {
        ProcessGpuUsage { pid, utilization: 0, dedicated_vram: 0, shared_vram: 0 }
    }
}

/// `a + b`, clamped at `u64::MAX`.
pub open spec fn sat_add(a: u64, b: u64) -> u64 {
    if a + b > u64::MAX {
        u64::MAX
    } else {
        (a + b) as u64
    }
}

/// One utilization sample folded into the aggregate: samples whose instance
/// name does not parse are ignored; otherwise the process's entry exists
/// afterwards and holds the larger of its utilization and the sample.
pub open spec fn fold_utilization_spec(
    m: Map<u32, ProcessGpuUsage>,
    instance: Seq<char>,
    utilization: u64,
) -> Map<u32, ProcessGpuUsage> {
    match gpu_instance_spec(instance) {
        None => m,
        Some(f) => {
            let e = usage_entry(m, f.pid);
            m.insert(
                f.pid,
                ProcessGpuUsage {
                    utilization: if utilization > e.utilization {
                        utilization
                    } else {
                        e.utilization
                    },
                    ..e
                },
            )
        },
    }
}

/// One memory sample folded into the aggregate: only `Dedicated` and
/// `Shared` samples with a parsable instance name count; they are added to
/// the process's matching total, clamped at `u64::MAX`.
pub open spec fn fold_memory_spec(
    m: Map<u32, ProcessGpuUsage>,
    instance: Seq<char>,
    counter: MemoryCounter,
    bytes: u64,
) -> Map<u32, ProcessGpuUsage> {
    if !(counter == MemoryCounter::Dedicated || counter == MemoryCounter::Shared) {
        m
    } else {
        match gpu_instance_spec(instance) {
            None => m,
            Some(f) => {
                let e = usage_entry(m, f.pid);
                if counter == MemoryCounter::Dedicated {
                    m.insert(
                        f.pid,
                        ProcessGpuUsage { dedicated_vram: sat_add(e.dedicated_vram, bytes), ..e },
                    )
                } else {
                    m.insert(
                        f.pid,
                        ProcessGpuUsage { shared_vram: sat_add(e.shared_vram, bytes), ..e },
                    )
                }
            },
        }
    }
}

fn usage_for(map: &HashMap<u32, ProcessGpuUsage>, pid: u32) -> (r: ProcessGpuUsage)
    ensures
        r == usage_entry(map@, pid),
{
    broadcast use vstd::std_specs::hash::group_hash_axioms;

    match map.get(&pid) {
        Some(e) => *e,
        None => ProcessGpuUsage { pid, utilization: 0, dedicated_vram: 0, shared_vram: 0 },
    }
}

/// Fold a single `(instance, utilization)` sample into the aggregate map.
///
/// Utilization is reported per engine; a process may be busy on several
/// engines at once. The aggregate keeps the *maximum* single-engine value,
/// which is what Task Manager's "GPU" column shows. `utilization` is the bit
/// pattern of a finite, non-negative percentage.
pub fn fold_utilization(map: &mut HashMap<u32, ProcessGpuUsage>, instance: &str, utilization: u64)
    ensures
        final(map)@ == fold_utilization_spec(old(map)@, instance@, utilization),
{
    broadcast use vstd::std_specs::hash::group_hash_axioms;

    let inst = match parse_gpu_instance(instance) {
        Some(i) => i,
        None => {
            return;
        },
    };
    let mut entry = usage_for(map, inst.pid);
    if utilization > entry.utilization {
        entry.utilization = utilization;
    }
    map.insert(inst.pid, entry);
}

/// Fold a single memory sample into the aggregate map.
///
/// A process can hold allocations on several adapters (dual-GPU machines emit
/// one instance per `phys_N`), so memory is **summed** across instances.
/// Counters other than Dedicated/Shared are ignored to avoid double counting.
pub fn fold_memory(
    map: &mut HashMap<u32, ProcessGpuUsage>,
    instance: &str,
    counter: MemoryCounter,
    bytes: u64,
)
    ensures
        final(map)@ == fold_memory_spec(old(map)@, instance@, counter, bytes),
{
    broadcast use vstd::std_specs::hash::group_hash_axioms;

    let dedicated = match counter {
        MemoryCounter::Dedicated => true,
        MemoryCounter::Shared => false,
        _ => {
            return;
        },
    };
    let inst = match parse_gpu_instance(instance) {
        Some(i) => i,
        None => {
            return;
        },
    };
    let mut entry = usage_for(map, inst.pid);
    if dedicated {
        entry.dedicated_vram = entry.dedicated_vram.saturating_add(bytes);
    } else {
        entry.shared_vram = entry.shared_vram.saturating_add(bytes);
    }
    map.insert(inst.pid, entry);
}

/// Each kind of sample touches only its own totals. A memory sample never
/// changes the utilization recorded for any process (an entry it creates
/// starts at zero utilization), so folding utilization first and memory
/// afterwards, as each refresh does, keeps both.
pub proof fn lemma_fold_memory_keeps_utilization(
    m: Map<u32, ProcessGpuUsage>,
    instance: Seq<char>,
    counter: MemoryCounter,
    bytes: u64,
    pid: u32,
)
    ensures
        m.contains_key(pid) ==> fold_memory_spec(m, instance, counter, bytes).contains_key(pid)
            && fold_memory_spec(m, instance, counter, bytes)[pid].utilization == m[pid].utilization,
        !m.contains_key(pid) && fold_memory_spec(m, instance, counter, bytes).contains_key(pid)
            ==> fold_memory_spec(m, instance, counter, bytes)[pid].utilization == 0,
{
}

/// A utilization sample never changes the memory recorded for any process
/// (an entry it creates starts with no memory).
pub proof fn lemma_fold_utilization_keeps_memory(
    m: Map<u32, ProcessGpuUsage>,
    instance: Seq<char>,
    utilization: u64,
    pid: u32,
)
    ensures
        m.contains_key(pid) ==> {
            let r = fold_utilization_spec(m, instance, utilization);
            &&& r.contains_key(pid)
            &&& r[pid].dedicated_vram == m[pid].dedicated_vram
            &&& r[pid].shared_vram == m[pid].shared_vram
        },
        !m.contains_key(pid) && fold_utilization_spec(m, instance, utilization).contains_key(pid)
            ==> fold_utilization_spec(m, instance, utilization)[pid].dedicated_vram == 0
            && fold_utilization_spec(m, instance, utilization)[pid].shared_vram == 0,
{
}

/// A memory sample adds to exactly one total: for a dedicated or shared
/// sample whose instance names a process, that process's total of that kind
/// grows by the sample (clamped at `u64::MAX`), and its other total, and
/// every other process's entry, stay as they were. Other samples change
/// nothing.
pub proof fn lemma_fold_memory_adds_to_one_total(
    m: Map<u32, ProcessGpuUsage>,
    instance: Seq<char>,
    counter: MemoryCounter,
    bytes: u64,
    pid: u32,
)
    requires
        m.contains_key(pid),
    ensures
        ({
            let r = fold_memory_spec(m, instance, counter, bytes);
            let hit = gpu_instance_spec(instance) matches Some(f) && f.pid == pid;
            &&& r.contains_key(pid)
            &&& r[pid].dedicated_vram == if hit && counter == MemoryCounter::Dedicated {
                if m[pid].dedicated_vram + bytes > u64::MAX {
                    u64::MAX
                } else {
                    (m[pid].dedicated_vram + bytes) as u64
                }
            } else {
                m[pid].dedicated_vram
            }
            &&& r[pid].shared_vram == if hit && counter == MemoryCounter::Shared {
                if m[pid].shared_vram + bytes > u64::MAX {
                    u64::MAX
                } else {
                    (m[pid].shared_vram + bytes) as u64
                }
            } else {
                m[pid].shared_vram
            }
            &&& !hit ==> r[pid] == m[pid]
        }),
{
}

/// The order in which utilization samples arrive does not matter: folding
/// two samples in either order gives the same aggregate.
pub proof fn lemma_fold_utilization_commutes(
    m: Map<u32, ProcessGpuUsage>,
    a: Seq<char>,
    ua: u64,
    b: Seq<char>,
    ub: u64,
)
    ensures
        fold_utilization_spec(fold_utilization_spec(m, a, ua), b, ub) == fold_utilization_spec(
            fold_utilization_spec(m, b, ub),
            a,
            ua,
        ),
{
    assert(fold_utilization_spec(fold_utilization_spec(m, a, ua), b, ub) =~= fold_utilization_spec(
        fold_utilization_spec(m, b, ub),
        a,
        ua,
    ));
}

/// The order in which memory samples arrive does not matter: folding two
/// samples in either order gives the same aggregate.
pub proof fn lemma_fold_memory_commutes(
    m: Map<u32, ProcessGpuUsage>,
    a: Seq<char>,
    ca: MemoryCounter,
    ba: u64,
    b: Seq<char>,
    cb: MemoryCounter,
    bb: u64,
)
    ensures
        fold_memory_spec(fold_memory_spec(m, a, ca, ba), b, cb, bb) == fold_memory_spec(
            fold_memory_spec(m, b, cb, bb),
            a,
            ca,
            ba,
        ),
{
    assert(fold_memory_spec(fold_memory_spec(m, a, ca, ba), b, cb, bb) =~= fold_memory_spec(
        fold_memory_spec(m, b, cb, bb),
        a,
        ca,
        ba,
    ));
}


/// The PID an instance name refers to, when it parses.
pub open spec fn sample_pid(instance: Seq<char>) -> Option<u32> {
    match gpu_instance_spec(instance) {
        Some(f) => Some(f.pid),
        None => None,
    }
}

/// Utilization samples `(instance name, utilization)` folded in one after
/// another.
pub open spec fn fold_utilization_all(
    m: Map<u32, ProcessGpuUsage>,
    samples: Seq<(Seq<char>, u64)>,
) -> Map<u32, ProcessGpuUsage>
    decreases samples.len(),
{
    if samples.len() == 0 {
        m
    } else {
        fold_utilization_spec(
            fold_utilization_all(m, samples.drop_last()),
            samples.last().0,
            samples.last().1,
        )
    }
}

/// Some sample names `pid`.
pub open spec fn samples_name_pid<S>(samples: Seq<(Seq<char>, S)>, pid: u32) -> bool {
    exists|i: int| 0 <= i < samples.len() && sample_pid(#[trigger] samples[i].0) == Some(pid)
}

/// The largest utilization among the samples of `pid` (0 when none).
pub open spec fn max_utilization(samples: Seq<(Seq<char>, u64)>, pid: u32) -> u64
    decreases samples.len(),
{
    if samples.len() == 0 {
        0
    } else {
        let r = max_utilization(samples.drop_last(), pid);
        if sample_pid(samples.last().0) == Some(pid) && samples.last().1 > r {
            samples.last().1
        } else {
            r
        }
    }
}

/// Utilization is the maximum across engines: after folding any samples
/// into an empty aggregate, a process has an entry exactly when some sample
/// names it, and the entry's utilization is the largest of its samples.
pub proof fn lemma_utilization_is_max_across_engines(samples: Seq<(Seq<char>, u64)>, pid: u32)
    ensures
        fold_utilization_all(Map::empty(), samples).contains_key(pid) == samples_name_pid(
            samples,
            pid,
        ),
        samples_name_pid(samples, pid) ==> fold_utilization_all(Map::empty(), samples)[pid]
            == (ProcessGpuUsage {
            pid,
            utilization: max_utilization(samples, pid),
            dedicated_vram: 0,
            shared_vram: 0,
        }),
    decreases samples.len(),
{
    if samples.len() > 0 {
        let init = samples.drop_last();
        lemma_utilization_is_max_across_engines(init, pid);
        assert(samples_name_pid(samples, pid) == (samples_name_pid(init, pid) || sample_pid(
            samples.last().0,
        ) == Some(pid))) by {
            if samples_name_pid(samples, pid) && !(sample_pid(samples.last().0) == Some(pid)) {
                let i = choose|i: int|
                    0 <= i < samples.len() && sample_pid(#[trigger] samples[i].0) == Some(pid);
                assert(init[i] == samples[i]);
            }
            if samples_name_pid(init, pid) {
                let i = choose|i: int|
                    0 <= i < init.len() && sample_pid(#[trigger] init[i].0) == Some(pid);
                assert(init[i] == samples[i]);
            }
            if sample_pid(samples.last().0) == Some(pid) {
                assert(samples[samples.len() - 1] == samples.last());
            }
        }
        if !samples_name_pid(init, pid) {
            assert(max_utilization(init, pid) == 0) by {
                lemma_max_utilization_absent(init, pid);
            }
        }
    }
}

proof fn lemma_max_utilization_absent(samples: Seq<(Seq<char>, u64)>, pid: u32)
    requires
        !samples_name_pid(samples, pid),
    ensures
        max_utilization(samples, pid) == 0,
    decreases samples.len(),
{
    if samples.len() > 0 {
        let init = samples.drop_last();
        assert(sample_pid(samples[samples.len() - 1].0) != Some(pid));
        assert(!samples_name_pid(init, pid)) by {
            if samples_name_pid(init, pid) {
                let i = choose|i: int|
                    0 <= i < init.len() && sample_pid(#[trigger] init[i].0) == Some(pid);
                assert(init[i] == samples[i]);
            }
        }
        lemma_max_utilization_absent(init, pid);
    }
}

/// Memory samples `(instance name, counter, bytes)` folded in one after
/// another.
pub open spec fn fold_memory_all(
    m: Map<u32, ProcessGpuUsage>,
    samples: Seq<(Seq<char>, (MemoryCounter, u64))>,
) -> Map<u32, ProcessGpuUsage>
    decreases samples.len(),
{
    if samples.len() == 0 {
        m
    } else {
        fold_memory_spec(
            fold_memory_all(m, samples.drop_last()),
            samples.last().0,
            samples.last().1.0,
            samples.last().1.1,
        )
    }
}

/// The bytes of all samples of counter `c` for `pid`, added up.
pub open spec fn memory_sum(
    samples: Seq<(Seq<char>, (MemoryCounter, u64))>,
    pid: u32,
    c: MemoryCounter,
) -> nat
    decreases samples.len(),
{
    if samples.len() == 0 {
        0
    } else {
        memory_sum(samples.drop_last(), pid, c) + if sample_pid(samples.last().0) == Some(pid)
            && samples.last().1.0 == c {
            samples.last().1.1 as nat
        } else {
            0
        }
    }
}

/// Some `Dedicated` or `Shared` sample names `pid`.
pub open spec fn memory_samples_name_pid(
    samples: Seq<(Seq<char>, (MemoryCounter, u64))>,
    pid: u32,
) -> bool {
    exists|i: int|
        0 <= i < samples.len() && sample_pid(#[trigger] samples[i].0) == Some(pid) && (
        samples[i].1.0 == MemoryCounter::Dedicated || samples[i].1.0 == MemoryCounter::Shared)
}

/// `n`, clamped at `u64::MAX`.
pub open spec fn clamp_sum(n: nat) -> u64 {
    if n > u64::MAX {
        u64::MAX
    } else {
        n as u64
    }
}

/// Memory is summed across adapters: after folding any samples into an
/// empty aggregate, a process has an entry exactly when some `Dedicated` or
/// `Shared` sample names it, and the entry holds the sums of its `Dedicated`
/// and of its `Shared` samples, each clamped at `u64::MAX`; `Local`,
/// `NonLocal` and `Other` samples add nothing.
pub proof fn lemma_memory_is_summed_across_adapters(
    samples: Seq<(Seq<char>, (MemoryCounter, u64))>,
    pid: u32,
)
    ensures
        fold_memory_all(Map::empty(), samples).contains_key(pid) == memory_samples_name_pid(
            samples,
            pid,
        ),
        memory_samples_name_pid(samples, pid) ==> fold_memory_all(Map::empty(), samples)[pid]
            == (ProcessGpuUsage {
            pid,
            utilization: 0,
            dedicated_vram: clamp_sum(memory_sum(samples, pid, MemoryCounter::Dedicated)),
            shared_vram: clamp_sum(memory_sum(samples, pid, MemoryCounter::Shared)),
        }),
    decreases samples.len(),
{
    if samples.len() > 0 {
        let init = samples.drop_last();
        let last = samples.last();
        lemma_memory_is_summed_across_adapters(init, pid);
        let counts = sample_pid(last.0) == Some(pid) && (last.1.0 == MemoryCounter::Dedicated
            || last.1.0 == MemoryCounter::Shared);
        assert(memory_samples_name_pid(samples, pid) == (memory_samples_name_pid(init, pid)
            || counts)) by {
            if memory_samples_name_pid(samples, pid) && !counts {
                let i = choose|i: int|
                    0 <= i < samples.len() && sample_pid(#[trigger] samples[i].0) == Some(pid) && (
                    samples[i].1.0 == MemoryCounter::Dedicated || samples[i].1.0
                        == MemoryCounter::Shared);
                assert(init[i] == samples[i]);
            }
            if memory_samples_name_pid(init, pid) {
                let i = choose|i: int|
                    0 <= i < init.len() && sample_pid(#[trigger] init[i].0) == Some(pid) && (
                    init[i].1.0 == MemoryCounter::Dedicated || init[i].1.0
                        == MemoryCounter::Shared);
                assert(init[i] == samples[i]);
            }
            if counts {
                assert(samples[samples.len() - 1] == last);
            }
        }
        if !memory_samples_name_pid(init, pid) {
            lemma_memory_sum_absent(init, pid);
        }
    }
}

proof fn lemma_memory_sum_absent(samples: Seq<(Seq<char>, (MemoryCounter, u64))>, pid: u32)
    requires
        !memory_samples_name_pid(samples, pid),
    ensures
        memory_sum(samples, pid, MemoryCounter::Dedicated) == 0,
        memory_sum(samples, pid, MemoryCounter::Shared) == 0,
    decreases samples.len(),
{
    if samples.len() > 0 {
        let init = samples.drop_last();
        assert(samples[samples.len() - 1] == samples.last());
        assert(!memory_samples_name_pid(init, pid)) by {
            if memory_samples_name_pid(init, pid) {
                let i = choose|i: int|
                    0 <= i < init.len() && sample_pid(#[trigger] init[i].0) == Some(pid) && (
                    init[i].1.0 == MemoryCounter::Dedicated || init[i].1.0
                        == MemoryCounter::Shared);
                assert(init[i] == samples[i]);
            }
        }
        lemma_memory_sum_absent(init, pid);
    }
}

/// The UTF-16 code units of one character: one unit below `U+10000`,
/// otherwise a surrogate pair.
pub open spec fn utf16_units(c: char) -> Seq<u16> {
    let u = c as u32;
    if u < 0x10000 {
        seq![u as u16]
    } else {
        let v = (u - 0x10000) as int;
        seq![(0xd800 + v / 1024) as u16, (0xdc00 + v % 1024) as u16]
    }
}

/// The UTF-16 encoding of a character sequence.
pub open spec fn utf16_seq(s: Seq<char>) -> Seq<u16>
    decreases s.len(),
{
    if s.len() == 0 {
        Seq::<u16>::empty()
    } else {
        utf16_seq(s.drop_last()) + utf16_units(s.last())
    }
}

/// `s` as a NUL-terminated UTF-16 string, the form the wide-character
/// Windows APIs take.
pub fn wide(s: &str) -> (r: Vec<u16>)
    ensures
        r@ == utf16_seq(s@).push(0),
{
    let cs = chars_of(s);
    let n = cs.len();
    let mut out: Vec<u16> = Vec::new();
    let mut i: usize = 0;
    while i < n
        invariant
            i <= n,
            n == cs@.len(),
            out@ == utf16_seq(cs@.take(i as int)),
        decreases n - i,
    {
        let c = cs[i];
        proof {
            vstd::utf8::char_is_scalar(c);
        }
        let u = c as u32;
        if u < 0x10000 {
            out.push(u as u16);
        } else {
            let v = u - 0x10000;
            assert(v <= 0x10ffff - 0x10000);
            out.push((0xd800 + v / 1024) as u16);
            out.push((0xdc00 + v % 1024) as u16);
        }
        assert(cs@.take(i + 1).drop_last() =~= cs@.take(i as int));
        i = i + 1;
    }
    assert(cs@.take(n as int) =~= s@);
    out.push(0);
    out
}

} // verus!
