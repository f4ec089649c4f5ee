//! Character-level helpers shared by the counter-name parsers.

use vstd::prelude::*;

verus! {

/// ASCII lower-casing of one character: `A`..=`Z` map to `a`..=`z`, every
/// other character is left as it is.
pub open spec fn ascii_lower(c: char) -> char {
    if 'A' <= c && c <= 'Z' {
        ((c as u32) + 32) as char
    } else {
        c
    }
}

/// ASCII lower-casing of a character sequence.
pub open spec fn ascii_lower_seq(s: Seq<char>) -> Seq<char> {
    s.map_values(|c: char| ascii_lower(c))
}

/// ASCII upper-casing of one character: `a`..=`z` map to `A`..=`Z`, every
/// other character is left as it is.
pub open spec fn ascii_upper(c: char) -> char {
    if 'a' <= c && c <= 'z' {
        ((c as u32) - 32) as char
    } else {
        c
    }
}

/// ASCII upper-casing of a character sequence.
pub open spec fn ascii_upper_seq(s: Seq<char>) -> Seq<char> {
    s.map_values(|c: char| ascii_upper(c))
}

/// No character of `s` is an ASCII capital letter.
pub open spec fn no_ascii_upper(s: Seq<char>) -> bool {
    forall|i: int| 0 <= i < s.len() ==> !('A' <= #[trigger] s[i] && s[i] <= 'Z')
}

/// Lower-casing an upper-cased sequence gives the lower-cased sequence, and a
/// lower-cased sequence holds no capital letter.
pub proof fn lemma_lower_after_upper(s: Seq<char>)
    ensures
        ascii_lower_seq(ascii_upper_seq(s)) == ascii_lower_seq(s),
        no_ascii_upper(ascii_lower_seq(s)),
{
    assert forall|i: int| 0 <= i < s.len() implies ascii_lower(ascii_upper(s[i])) == ascii_lower(
        s[i],
    ) by {
        let c = s[i];
        if 'a' <= c && c <= 'z' {
            let u = (c as u32) - 32;
            assert(65 <= u <= 90);
            assert(ascii_upper(c) as u32 == u);
        }
    }
    assert(ascii_lower_seq(ascii_upper_seq(s)) =~= ascii_lower_seq(s));
    assert forall|i: int| 0 <= i < s.len() implies !('A' <= #[trigger] ascii_lower_seq(s)[i]
        && ascii_lower_seq(s)[i] <= 'Z') by {
        let c = s[i];
        if 'A' <= c && c <= 'Z' {
            assert(ascii_lower(c) as u32 == (c as u32) + 32);
        }
    }
}

/// `char::to_ascii_lowercase`, written out.
pub fn lower_char(c: char) -> (r: char)
    ensures
        r == ascii_lower(c),
{
    if 'A' <= c && c <= 'Z' {
        let u: u32 = (c as u32) + 32;
        assert(u <= 0x7a);
        char_from_ascii(u as u8)
    } else {
        c
    }
}

fn char_from_ascii(b: u8) -> (r: char)
    requires
        b < 128,
    ensures
        r as u32 == b as u32,
{
    b as char
}

/// The characters of `s`, ASCII-lower-cased.
pub fn lower_chars(s: &str) -> (r: Vec<char>)
    ensures
        r@ == ascii_lower_seq(s@),
{
    let mut out: Vec<char> = Vec::new();
    for c in it: s.chars()
        invariant
            out@ == ascii_lower_seq(it.seq().take(it.index() as int)),
    {
        let l = lower_char(c);
        out.push(l);
    }
    out
}


/// Unicode `White_Space`: the characters that `char::is_whitespace`
/// accepts and that `str::trim` removes.
pub open spec fn is_white_space(c: char) -> bool {
    let u = c as u32;
    ||| 0x09 <= u <= 0x0d
    ||| u == 0x20
    ||| u == 0x85
    ||| u == 0xa0
    ||| u == 0x1680
    ||| 0x2000 <= u <= 0x200a
    ||| u == 0x2028
    ||| u == 0x2029
    ||| u == 0x202f
    ||| u == 0x205f
    ||| u == 0x3000
}

/// `s` without its leading white space.
pub open spec fn trim_start_seq(s: Seq<char>) -> Seq<char>
    decreases s.len(),
{
    if s.len() > 0 && is_white_space(s[0]) {
        trim_start_seq(s.drop_first())
    } else {
        s
    }
}

/// `s` without its trailing white space.
pub open spec fn trim_end_seq(s: Seq<char>) -> Seq<char>
    decreases s.len(),
{
    if s.len() > 0 && is_white_space(s.last()) {
        trim_end_seq(s.drop_last())
    } else {
        s
    }
}

/// `s` without leading and trailing white space.
pub open spec fn trim_seq(s: Seq<char>) -> Seq<char> {
    trim_end_seq(trim_start_seq(s))
}

proof fn lemma_trim_start_lower(s: Seq<char>)
    ensures
        trim_start_seq(ascii_lower_seq(s)) == ascii_lower_seq(trim_start_seq(s)),
    decreases s.len(),
{
    let l = ascii_lower_seq(s);
    if s.len() > 0 {
        assert(l[0] == ascii_lower(s[0]));
        assert(l.drop_first() =~= ascii_lower_seq(s.drop_first()));
        if is_white_space(s[0]) {
            lemma_trim_start_lower(s.drop_first());
        } else {
            assert(!is_white_space(l[0]));
        }
    } else {
        assert(l =~= ascii_lower_seq(s));
    }
}

proof fn lemma_trim_end_lower(s: Seq<char>)
    ensures
        trim_end_seq(ascii_lower_seq(s)) == ascii_lower_seq(trim_end_seq(s)),
    decreases s.len(),
{
    let l = ascii_lower_seq(s);
    if s.len() > 0 {
        assert(l.last() == ascii_lower(s.last()));
        assert(l.drop_last() =~= ascii_lower_seq(s.drop_last()));
        if is_white_space(s.last()) {
            lemma_trim_end_lower(s.drop_last());
        } else {
            assert(!is_white_space(l.last()));
        }
    }
}

/// Trimming and ASCII lower-casing can be done in either order, and
/// lower-casing twice is lower-casing once.
pub proof fn lemma_trim_lower_commute(s: Seq<char>)
    ensures
        trim_seq(ascii_lower_seq(s)) == ascii_lower_seq(trim_seq(s)),
        ascii_lower_seq(ascii_lower_seq(s)) == ascii_lower_seq(s),
{
    lemma_trim_start_lower(s);
    lemma_trim_end_lower(trim_start_seq(s));
    assert(ascii_lower_seq(ascii_lower_seq(s)) =~= ascii_lower_seq(s));
}

/// After a prefix that ends in a character other than white space, trimming
/// the end of the whole trims only what follows the prefix.
pub proof fn lemma_trim_end_append(a: Seq<char>, b: Seq<char>)
    requires
        a.len() > 0,
        !is_white_space(a.last()),
    ensures
        trim_end_seq(a + b) == a + trim_end_seq(b),
    decreases b.len(),
{
    if b.len() == 0 {
        assert(a + b =~= a);
        assert(a + trim_end_seq(b) =~= a);
    } else {
        let ab = a + b;
        assert(ab.last() == b.last());
        if is_white_space(b.last()) {
            assert(ab.drop_last() =~= a + b.drop_last());
            lemma_trim_end_append(a, b.drop_last());
        }
    }
}

/// `str::trim`: the slice of `s` without leading and trailing Unicode
/// `White_Space`. Its documentation defines white space as the characters of
/// that Unicode property, which `is_white_space` lists; the contract claims
/// that the characters of the result are exactly those that remain.
#[verifier::external_body]
pub(crate) fn trim_str(s: &str) -> (r: &str)
    ensures
        r@ == trim_seq(s@),
{
    s.trim()
}

/// `String`'s `FromIterator<char>`: the string made of the characters of `cs`,
/// in order. The contract claims that the characters of the result are those
/// of `cs`, as the trait's documentation says.
#[verifier::external_body]
pub(crate) fn string_from_chars(cs: &Vec<char>) -> (r: String)
    ensures
        r@ == cs@,
{
    cs.iter().collect()
}

/// `c` is one of the ASCII digits `0`..=`9`.
pub open spec fn is_digit(c: char) -> bool {
    '0' <= c && c <= '9'
}

/// Every character of `s` is an ASCII digit.
pub open spec fn all_digits(s: Seq<char>) -> bool {
    forall|i: int| 0 <= i < s.len() ==> is_digit(#[trigger] s[i])
}

/// The decimal value of a run of ASCII digits.
pub open spec fn digits_value(s: Seq<char>) -> nat
    decreases s.len(),
{
    if s.len() == 0 {
        0
    } else {
        digits_value(s.drop_last()) * 10 + ((s.last() as u32) - ('0' as u32)) as nat
    }
}

/// What `str::parse::<u32>` accepts and returns: an optional `+`, then at
/// least one ASCII digit and nothing else, with a value that fits in `u32`.
pub open spec fn parse_u32_seq(s: Seq<char>) -> Option<u32> {
    let body = if s.len() > 0 && s[0] == '+' {
        s.drop_first()
    } else {
        s
    };
    if body.len() > 0 && all_digits(body) && digits_value(body) <= u32::MAX {
        Some(digits_value(body) as u32)
    } else {
        None
    }
}

proof fn lemma_digits_value_monotonic(s: Seq<char>, j: int)
    requires
        0 <= j <= s.len(),
        all_digits(s),
    ensures
        digits_value(s.take(j)) <= digits_value(s),
    decreases s.len() - j,
{
    if j < s.len() {
        let t = s.take(j + 1);
        assert(t.drop_last() =~= s.take(j));
        assert(is_digit(t.last()));
        lemma_digits_value_monotonic(s, j + 1);
        assert(s.take(s.len() as int) =~= s);
    } else {
        assert(s.take(j) =~= s);
    }
}

/// `str::parse::<u32>` over a character sequence, written out.
pub fn parse_u32_chars(s: &[char]) -> (r: Option<u32>)
    ensures
        r == parse_u32_seq(s@),
{
    let n = s.len();
    let mut start: usize = 0;
    if n > 0 && s[0] == '+' {
        start = 1;
    }
    let ghost body = if s@.len() > 0 && s@[0] == '+' {
        s@.drop_first()
    } else {
        s@
    };
    assert(body =~= s@.subrange(start as int, n as int));
    if start == n {
        return None;
    }
    let mut v: u64 = 0;
    let mut i: usize = start;
    while i < n
        invariant
            start <= i <= n,
            n == s@.len(),
            body == (if s@.len() > 0 && s@[0] == '+' {
                s@.drop_first()
            } else {
                s@
            }),
            body =~= s@.subrange(start as int, n as int),
            all_digits(body.take(i - start)),
            v == digits_value(body.take(i - start)),
            v <= u32::MAX,
        decreases n - i,
    {
        let c = s[i];
        if !('0' <= c && c <= '9') {
            assert(body[i - start] == c);
            assert(!all_digits(body));
            return None;
        }
        let d: u64 = (c as u32 - '0' as u32) as u64;
        let ghost pre = body.take(i - start);
        let ghost post = body.take(i - start + 1);
        assert(post.drop_last() =~= pre);
        assert(post.last() == c);
        let nv: u64 = v * 10 + d;
        if nv > 0xffff_ffff {
            proof {
                if all_digits(body) {
                    lemma_digits_value_monotonic(body, i - start + 1);
                }
            }
            return None;
        }
        v = nv;
        i = i + 1;
    }
    assert(body.take(n - start) =~= body);
    Some(v as u32)
}

/// `s` split at every occurrence of `sep`, as `str::split` does: `k`
/// separators give `k + 1` pieces, empty ones included.
pub open spec fn split_seq(s: Seq<char>, sep: char) -> Seq<Seq<char>>
    decreases s.len(),
{
    if s.len() == 0 {
        seq![Seq::<char>::empty()]
    } else {
        let parts = split_seq(s.drop_last(), sep);
        if s.last() == sep {
            parts.push(Seq::<char>::empty())
        } else {
            parts.update(parts.len() - 1, parts.last().push(s.last()))
        }
    }
}

proof fn lemma_split_seq_nonempty(s: Seq<char>, sep: char)
    ensures
        split_seq(s, sep).len() >= 1,
    decreases s.len(),
{
    if s.len() > 0 {
        lemma_split_seq_nonempty(s.drop_last(), sep);
    }
}

/// The character sequences held by a vector of character vectors.
pub open spec fn char_vecs_view(v: Seq<Vec<char>>) -> Seq<Seq<char>> {
    v.map_values(|x: Vec<char>| x@)
}

/// The pieces of `s` between occurrences of `sep`, as `str::split` yields them.
pub fn split_chars(s: &Vec<char>, sep: char) -> (r: Vec<Vec<char>>)
    ensures
        char_vecs_view(r@) == split_seq(s@, sep),
{
    let mut parts: Vec<Vec<char>> = Vec::new();
    let mut cur: Vec<char> = Vec::new();
    let n = s.len();
    let mut i: usize = 0;
    while i < n
        invariant
            i <= n,
            n == s@.len(),
            char_vecs_view(parts@).push(cur@) =~= split_seq(s@.take(i as int), sep),
        decreases n - i,
    {
        let c = s[i];
        let ghost before = s@.take(i as int);
        assert(s@.take(i + 1).drop_last() =~= before);
        proof {
            lemma_split_seq_nonempty(before, sep);
        }
        let ghost old_parts = char_vecs_view(parts@);
        let ghost old_cur = cur@;
        if c == sep {
            let done = cur;
            parts.push(done);
            cur = Vec::new();
            assert(char_vecs_view(parts@) =~= old_parts.push(old_cur));
            assert(char_vecs_view(parts@).push(cur@) =~= split_seq(before, sep).push(Seq::<char>::empty()));
        } else {
            cur.push(c);
            assert(char_vecs_view(parts@) =~= old_parts);
            assert(char_vecs_view(parts@).push(cur@) =~= split_seq(before, sep).update(
                split_seq(before, sep).len() - 1,
                split_seq(before, sep).last().push(c),
            ));
        }
        i = i + 1;
    }
    assert(s@.take(n as int) =~= s@);
    let ghost old_parts = char_vecs_view(parts@);
    let ghost last = cur@;
    parts.push(cur);
    assert(char_vecs_view(parts@) =~= old_parts.push(last));
    parts
}

/// The pieces joined back together with `sep` between neighbours, as
/// `[T]::join` does.
pub open spec fn join_seq(parts: Seq<Seq<char>>, sep: char) -> Seq<char>
    decreases parts.len(),
{
    if parts.len() == 0 {
        Seq::<char>::empty()
    } else if parts.len() == 1 {
        parts[0]
    } else {
        join_seq(parts.drop_last(), sep).push(sep) + parts.last()
    }
}

/// The pieces of a sequence without capital letters have none either.
pub proof fn lemma_split_no_upper(s: Seq<char>, sep: char)
    requires
        no_ascii_upper(s),
    ensures
        forall|j: int|
            0 <= j < split_seq(s, sep).len() ==> no_ascii_upper(#[trigger] split_seq(s, sep)[j]),
    decreases s.len(),
{
    if s.len() > 0 {
        let init = s.drop_last();
        assert forall|i: int| 0 <= i < init.len() implies !('A' <= #[trigger] init[i] && init[i]
            <= 'Z') by {
            assert(init[i] == s[i]);
        }
        lemma_split_no_upper(init, sep);
        lemma_split_seq_nonempty(init, sep);
        let p = split_seq(init, sep);
        if s.last() != sep {
            let q = p.last().push(s.last());
            assert(no_ascii_upper(p[p.len() - 1]));
            assert forall|i: int| 0 <= i < q.len() implies !('A' <= #[trigger] q[i] && q[i]
                <= 'Z') by {
                if i < q.len() - 1 {
                    assert(q[i] == p.last()[i]);
                } else {
                    assert(q[i] == s[s.len() - 1]);
                }
            }
        }
    }
}

/// Joining pieces without capital letters by a separator that is not one
/// gives a sequence without capital letters.
pub proof fn lemma_join_no_upper(parts: Seq<Seq<char>>, sep: char)
    requires
        forall|j: int| 0 <= j < parts.len() ==> no_ascii_upper(#[trigger] parts[j]),
        !('A' <= sep && sep <= 'Z'),
    ensures
        no_ascii_upper(join_seq(parts, sep)),
    decreases parts.len(),
{
    if parts.len() == 1 {
        assert(no_ascii_upper(parts[0]));
    } else if parts.len() > 1 {
        let init = parts.drop_last();
        assert forall|j: int| 0 <= j < init.len() implies no_ascii_upper(#[trigger] init[j]) by {
            assert(init[j] == parts[j]);
        }
        lemma_join_no_upper(init, sep);
        let a = join_seq(init, sep).push(sep);
        let l = parts.last();
        assert(no_ascii_upper(parts[parts.len() - 1]));
        let r = a + l;
        assert forall|i: int| 0 <= i < r.len() implies !('A' <= #[trigger] r[i] && r[i] <= 'Z') by {
            if i < a.len() - 1 {
                assert(r[i] == join_seq(init, sep)[i]);
            } else if i == a.len() - 1 {
                assert(r[i] == sep);
            } else {
                assert(r[i] == l[i - a.len()]);
            }
        }
    }
}

/// Append the characters of `b` to `a`.
pub fn extend_chars(a: &mut Vec<char>, b: &Vec<char>)
    ensures
        final(a)@ == old(a)@ + b@,
{
    let n = b.len();
    let mut i: usize = 0;
    while i < n
        invariant
            i <= n,
            n == b@.len(),
            a@ =~= old(a)@ + b@.take(i as int),
        decreases n - i,
    {
        a.push(b[i]);
        i = i + 1;
    }
    assert(b@.take(n as int) =~= b@);
}

/// `parts[from..].join(sep)`.
pub fn join_chars_from(parts: &Vec<Vec<char>>, from: usize, sep: char) -> (r: Vec<char>)
    requires
        from <= parts@.len(),
    ensures
        r@ == join_seq(char_vecs_view(parts@).skip(from as int), sep),
{
    let n = parts.len();
    let mut out: Vec<char> = Vec::new();
    let mut k: usize = from;
    while k < n
        invariant
            from <= k <= n,
            n == parts@.len(),
            out@ == join_seq(char_vecs_view(parts@).subrange(from as int, k as int), sep),
        decreases n - k,
    {
        let ghost prev = char_vecs_view(parts@).subrange(from as int, k as int);
        let ghost next = char_vecs_view(parts@).subrange(from as int, k + 1);
        assert(next.drop_last() =~= prev);
        if k > from {
            out.push(sep);
        } else {
            assert(next.len() == 1);
        }
        extend_chars(&mut out, &parts[k]);
        k = k + 1;
    }
    assert(char_vecs_view(parts@).subrange(from as int, n as int) =~= char_vecs_view(parts@).skip(from as int));
    out
}

/// Whether `part` reads exactly `word`.
pub fn chars_equal(part: &Vec<char>, word: &[char]) -> (r: bool)
    ensures
        r == (part@ == word@),
{
    if part.len() != word.len() {
        return false;
    }
    let n = part.len();
    let mut i: usize = 0;
    while i < n
        invariant
            i <= n,
            n == part@.len(),
            n == word@.len(),
            forall|j: int| 0 <= j < i ==> part@[j] == word@[j],
        decreases n - i,
    {
        if part[i] != word[i] {
            return false;
        }
        i = i + 1;
    }
    assert(part@ =~= word@);
    true
}


/// The characters of `s`.
pub fn chars_of(s: &str) -> (r: Vec<char>)
    ensures
        r@ == s@,
{
    let mut out: Vec<char> = Vec::new();
    for c in it: s.chars()
        invariant
            out@ == it.seq().take(it.index() as int),
    {
        out.push(c);
    }
    out
}

/// The first position at or after `from` where `pat` occurs in `s`.
pub open spec fn find_from(s: Seq<char>, pat: Seq<char>, from: int) -> Option<int>
    decreases s.len() - from,
{
    if from < 0 || from + pat.len() > s.len() {
        None
    } else if pat.len() == 0 || s.subrange(from, from + pat.len()) == pat {
        Some(from)
    } else {
        find_from(s, pat, from + 1)
    }
}

/// `pat` occurs somewhere in `s`.
pub open spec fn contains_seq(s: Seq<char>, pat: Seq<char>) -> bool {
    find_from(s, pat, 0) is Some
}

/// Whether `pat` occurs in `hay` at position `at`.
fn matches_at(hay: &Vec<char>, pat: &Vec<char>, at: usize) -> (r: bool)
    requires
        at + pat@.len() <= hay@.len(),
    ensures
        r == (hay@.subrange(at as int, at + pat@.len()) == pat@),
{
    let m = pat.len();
    let mut i: usize = 0;
    while i < m
        invariant
            i <= m,
            m == pat@.len(),
            at + m <= hay@.len(),
            hay@.len() == hay.len(),
            forall|j: int| 0 <= j < i ==> hay@[at + j] == pat@[j],
        decreases m - i,
    {
        if hay[at + i] != pat[i] {
            assert(hay@.subrange(at as int, at + m)[i as int] != pat@[i as int]);
            return false;
        }
        i = i + 1;
    }
    assert(hay@.subrange(at as int, at + m) =~= pat@);
    true
}

/// The first position at or after `from` where `pat` occurs in `hay`
/// (`str::find` on the suffix, shifted back).
pub fn find_chars(hay: &Vec<char>, pat: &Vec<char>, from: usize) -> (r: Option<usize>)
    ensures
        match r {
            Some(k) => find_from(hay@, pat@, from as int) == Some(k as int),
            None => find_from(hay@, pat@, from as int) is None,
        },
{
    let n = hay.len();
    let m = pat.len();
    if m > n {
        return None;
    }
    if m == 0 {
        if from <= n {
            return Some(from);
        }
        return None;
    }
    let mut k = from;
    while k < n && k <= n - m
        invariant
            from <= k,
            n == hay@.len(),
            m == pat@.len(),
            0 < m <= n,
            find_from(hay@, pat@, from as int) == find_from(hay@, pat@, k as int),
        decreases n - k,
    {
        if matches_at(hay, pat, k) {
            return Some(k);
        }
        k = k + 1;
    }
    None
}

/// The last position of `c` in `s`.
pub open spec fn last_index_of(s: Seq<char>, c: char) -> Option<int>
    decreases s.len(),
{
    if s.len() == 0 {
        None
    } else if s.last() == c {
        Some(s.len() - 1)
    } else {
        last_index_of(s.drop_last(), c)
    }
}


/// The last position of `c` in `s` (`str::rfind` with a character).
pub fn rfind_char(s: &Vec<char>, c: char) -> (r: Option<usize>)
    ensures
        match r {
            Some(k) => last_index_of(s@, c) == Some(k as int),
            None => last_index_of(s@, c) is None,
        },
{
    let mut k = s.len();
    assert(s@.take(k as int) =~= s@);
    while k > 0
        invariant
            k <= s@.len(),
            last_index_of(s@, c) == last_index_of(s@.take(k as int), c),
        decreases k,
    {
        assert(s@.take(k as int).drop_last() =~= s@.take(k - 1));
        if s[k - 1] == c {
            return Some(k - 1);
        }
        k = k - 1;
    }
    None
}

/// The first position at or after `from` holding the byte `x`.
pub open spec fn find_byte(b: Seq<u8>, x: u8, from: int) -> Option<int>
    decreases b.len() - from,
{
    if from < 0 || from >= b.len() {
        None
    } else if b[from] == x {
        Some(from)
    } else {
        find_byte(b, x, from + 1)
    }
}

/// The first position at or after `from` holding the byte `x`.
pub fn find_byte_from(b: &[u8], x: u8, from: usize) -> (r: Option<usize>)
    ensures
        match r {
            Some(k) => find_byte(b@, x, from as int) == Some(k as int),
            None => find_byte(b@, x, from as int) is None,
        },
{
    let n = b.len();
    let mut k = from;
    while k < n
        invariant
            from <= k,
            n == b@.len(),
            find_byte(b@, x, from as int) == find_byte(b@, x, k as int),
        decreases n - k,
    {
        if b[k] == x {
            return Some(k);
        }
        k = k + 1;
    }
    None
}

/// The last position holding the byte `x`.
pub open spec fn last_byte(b: Seq<u8>, x: u8) -> Option<int>
    decreases b.len(),
{
    if b.len() == 0 {
        None
    } else if b.last() == x {
        Some(b.len() - 1)
    } else {
        last_byte(b.drop_last(), x)
    }
}

/// The last position holding the byte `x`.
pub fn rfind_byte(b: &[u8], x: u8) -> (r: Option<usize>)
    ensures
        match r {
            Some(k) => last_byte(b@, x) == Some(k as int),
            None => last_byte(b@, x) is None,
        },
{
    let mut k = b.len();
    assert(b@.take(k as int) =~= b@);
    while k > 0
        invariant
            k <= b@.len(),
            last_byte(b@, x) == last_byte(b@.take(k as int), x),
        decreases k,
    {
        assert(b@.take(k as int).drop_last() =~= b@.take(k - 1));
        if b[k - 1] == x {
            return Some(k - 1);
        }
        k = k - 1;
    }
    None
}

} // verus!
