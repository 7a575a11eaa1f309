//! Character-level text utilities: substring search, replacement, trimming,
//! and the conversions between `String` values and character vectors that the
//! rest of the library builds on.

use vstd::prelude::*;
use vstd::slice::slice_to_vec;
use vstd::string::StringExecFns;

verus! {

/// True when `n` occurs in `h` starting at index `i`.
pub open spec fn matches_at(h: Seq<char>, n: Seq<char>, i: int) -> bool {
    0 <= i && i + n.len() <= h.len() && h.subrange(i, i + n.len() as int) == n
}

/// Index of the first occurrence of `n` in `h` at or after `from`.
pub open spec fn spec_find(h: Seq<char>, n: Seq<char>, from: int) -> Option<int>
    decreases h.len() + 1 - from,
    when 0 <= from
{
    if from + n.len() > h.len() {
        None
    } else if h.subrange(from, from + n.len() as int) == n {
        Some(from)
    } else {
        spec_find(h, n, from + 1)
    }
}

/// Index of the last occurrence of `n` in `h` at or below `from`.
pub open spec fn spec_rfind(h: Seq<char>, n: Seq<char>, from: int) -> Option<int>
    decreases from + 1,
    when from <= h.len()
{
    if from < 0 {
        None
    } else if matches_at(h, n, from) {
        Some(from)
    } else {
        spec_rfind(h, n, from - 1)
    }
}

/// Every index the first occurrence passes over holds no match.
pub proof fn lemma_find_first(h: Seq<char>, n: Seq<char>, from: int, i: int)
    requires
        0 <= from,
        spec_find(h, n, from) == Some(i),
    ensures
        matches_at(h, n, i),
        from <= i,
        forall|j: int| from <= j < i ==> !matches_at(h, n, j),
    decreases h.len() + 1 - from,
{
    if from + n.len() > h.len() {
    } else if h.subrange(from, from + n.len() as int) == n {
    } else {
        lemma_find_first(h, n, from + 1, i);
    }
}

/// Compares `n` against `h` at position `i`.
fn eq_at(h: &[char], n: &[char], i: usize) -> (r: bool)
    requires
        i + n@.len() <= h@.len(),
    ensures
        r == (h@.subrange(i as int, i + n@.len() as int) == n@),
{
    let ghost sub = h@.subrange(i as int, i + n@.len() as int);
    let hl: usize = h.len();
    let mut k: usize = 0;
    while k < n.len()
        invariant
            i + n@.len() <= h@.len(),
            hl == h@.len(),
            k <= n@.len(),
            sub == h@.subrange(i as int, i + n@.len() as int),
            forall|m: int| 0 <= m < k ==> sub[m] == n@[m],
        decreases n@.len() - k,
    {
        if h[i + k] != n[k] {
            assert(sub[k as int] != n@[k as int]);
            return false;
        }
        k += 1;
    }
    assert(sub =~= n@);
    true
}

/// First occurrence of `n` in `h` at or after `from`, as `str::find` reports
/// it.
pub fn find_from(h: &[char], n: &[char], from: usize) -> (r: Option<usize>)
    ensures
        match r {
            Some(i) => spec_find(h@, n@, from as int) == Some(i as int),
            None => spec_find(h@, n@, from as int) is None,
        },
{
    let hl: usize = h.len();
    let nl: usize = n.len();
    if from > hl {
        return None;
    }
    let mut i: usize = from;
    loop
        invariant
            from <= i <= hl,
            hl == h@.len(),
            nl == n@.len(),
            spec_find(h@, n@, from as int) == spec_find(h@, n@, i as int),
        decreases h@.len() - i,
    {
        if nl > hl - i {
            return None;
        }
        if eq_at(h, n, i) {
            return Some(i);
        }
        proof {
            if n@.len() == 0 {
                assert(h@.subrange(i as int, i as int) =~= n@);
            }
        }
        i += 1;
    }
}

/// Last occurrence of `n` in `h`, as `str::rfind` reports it.
pub fn rfind_in(h: &[char], n: &[char]) -> (r: Option<usize>)
    ensures
        match r {
            Some(i) => spec_rfind(h@, n@, h@.len() as int) == Some(i as int),
            None => spec_rfind(h@, n@, h@.len() as int) is None,
        },
{
    let hl: usize = h.len();
    let nl: usize = n.len();
    let mut j: usize = hl;
    loop
        invariant
            j <= h@.len(),
            hl == h@.len(),
            nl == n@.len(),
            spec_rfind(h@, n@, h@.len() as int) == spec_rfind(h@, n@, j as int),
        decreases j,
    {
        if nl <= hl - j {
            if eq_at(h, n, j) {
                return Some(j);
            }
        }
        assert(!matches_at(h@, n@, j as int));
        if j == 0 {
            assert(spec_rfind(h@, n@, -1) is None);
            return None;
        }
        j -= 1;
    }
}

/// True when `h` starts with `n`.
pub fn has_prefix(h: &[char], n: &[char]) -> (r: bool)
    ensures
        r == (h@.len() >= n@.len() && h@.subrange(0, n@.len() as int) == n@),
{
    if n.len() > h.len() {
        return false;
    }
    eq_at(h, n, 0)
}

/// `h` with the leftmost occurrence of `n` (if any) replaced by `to`.
pub open spec fn spec_replace_first(h: Seq<char>, n: Seq<char>, to: Seq<char>) -> Seq<char> {
    match spec_find(h, n, 0) {
        None => h,
        Some(i) => h.subrange(0, i) + to + h.subrange(i + n.len() as int, h.len() as int),
    }
}

/// `h` with every occurrence of `n` replaced by `to`, scanning left to right
/// over the original text; an empty pattern leaves the text unchanged.
pub open spec fn spec_replace_all(h: Seq<char>, n: Seq<char>, to: Seq<char>) -> Seq<char>
    decreases h.len(),
    via spec_replace_all_decreases
{
    if n.len() == 0 {
        h
    } else {
        match spec_find(h, n, 0) {
            None => h,
            Some(i) => h.subrange(0, i) + to + spec_replace_all(
                h.subrange(i + n.len() as int, h.len() as int),
                n,
                to,
            ),
        }
    }
}

#[via_fn]
proof fn spec_replace_all_decreases(h: Seq<char>, n: Seq<char>, to: Seq<char>) {
    if n.len() > 0 {
        match spec_find(h, n, 0) {
            None => {},
            Some(i) => {
                lemma_find_first(h, n, 0, i);
            },
        }
    }
}

proof fn lemma_find_bounds(h: Seq<char>, n: Seq<char>, from: int, i: int)
    requires
        0 <= from,
        spec_find(h, n, from) == Some(i),
    ensures
        from <= i,
        i + n.len() <= h.len(),
{
    lemma_find_first(h, n, from, i);
}

/// Replaces the leftmost occurrence of `n` in `h` by `to`.
pub fn replace_first(h: &[char], n: &[char], to: &[char]) -> (r: Vec<char>)
    ensures
        r@ == spec_replace_first(h@, n@, to@),
{
    match find_from(h, n, 0) {
        None => slice_to_vec(h),
        Some(i) => {
            proof {
                lemma_find_bounds(h@, n@, 0, i as int);
            }
            let hl: usize = h.len();
            let mut out: Vec<char> = Vec::new();
            out.extend_from_slice(&h[0..i]);
            out.extend_from_slice(to);
            out.extend_from_slice(&h[i + n.len()..hl]);
            assert(out@ =~= spec_replace_first(h@, n@, to@));
            out
        },
    }
}

/// Replaces every occurrence of `n` in `h` by `to`, scanning left to right;
/// an empty pattern leaves the text unchanged.
pub fn replace_all(h: &[char], n: &[char], to: &[char]) -> (r: Vec<char>)
    ensures
        r@ == spec_replace_all(h@, n@, to@),
    decreases h@.len(),
{
    if n.len() == 0 {
        return slice_to_vec(h);
    }
    match find_from(h, n, 0) {
        None => slice_to_vec(h),
        Some(i) => {
            proof {
                lemma_find_bounds(h@, n@, 0, i as int);
            }
            let hl: usize = h.len();
            let rest = replace_all(&h[i + n.len()..hl], n, to);
            let mut out: Vec<char> = Vec::new();
            out.extend_from_slice(&h[0..i]);
            out.extend_from_slice(to);
            out.extend_from_slice(rest.as_slice());
            assert(out@ =~= spec_replace_all(h@, n@, to@));
            out
        },
    }
}

/// True of the four ASCII whitespace characters that trimming removes.
pub open spec fn is_ws(c: char) -> bool {
    c == ' ' || c == '\t' || c == '\n' || c == '\r'
}

fn is_ws_exec(c: char) -> (r: bool)
    ensures
        r == is_ws(c),
{
    c == ' ' || c == '\t' || c == '\n' || c == '\r'
}

/// `s` with leading and trailing ASCII whitespace removed.
pub open spec fn spec_trim(s: Seq<char>) -> Seq<char>
    decreases s.len(),
{
    if s.len() == 0 {
        s
    } else if is_ws(s[0]) {
        spec_trim(s.subrange(1, s.len() as int))
    } else if is_ws(s[s.len() - 1]) {
        spec_trim(s.subrange(0, s.len() - 1))
    } else {
        s
    }
}

/// Trims ASCII whitespace from both ends.
pub fn trim(s: &[char]) -> (r: Vec<char>)
    ensures
        r@ == spec_trim(s@),
    decreases s@.len(),
{
    if s.len() == 0 {
        slice_to_vec(s)
    } else if is_ws_exec(s[0]) {
        trim(&s[1..s.len()])
    } else if is_ws_exec(s[s.len() - 1]) {
        trim(&s[0..s.len() - 1])
    } else {
        slice_to_vec(s)
    }
}

/// The parts joined with the separator between them.
pub open spec fn spec_join(parts: Seq<Seq<char>>, sep: Seq<char>) -> Seq<char>
    decreases parts.len(),
{
    if parts.len() == 0 {
        Seq::<char>::empty()
    } else if parts.len() == 1 {
        parts[0]
    } else {
        spec_join(parts.drop_last(), sep) + sep + parts.last()
    }
}

/// Joins strings with a separator, as `[T]::join` does.
pub fn join_strings(parts: &Vec<String>, sep: &str) -> (r: String)
    ensures
        r@ == spec_join(parts@.map_values(|s: String| s@), sep@),
{
    let ghost views = parts@.map_values(|s: String| s@);
    let mut out = String::new();
    let mut i: usize = 0;
    while i < parts.len()
        invariant
            i <= parts@.len(),
            views == parts@.map_values(|s: String| s@),
            out@ == spec_join(views.subrange(0, i as int), sep@),
        decreases parts@.len() - i,
    {
        let ghost prefix = views.subrange(0, i as int);
        if i > 0 {
            out.append(sep);
        }
        out.append(parts[i].as_str());
        proof {
            let next_prefix = views.subrange(0, i as int + 1);
            assert(next_prefix.drop_last() =~= prefix);
            assert(next_prefix.last() == views[i as int]);
            if i == 0 {
                assert(out@ =~= spec_join(next_prefix, sep@));
            }
        }
        i += 1;
    }
    proof {
        assert(views.subrange(0, views.len() as int) =~= views);
    }
    out
}

/// Concatenates three texts.
pub fn concat3(a: &str, b: &str, c: &str) -> (r: String)
    ensures
        r@ == a@ + b@ + c@,
{
    let mut out = a.to_owned();
    out.append(b);
    out.append(c);
    out
}

/// Relies on str's PartialEq: equal slices hold equal character views.
#[verifier::external_body]
pub fn str_eq(a: &str, b: &str) -> (r: bool)
    ensures
        r == (a@ == b@),
{
    a == b
}

/// The lower-case form of an ASCII letter; any other character stands.
pub open spec fn spec_lower_char(c: char) -> char {
    if c == 'A' {
        'a'
    } else if c == 'B' {
        'b'
    } else if c == 'C' {
        'c'
    } else if c == 'D' {
        'd'
    } else if c == 'E' {
        'e'
    } else if c == 'F' {
        'f'
    } else if c == 'G' {
        'g'
    } else if c == 'H' {
        'h'
    } else if c == 'I' {
        'i'
    } else if c == 'J' {
        'j'
    } else if c == 'K' {
        'k'
    } else if c == 'L' {
        'l'
    } else if c == 'M' {
        'm'
    } else if c == 'N' {
        'n'
    } else if c == 'O' {
        'o'
    } else if c == 'P' {
        'p'
    } else if c == 'Q' {
        'q'
    } else if c == 'R' {
        'r'
    } else if c == 'S' {
        's'
    } else if c == 'T' {
        't'
    } else if c == 'U' {
        'u'
    } else if c == 'V' {
        'v'
    } else if c == 'W' {
        'w'
    } else if c == 'X' {
        'x'
    } else if c == 'Y' {
        'y'
    } else if c == 'Z' {
        'z'
    } else {
        c
    }
}

fn lower_char(c: char) -> (r: char)
    ensures
        r == spec_lower_char(c),
{
    if c == 'A' {
        'a'
    } else if c == 'B' {
        'b'
    } else if c == 'C' {
        'c'
    } else if c == 'D' {
        'd'
    } else if c == 'E' {
        'e'
    } else if c == 'F' {
        'f'
    } else if c == 'G' {
        'g'
    } else if c == 'H' {
        'h'
    } else if c == 'I' {
        'i'
    } else if c == 'J' {
        'j'
    } else if c == 'K' {
        'k'
    } else if c == 'L' {
        'l'
    } else if c == 'M' {
        'm'
    } else if c == 'N' {
        'n'
    } else if c == 'O' {
        'o'
    } else if c == 'P' {
        'p'
    } else if c == 'Q' {
        'q'
    } else if c == 'R' {
        'r'
    } else if c == 'S' {
        's'
    } else if c == 'T' {
        't'
    } else if c == 'U' {
        'u'
    } else if c == 'V' {
        'v'
    } else if c == 'W' {
        'w'
    } else if c == 'X' {
        'x'
    } else if c == 'Y' {
        'y'
    } else if c == 'Z' {
        'z'
    } else {
        c
    }
}

/// A text with its ASCII letters lowered.
pub open spec fn spec_lower(s: Seq<char>) -> Seq<char> {
    s.map_values(|c: char| spec_lower_char(c))
}

/// Lowers the ASCII letters of a text.
pub fn lower_chars(v: &[char]) -> (r: Vec<char>)
    ensures
        r@ == spec_lower(v@),
{
    let mut out: Vec<char> = Vec::new();
    let mut i: usize = 0;
    while i < v.len()
        invariant
            i <= v@.len(),
            out@.len() == i,
            forall|k: int| 0 <= k < i ==> out@[k] == spec_lower_char(v@[k]),
        decreases v@.len() - i,
    {
        out.push(lower_char(v[i]));
        i += 1;
    }
    proof {
        assert(out@ =~= spec_lower(v@));
    }
    out
}

/// True when `h` holds `n` somewhere, letter case ignored, as SQL's LIKE
/// with surrounding wildcards matches ASCII text.
pub open spec fn spec_contains_ci(h: Seq<char>, n: Seq<char>) -> bool {
    spec_find(spec_lower(h), spec_lower(n), 0) is Some
}

/// Case-insensitive containment check; `n_lower` is the pattern already
/// lowered.
pub fn contains_ci(h: &str, n_lower: &[char]) -> (r: bool)
    requires
        n_lower@ == spec_lower(n_lower@),
    ensures
        r == spec_contains_ci(h@, n_lower@),
{
    let hc = str_to_chars(h);
    let hl = lower_chars(hc.as_slice());
    let r = find_from(hl.as_slice(), n_lower, 0);
    proof {
        assert(spec_lower(n_lower@) == n_lower@);
    }
    r.is_some()
}

/// Relies on str::chars collected into a Vec: the characters of the slice, in
/// order.
#[verifier::external_body]
pub fn str_to_chars(s: &str) -> (r: Vec<char>)
    ensures
        r@ == s@,
{
    s.chars().collect()
}

/// Relies on String's FromIterator over chars: the collected string holds
/// exactly the given characters.
#[verifier::external_body]
pub fn chars_to_string(v: &[char]) -> (r: String)
    ensures
        r@ == v@,
{
    v.iter().collect()
}

} // verus!
