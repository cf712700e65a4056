//! Character-level text model shared by the delivery, hook and settings logic.
//!
//! Strings are viewed as `Seq<char>`; every helper here states its result over
//! that view so that callers can reason about trimming, case folding and
//! substring search without looking at byte offsets.
use vstd::prelude::*;

verus! {

broadcast use vstd::string::group_string_axioms;

/// Unicode `White_Space` code points, as used by `char::is_whitespace`.
pub open spec fn is_ws(c: char) -> bool {
    let u = c as u32;
    (0x09 <= u && u <= 0x0D) || u == 0x20 || u == 0x85 || u == 0xA0 || u == 0x1680
        || (0x2000 <= u && u <= 0x200A) || u == 0x2028 || u == 0x2029 || u == 0x202F
        || u == 0x205F || u == 0x3000
}

pub fn char_is_ws(c: char) -> (r: bool)
    ensures
        r == is_ws(c),
{
    let u = c as u32;
    (0x09 <= u && u <= 0x0D) || u == 0x20 || u == 0x85 || u == 0xA0 || u == 0x1680 || (0x2000
        <= u && u <= 0x200A) || u == 0x2028 || u == 0x2029 || u == 0x202F || u == 0x205F || u
        == 0x3000
}

/// ASCII lower-casing of one character (`char::to_ascii_lowercase`).
pub open spec fn lower_char(c: char) -> char {
    if 'A' <= c && c <= 'Z' {
        ((c as u32) + 32) as char
    } else {
        c
    }
}

pub fn char_to_lower(c: char) -> (r: char)
    ensures
        r == lower_char(c),
{
    if 'A' <= c && c <= 'Z' {
        let b: u8 = (c as u8) + 32;
        b as char
    } else {
        c
    }
}

/// ASCII lower-casing of a whole sequence (`str::to_ascii_lowercase`).
pub open spec fn lower_seq(s: Seq<char>) -> Seq<char> {
    s.map_values(|c: char| lower_char(c))
}

pub open spec fn is_ascii_digit(c: char) -> bool {
    '0' <= c && c <= '9'
}

pub open spec fn is_ascii_alpha(c: char) -> bool {
    ('a' <= c && c <= 'z') || ('A' <= c && c <= 'Z')
}

pub open spec fn is_ascii_alnum(c: char) -> bool {
    is_ascii_digit(c) || is_ascii_alpha(c)
}

/// Number of UTF-8 bytes that encode `c` (`char::len_utf8`).
pub open spec fn utf8_width(c: char) -> nat {
    let u = c as u32;
    if u < 0x80 {
        1
    } else if u < 0x800 {
        2
    } else if u < 0x10000 {
        3
    } else {
        4
    }
}

/// Byte length of the UTF-8 encoding of `s` (`str::len`).
pub open spec fn byte_len(s: Seq<char>) -> nat
    decreases s.len(),
{
    if s.len() == 0 {
        0
    } else {
        byte_len(s.drop_last()) + utf8_width(s.last())
    }
}

/// Leading whitespace removed (`str::trim_start`).
pub open spec fn trim_start_seq(s: Seq<char>) -> Seq<char>
    decreases s.len(),
{
    if s.len() > 0 && is_ws(s[0]) {
        trim_start_seq(s.drop_first())
    } else {
        s
    }
}

/// Trailing whitespace removed (`str::trim_end`).
pub open spec fn trim_end_seq(s: Seq<char>) -> Seq<char>
    decreases s.len(),
{
    if s.len() > 0 && is_ws(s.last()) {
        trim_end_seq(s.drop_last())
    } else {
        s
    }
}

/// Whitespace removed at both ends (`str::trim`).
pub open spec fn trim_seq(s: Seq<char>) -> Seq<char> {
    trim_end_seq(trim_start_seq(s))
}

/// `s` begins with `p`.
pub open spec fn has_prefix(s: Seq<char>, p: Seq<char>) -> bool {
    p.len() <= s.len() && s.subrange(0, p.len() as int) == p
}

/// `s` ends with `p`.
pub open spec fn has_suffix(s: Seq<char>, p: Seq<char>) -> bool {
    p.len() <= s.len() && s.subrange(s.len() - p.len(), s.len() as int) == p
}

/// `n` occurs in `s` at position `i`.
pub open spec fn occurs_at(s: Seq<char>, n: Seq<char>, i: int) -> bool {
    0 <= i && i + n.len() <= s.len() && s.subrange(i, i + n.len()) == n
}

/// `n` occurs somewhere in `s` (`str::contains`).
pub open spec fn contains_seq(s: Seq<char>, n: Seq<char>) -> bool {
    exists|i: int| occurs_at(s, n, i)
}

/// `i` is the first position at which `n` occurs in `s` (`str::find`).
pub open spec fn is_first_occurrence(s: Seq<char>, n: Seq<char>, i: int) -> bool {
    occurs_at(s, n, i) && forall|j: int| 0 <= j < i ==> !occurs_at(s, n, j)
}

/// `i` is the last position at which `n` occurs in `s` (`str::rfind`).
pub open spec fn is_last_occurrence(s: Seq<char>, n: Seq<char>, i: int) -> bool {
    occurs_at(s, n, i) && forall|j: int| i < j <= s.len() ==> !occurs_at(s, n, j)
}

/// Index of the first occurrence of `n` in `s`, or `-1` (`str::find`).
pub open spec fn find_seq(s: Seq<char>, n: Seq<char>) -> int
    decreases s.len(),
{
    if occurs_at(s, n, 0) {
        0
    } else if s.len() == 0 {
        -1
    } else {
        let k = find_seq(s.drop_first(), n);
        if k < 0 {
            -1
        } else {
            k + 1
        }
    }
}

/// Index of the last occurrence of `n` in `s`, or `-1` (`str::rfind`).
pub open spec fn rfind_seq(s: Seq<char>, n: Seq<char>) -> int
    decreases s.len(),
{
    if s.len() < n.len() {
        -1
    } else if occurs_at(s, n, s.len() - n.len()) {
        s.len() - n.len()
    } else if s.len() == 0 {
        -1
    } else {
        rfind_seq(s.drop_last(), n)
    }
}

pub proof fn lemma_occurs_shift(s: Seq<char>, n: Seq<char>, k: int)
    requires
        s.len() > 0,
        k >= 0,
    ensures
        occurs_at(s.drop_first(), n, k) <==> occurs_at(s, n, k + 1),
{
    if 0 <= k && k + n.len() <= s.len() - 1 {
        assert(s.drop_first().subrange(k, k + n.len()) =~= s.subrange(k + 1, k + 1 + n.len()));
    }
}

pub proof fn lemma_occurs_drop_last(s: Seq<char>, n: Seq<char>, k: int)
    requires
        s.len() > 0,
        k + n.len() <= s.len() - 1,
    ensures
        occurs_at(s.drop_last(), n, k) <==> occurs_at(s, n, k),
{
    if 0 <= k {
        assert(s.drop_last().subrange(k, k + n.len()) =~= s.subrange(k, k + n.len()));
    }
}

/// `find_seq` is the first occurrence, or `-1` when there is none.
pub proof fn lemma_find_seq(s: Seq<char>, n: Seq<char>)
    ensures
        -1 <= find_seq(s, n) <= s.len(),
        find_seq(s, n) >= 0 ==> is_first_occurrence(s, n, find_seq(s, n)),
        find_seq(s, n) == -1 <==> !contains_seq(s, n),
    decreases s.len(),
{
    if occurs_at(s, n, 0) {
    } else if s.len() == 0 {
        assert forall|i: int| !occurs_at(s, n, i) by {
            if occurs_at(s, n, i) {
                assert(i == 0);
            }
        }
    } else {
        let t = s.drop_first();
        lemma_find_seq(t, n);
        let k = find_seq(t, n);
        if k >= 0 {
            lemma_occurs_shift(s, n, k);
            assert forall|j: int| 0 <= j < k + 1 implies !occurs_at(s, n, j) by {
                if j > 0 {
                    lemma_occurs_shift(s, n, j - 1);
                }
            }
        } else {
            assert forall|i: int| !occurs_at(s, n, i) by {
                if i >= 1 {
                    lemma_occurs_shift(s, n, i - 1);
                    assert(!occurs_at(t, n, i - 1));
                }
            }
        }
    }
}

/// `rfind_seq` is the last occurrence, or `-1` when there is none.
pub proof fn lemma_rfind_seq(s: Seq<char>, n: Seq<char>)
    ensures
        -1 <= rfind_seq(s, n) <= s.len(),
        rfind_seq(s, n) >= 0 ==> is_last_occurrence(s, n, rfind_seq(s, n)),
        rfind_seq(s, n) == -1 <==> !contains_seq(s, n),
    decreases s.len(),
{
    if s.len() < n.len() {
        assert forall|i: int| !occurs_at(s, n, i) by {}
    } else if occurs_at(s, n, s.len() - n.len()) {
    } else if s.len() == 0 {
        assert forall|i: int| !occurs_at(s, n, i) by {}
    } else {
        let t = s.drop_last();
        lemma_rfind_seq(t, n);
        assert forall|j: int| s.len() - n.len() <= j <= s.len() implies !occurs_at(s, n, j) by {}
        assert forall|j: int| j < s.len() - n.len() implies (occurs_at(t, n, j) <==> occurs_at(
            s,
            n,
            j,
        )) by {
            lemma_occurs_drop_last(s, n, j);
        }
        assert forall|j: int| j > t.len() - n.len() implies !occurs_at(t, n, j) by {}
    }
}

/// `s` without a final `'\r'`.
pub open spec fn strip_cr(s: Seq<char>) -> Seq<char> {
    if s.len() > 0 && s.last() == '\r' {
        s.drop_last()
    } else {
        s
    }
}

/// The lines of `s` (`str::lines`): split at `'\n'`, a `'\r'` before the
/// `'\n'` dropped, and no empty line after a final `'\n'`.
pub open spec fn lines_seq(s: Seq<char>) -> Seq<Seq<char>>
    decreases s.len(),
{
    let k = find_seq(s, seq!['\n']);
    if s.len() == 0 {
        Seq::empty()
    } else if k < 0 || k >= s.len() {
        seq![s]
    } else {
        seq![strip_cr(s.subrange(0, k))] + lines_seq(s.subrange(k + 1, s.len() as int))
    }
}

/// The first `n` characters of `s` (`s.chars().take(n)`).
pub open spec fn take_chars(s: Seq<char>, n: nat) -> Seq<char> {
    if s.len() <= n {
        s
    } else {
        s.subrange(0, n as int)
    }
}

/// Index of the first character of `s` that belongs to `cs`, or `s.len()`.
pub open spec fn first_in_set(s: Seq<char>, cs: Seq<char>) -> int
    decreases s.len(),
{
    if s.len() == 0 {
        0
    } else if cs.contains(s[0]) {
        0
    } else {
        1 + first_in_set(s.drop_first(), cs)
    }
}

/// The part of `s` before the first character in `cs` (`s.split(cs).next()`).
pub open spec fn before_set(s: Seq<char>, cs: Seq<char>) -> Seq<char> {
    s.subrange(0, first_in_set(s, cs))
}

/// Leading characters that belong to `cs` removed.
pub open spec fn trim_start_set(s: Seq<char>, cs: Seq<char>) -> Seq<char>
    decreases s.len(),
{
    if s.len() > 0 && cs.contains(s[0]) {
        trim_start_set(s.drop_first(), cs)
    } else {
        s
    }
}

/// Trailing characters that belong to `cs` removed.
pub open spec fn trim_end_set(s: Seq<char>, cs: Seq<char>) -> Seq<char>
    decreases s.len(),
{
    if s.len() > 0 && cs.contains(s.last()) {
        trim_end_set(s.drop_last(), cs)
    } else {
        s
    }
}

/// Characters of `cs` removed at both ends (`str::trim_matches`).
pub open spec fn trim_set(s: Seq<char>, cs: Seq<char>) -> Seq<char> {
    trim_end_set(trim_start_set(s, cs), cs)
}

pub proof fn lemma_first_in_set_bounds(s: Seq<char>, cs: Seq<char>)
    ensures
        0 <= first_in_set(s, cs) <= s.len(),
        forall|k: int| 0 <= k < first_in_set(s, cs) ==> !cs.contains(#[trigger] s[k]),
        first_in_set(s, cs) < s.len() ==> cs.contains(s[first_in_set(s, cs)]),
    decreases s.len(),
{
    if s.len() > 0 && !cs.contains(s[0]) {
        lemma_first_in_set_bounds(s.drop_first(), cs);
        assert forall|k: int| 0 <= k < first_in_set(s, cs) implies !cs.contains(#[trigger] s[k]) by {
            if k > 0 {
                assert(s[k] == s.drop_first()[k - 1]);
            }
        }
    }
}

/// The pieces of `s` between occurrences of `c` (`str::split`): never empty.
pub open spec fn split_char(s: Seq<char>, c: char) -> Seq<Seq<char>>
    decreases s.len(),
{
    let k = find_seq(s, seq![c]);
    if k < 0 || k >= s.len() {
        seq![s]
    } else {
        seq![s.subrange(0, k)] + split_char(s.subrange(k + 1, s.len() as int), c)
    }
}

/// Every occurrence of `n` in `s` replaced by `r`, left to right (`str::replace`
/// for a non-empty pattern).
pub open spec fn replace_all_seq(s: Seq<char>, n: Seq<char>, r: Seq<char>) -> Seq<char>
    decreases s.len(),
{
    let i = find_seq(s, n);
    if i < 0 || n.len() == 0 || i + n.len() > s.len() {
        s
    } else {
        s.subrange(0, i) + r + replace_all_seq(s.subrange(i + n.len(), s.len() as int), n, r)
    }
}

/// Copies a string slice into a vector of characters.
pub fn chars_of(s: &str) -> (v: Vec<char>)
    ensures
        v@ == s@,
{
    let mut v: Vec<char> = Vec::new();
    for c in it: s.chars()
        invariant
            v@ == it.seq().take(it.index()),
            it.seq() == s@,
    {
        v.push(c);
    }
    assert(v@ =~= s@);
    v
}


/// Appends one character to a `String` (`String::push`).
#[verifier::external_body]
pub(crate) fn push_char(s: &mut String, c: char)
    ensures
        final(s)@ == old(s)@.push(c),
{
    s.push(c);
}

/// Builds a `String` holding exactly the characters of `v`.
pub fn string_of(v: &Vec<char>) -> (r: String)
    ensures
        r@ == v@,
{
    let mut r = String::new();
    let mut i: usize = 0;
    while i < v.len()
        invariant
            i <= v.len(),
            r@ == v@.subrange(0, i as int),
        decreases v.len() - i,
    {
        push_char(&mut r, v[i]);
        i += 1;
        assert(r@ =~= v@.subrange(0, i as int));
    }
    assert(r@ =~= v@);
    r
}

/// The characters of `v` between `a` and `b`.
pub fn subvec(v: &Vec<char>, a: usize, b: usize) -> (r: Vec<char>)
    requires
        a <= b <= v.len(),
    ensures
        r@ == v@.subrange(a as int, b as int),
{
    let mut r: Vec<char> = Vec::new();
    let mut i = a;
    while i < b
        invariant
            a <= i <= b <= v.len(),
            r@ == v@.subrange(a as int, i as int),
        decreases b - i,
    {
        r.push(v[i]);
        i += 1;
        assert(r@ =~= v@.subrange(a as int, i as int));
    }
    r
}

/// Concatenation of two character vectors.
pub fn concat(a: &Vec<char>, b: &Vec<char>) -> (r: Vec<char>)
    ensures
        r@ == a@ + b@,
{
    let mut r = a.clone();
    let mut i: usize = 0;
    while i < b.len()
        invariant
            i <= b.len(),
            r@ == a@ + b@.subrange(0, i as int),
        decreases b.len() - i,
    {
        r.push(b[i]);
        i += 1;
        assert(r@ =~= a@ + b@.subrange(0, i as int));
    }
    assert(b@.subrange(0, b@.len() as int) =~= b@);
    r
}

/// Appends the characters of `b` to `a`.
pub fn append_vec(a: &mut Vec<char>, b: &Vec<char>)
    ensures
        final(a)@ == old(a)@ + b@,
{
    let mut i: usize = 0;
    while i < b.len()
        invariant
            i <= b.len(),
            a@ == old(a)@ + b@.subrange(0, i as int),
        decreases b.len() - i,
    {
        a.push(b[i]);
        i += 1;
        assert(a@ =~= old(a)@ + b@.subrange(0, i as int));
    }
    assert(b@.subrange(0, b@.len() as int) =~= b@);
}

/// Appends the characters of a string slice to `a`.
pub fn append_str(a: &mut Vec<char>, b: &str)
    ensures
        final(a)@ == old(a)@ + b@,
{
    let bv = chars_of(b);
    append_vec(a, &bv);
}

/// Character-wise equality of two vectors.
pub fn vec_eq(a: &Vec<char>, b: &Vec<char>) -> (r: bool)
    ensures
        r == (a@ == b@),
{
    if a.len() != b.len() {
        return false;
    }
    let mut i: usize = 0;
    while i < a.len()
        invariant
            i <= a.len(),
            a.len() == b.len(),
            forall|k: int| 0 <= k < i ==> a@[k] == b@[k],
        decreases a.len() - i,
    {
        if a[i] != b[i] {
            return false;
        }
        i += 1;
    }
    assert(a@ =~= b@);
    true
}

/// ASCII lower-casing of every character.
pub fn lower_vec(v: &Vec<char>) -> (r: Vec<char>)
    ensures
        r@ == lower_seq(v@),
{
    let mut r: Vec<char> = Vec::new();
    let mut i: usize = 0;
    while i < v.len()
        invariant
            i <= v.len(),
            r@ == lower_seq(v@.subrange(0, i as int)),
        decreases v.len() - i,
    {
        let c = char_to_lower(v[i]);
        r.push(c);
        i += 1;
        assert(r@ =~= lower_seq(v@.subrange(0, i as int)));
    }
    assert(v@.subrange(0, v@.len() as int) =~= v@);
    r
}

/// Whether `n` occurs in `h` at position `i`.
pub fn matches_at(h: &Vec<char>, n: &Vec<char>, i: usize) -> (r: bool)
    ensures
        r == occurs_at(h@, n@, i as int),
{
    if i > h.len() || n.len() > h.len() - i {
        return false;
    }
    let mut k: usize = 0;
    while k < n.len()
        invariant
            k <= n.len(),
            i + n.len() <= h.len(),
            forall|j: int| 0 <= j < k ==> h@[i + j] == n@[j],
        decreases n.len() - k,
    {
        if h[i + k] != n[k] {
            assert(h@.subrange(i as int, i + n.len())[k as int] != n@[k as int]);
            return false;
        }
        k += 1;
    }
    assert(h@.subrange(i as int, i + n.len()) =~= n@);
    true
}

/// First position at or after `start` where `n` occurs in `h`.
pub fn find_from(h: &Vec<char>, n: &Vec<char>, start: usize) -> (r: Option<usize>)
    ensures
        match r {
            Some(i) => start <= i && occurs_at(h@, n@, i as int) && forall|j: int|
                start <= j < i ==> !occurs_at(h@, n@, j),
            None => forall|j: int| start <= j ==> !occurs_at(h@, n@, j),
        },
{
    let mut i = start;
    while i < h.len()
        invariant
            start <= i,
            forall|j: int| start <= j < i ==> !occurs_at(h@, n@, j),
        decreases h.len() - i,
    {
        if matches_at(h, n, i) {
            return Some(i);
        }
        i += 1;
    }
    if i == h.len() && matches_at(h, n, i) {
        return Some(i);
    }
    assert forall|j: int| start <= j implies !occurs_at(h@, n@, j) by {
        if j > h@.len() {
            assert(!occurs_at(h@, n@, j));
        }
    }
    None
}

/// First position where `n` occurs in `h`.
pub fn find(h: &Vec<char>, n: &Vec<char>) -> (r: Option<usize>)
    ensures
        match r {
            Some(i) => is_first_occurrence(h@, n@, i as int) && i == find_seq(h@, n@),
            None => !contains_seq(h@, n@) && find_seq(h@, n@) == -1,
        },
{
    let r = find_from(h, n, 0);
    proof {
        lemma_find_seq(h@, n@);
        let f = find_seq(h@, n@);
        if let Some(i) = r {
            if f >= 0 && f != i {
                if f < i {
                    assert(!occurs_at(h@, n@, f));
                } else {
                    assert(!occurs_at(h@, n@, i as int));
                }
            }
        }
    }
    r
}

/// Last position where `n` occurs in `h`.
pub fn rfind(h: &Vec<char>, n: &Vec<char>) -> (r: Option<usize>)
    ensures
        match r {
            Some(i) => is_last_occurrence(h@, n@, i as int) && i == rfind_seq(h@, n@),
            None => !contains_seq(h@, n@) && rfind_seq(h@, n@) == -1,
        },
{
    proof {
        lemma_rfind_seq(h@, n@);
    }
    if n.len() > h.len() {
        return None;
    }
    let top: usize = h.len() - n.len();
    let mut i: usize = top;
    loop
        invariant
            i <= top,
            top + n.len() == h.len(),
            forall|j: int| i < j <= h@.len() ==> !occurs_at(h@, n@, j),
            -1 <= rfind_seq(h@, n@) <= h@.len(),
            rfind_seq(h@, n@) >= 0 ==> is_last_occurrence(h@, n@, rfind_seq(h@, n@)),
            rfind_seq(h@, n@) == -1 <==> !contains_seq(h@, n@),
        decreases i,
    {
        if matches_at(h, n, i) {
            proof {
                let f = rfind_seq(h@, n@);
                if f != i {
                    if f > i {
                        assert(!occurs_at(h@, n@, f));
                    } else if f >= 0 {
                        assert(!occurs_at(h@, n@, i as int));
                    }
                }
            }
            return Some(i);
        }
        if i == 0 {
            assert forall|j: int| !occurs_at(h@, n@, j) by {
                if j < 0 {
                }
            }
            return None;
        }
        i -= 1;
    }
}

/// Whether `n` occurs in `h`.
pub fn contains(h: &Vec<char>, n: &Vec<char>) -> (r: bool)
    ensures
        r == contains_seq(h@, n@),
{
    find(h, n).is_some()
}

/// Whether `h` begins with `p`.
pub fn starts_with(h: &Vec<char>, p: &Vec<char>) -> (r: bool)
    ensures
        r == has_prefix(h@, p@),
{
    matches_at(h, p, 0)
}

/// Whether `h` ends with `p`.
pub fn ends_with(h: &Vec<char>, p: &Vec<char>) -> (r: bool)
    ensures
        r == has_suffix(h@, p@),
{
    if p.len() > h.len() {
        return false;
    }
    matches_at(h, p, h.len() - p.len())
}

/// Whether any character of `v` satisfies `is_ws`.
pub fn has_ws(v: &Vec<char>) -> (r: bool)
    ensures
        r == exists|k: int| 0 <= k < v@.len() && is_ws(v@[k]),
{
    let mut i: usize = 0;
    while i < v.len()
        invariant
            i <= v.len(),
            forall|k: int| 0 <= k < i ==> !is_ws(v@[k]),
        decreases v.len() - i,
    {
        if char_is_ws(v[i]) {
            return true;
        }
        i += 1;
    }
    false
}

pub proof fn lemma_trim_start_skip(s: Seq<char>, i: int)
    requires
        0 <= i <= s.len(),
        forall|k: int| 0 <= k < i ==> is_ws(s[k]),
    ensures
        trim_start_seq(s) == trim_start_seq(s.subrange(i, s.len() as int)),
    decreases i,
{
    if i == 0 {
        assert(s.subrange(0, s.len() as int) =~= s);
    } else {
        assert(is_ws(s[0]));
        let t = s.drop_first();
        assert forall|k: int| 0 <= k < i - 1 implies is_ws(t[k]) by {
            assert(t[k] == s[k + 1]);
        }
        lemma_trim_start_skip(t, i - 1);
        assert(t.subrange(i - 1, t.len() as int) =~= s.subrange(i, s.len() as int));
    }
}

pub proof fn lemma_trim_end_skip(s: Seq<char>, j: int)
    requires
        0 <= j <= s.len(),
        forall|k: int| j <= k < s.len() ==> is_ws(s[k]),
    ensures
        trim_end_seq(s) == trim_end_seq(s.subrange(0, j)),
    decreases s.len() - j,
{
    if j == s.len() {
        assert(s.subrange(0, j) =~= s);
    } else {
        assert(is_ws(s.last()));
        let t = s.drop_last();
        lemma_trim_end_skip(t, j);
        assert(t.subrange(0, j) =~= s.subrange(0, j));
    }
}

/// A text with no whitespace at either end is its own trim.
pub proof fn lemma_trim_identity(s: Seq<char>)
    requires
        s.len() == 0 || (!is_ws(s[0]) && !is_ws(s.last())),
    ensures
        trim_seq(s) == s,
{
}

pub proof fn lemma_trim_start_len(s: Seq<char>)
    ensures
        trim_start_seq(s).len() <= s.len(),
    decreases s.len(),
{
    if s.len() > 0 && is_ws(s[0]) {
        lemma_trim_start_len(s.drop_first());
    }
}

/// `trim_end_seq(s)` is a prefix of `s`.
pub proof fn lemma_trim_end_prefix(s: Seq<char>)
    ensures
        trim_end_seq(s).len() <= s.len(),
        trim_end_seq(s) == s.subrange(0, trim_end_seq(s).len() as int),
    decreases s.len(),
{
    if s.len() > 0 && is_ws(s.last()) {
        lemma_trim_end_prefix(s.drop_last());
        let t = trim_end_seq(s.drop_last());
        assert(s.drop_last().subrange(0, t.len() as int) =~= s.subrange(0, t.len() as int));
    } else {
        assert(s.subrange(0, s.len() as int) =~= s);
    }
}

/// Bounds `(a, b)` such that `v[a..b]` is `v` with whitespace trimmed at both ends.
pub fn trim_bounds(v: &Vec<char>) -> (r: (usize, usize))
    ensures
        r.0 <= r.1 <= v.len(),
        v@.subrange(r.0 as int, r.1 as int) == trim_seq(v@),
        trim_start_seq(v@) == v@.subrange(r.0 as int, v@.len() as int),
{
    let mut a: usize = 0;
    while a < v.len() && char_is_ws(v[a])
        invariant
            a <= v.len(),
            forall|k: int| 0 <= k < a ==> is_ws(v@[k]),
        decreases v.len() - a,
    {
        a += 1;
    }
    proof {
        lemma_trim_start_skip(v@, a as int);
        let t = v@.subrange(a as int, v@.len() as int);
        if t.len() > 0 {
            assert(t[0] == v@[a as int]);
        }
        assert(trim_start_seq(t) == t);
    }
    let mut b: usize = v.len();
    while b > a && char_is_ws(v[b - 1])
        invariant
            a <= b <= v.len(),
            forall|k: int| b <= k < v@.len() ==> is_ws(v@[k]),
        decreases b,
    {
        b -= 1;
    }
    proof {
        let t = v@.subrange(a as int, v@.len() as int);
        lemma_trim_end_skip(t, b - a);
        let u = t.subrange(0, b - a);
        assert(u =~= v@.subrange(a as int, b as int));
        if u.len() > 0 {
            assert(u.last() == v@[b - 1]);
        }
        assert(trim_end_seq(u) == u);
    }
    (a, b)
}

/// `v` with whitespace trimmed at both ends.
pub fn trim_vec(v: &Vec<char>) -> (r: Vec<char>)
    ensures
        r@ == trim_seq(v@),
{
    let (a, b) = trim_bounds(v);
    subvec(v, a, b)
}

/// `v` with leading whitespace removed.
pub fn trim_start_vec(v: &Vec<char>) -> (r: Vec<char>)
    ensures
        r@ == trim_start_seq(v@),
{
    let (a, _b) = trim_bounds(v);
    subvec(v, a, v.len())
}

/// `v` with trailing whitespace removed.
pub fn trim_end_vec(v: &Vec<char>) -> (r: Vec<char>)
    ensures
        r@ == trim_end_seq(v@),
{
    let mut b: usize = v.len();
    while b > 0 && char_is_ws(v[b - 1])
        invariant
            b <= v.len(),
            forall|k: int| b <= k < v@.len() ==> is_ws(v@[k]),
        decreases b,
    {
        b -= 1;
    }
    proof {
        lemma_trim_end_skip(v@, b as int);
        let u = v@.subrange(0, b as int);
        if u.len() > 0 {
            assert(u.last() == v@[b - 1]);
        }
        assert(trim_end_seq(u) == u);
    }
    subvec(v, 0, b)
}

/// Whether `cs` holds `c`.
pub fn set_has(cs: &Vec<char>, c: char) -> (r: bool)
    ensures
        r == cs@.contains(c),
{
    let mut i: usize = 0;
    while i < cs.len()
        invariant
            i <= cs.len(),
            forall|k: int| 0 <= k < i ==> cs@[k] != c,
        decreases cs.len() - i,
    {
        if cs[i] == c {
            return true;
        }
        i += 1;
    }
    false
}

/// Index (relative to `a`) of the first character of `v[a..]` in `cs`.
pub fn first_in_set_from(v: &Vec<char>, a: usize, cs: &Vec<char>) -> (r: usize)
    requires
        a <= v.len(),
    ensures
        r as int == first_in_set(v@.subrange(a as int, v@.len() as int), cs@),
        a + r <= v.len(),
{
    let mut i = a;
    while i < v.len() && !set_has(cs, v[i])
        invariant
            a <= i <= v.len(),
            first_in_set(v@.subrange(a as int, v@.len() as int), cs@) == (i - a) + first_in_set(
                v@.subrange(i as int, v@.len() as int),
                cs@,
            ),
        decreases v.len() - i,
    {
        proof {
            let t = v@.subrange(i as int, v@.len() as int);
            assert(t.drop_first() =~= v@.subrange(i + 1, v@.len() as int));
        }
        i += 1;
    }
    proof {
        let t = v@.subrange(i as int, v@.len() as int);
        if i < v.len() {
            assert(t[0] == v@[i as int]);
        }
    }
    i - a
}

/// `v` up to its first character in `cs`.
pub fn before_set_vec(v: &Vec<char>, cs: &Vec<char>) -> (r: Vec<char>)
    ensures
        r@ == before_set(v@, cs@),
{
    let k = first_in_set_from(v, 0, cs);
    assert(v@.subrange(0, v@.len() as int) =~= v@);
    subvec(v, 0, k)
}

/// `v` with characters of `cs` removed at both ends.
pub fn trim_set_vec(v: &Vec<char>, cs: &Vec<char>) -> (r: Vec<char>)
    ensures
        r@ == trim_set(v@, cs@),
{
    let mut a: usize = 0;
    assert(v@.subrange(0, v@.len() as int) =~= v@);
    while a < v.len() && set_has(cs, v[a])
        invariant
            a <= v.len(),
            trim_start_set(v@, cs@) == trim_start_set(v@.subrange(a as int, v@.len() as int), cs@),
        decreases v.len() - a,
    {
        proof {
            let t = v@.subrange(a as int, v@.len() as int);
            assert(t.drop_first() =~= v@.subrange(a + 1, v@.len() as int));
        }
        a += 1;
    }
    proof {
        let t = v@.subrange(a as int, v@.len() as int);
        if a < v.len() {
            assert(t[0] == v@[a as int]);
        }
        assert(trim_start_set(t, cs@) == t);
    }
    let mut b: usize = v.len();
    while b > a && set_has(cs, v[b - 1])
        invariant
            a <= b <= v.len(),
            trim_end_set(v@.subrange(a as int, v@.len() as int), cs@) == trim_end_set(v@.subrange(a as int, b as int), cs@),
        decreases b,
    {
        proof {
            let t = v@.subrange(a as int, b as int);
            assert(t.drop_last() =~= v@.subrange(a as int, b - 1));
        }
        b -= 1;
    }
    proof {
        let t = v@.subrange(a as int, b as int);
        if b > a {
            assert(t.last() == v@[b - 1]);
        }
        assert(trim_end_set(t, cs@) == t);
    }
    subvec(v, a, b)
}

/// `v` with trailing characters of `cs` removed.
pub fn trim_end_set_vec(v: &Vec<char>, cs: &Vec<char>) -> (r: Vec<char>)
    ensures
        r@ == trim_end_set(v@, cs@),
{
    let mut b: usize = v.len();
    assert(v@.subrange(0, v@.len() as int) =~= v@);
    while b > 0 && set_has(cs, v[b - 1])
        invariant
            b <= v.len(),
            trim_end_set(v@, cs@) == trim_end_set(v@.subrange(0, b as int), cs@),
        decreases b,
    {
        proof {
            let t = v@.subrange(0, b as int);
            assert(t.drop_last() =~= v@.subrange(0, b - 1));
        }
        b -= 1;
    }
    proof {
        let t = v@.subrange(0, b as int);
        if b > 0 {
            assert(t.last() == v@[b - 1]);
        }
        assert(trim_end_set(t, cs@) == t);
    }
    subvec(v, 0, b)
}

/// `v` with leading characters of `cs` removed.
pub fn trim_start_set_vec(v: &Vec<char>, cs: &Vec<char>) -> (r: Vec<char>)
    ensures
        r@ == trim_start_set(v@, cs@),
{
    let mut a: usize = 0;
    assert(v@.subrange(0, v@.len() as int) =~= v@);
    while a < v.len() && set_has(cs, v[a])
        invariant
            a <= v.len(),
            trim_start_set(v@, cs@) == trim_start_set(v@.subrange(a as int, v@.len() as int), cs@),
        decreases v.len() - a,
    {
        proof {
            let t = v@.subrange(a as int, v@.len() as int);
            assert(t.drop_first() =~= v@.subrange(a + 1, v@.len() as int));
        }
        a += 1;
    }
    proof {
        let t = v@.subrange(a as int, v@.len() as int);
        if a < v.len() {
            assert(t[0] == v@[a as int]);
        }
        assert(trim_start_set(t, cs@) == t);
    }
    subvec(v, a, v.len())
}

/// Splits `v` at every `c`.
pub fn split_vec(v: &Vec<char>, c: char) -> (r: Vec<Vec<char>>)
    ensures
        r@.map_values(|l: Vec<char>| l@) == split_char(v@, c),
        r@.len() >= 1,
{
    let sep = vec![c];
    let mut out: Vec<Vec<char>> = Vec::new();
    let mut p: usize = 0;
    assert(v@.subrange(0, v@.len() as int) =~= v@);
    loop
        invariant
            p <= v.len(),
            sep@ == seq![c],
            split_char(v@, c) == out@.map_values(|l: Vec<char>| l@) + split_char(
                v@.subrange(p as int, v@.len() as int),
                c,
            ),
        decreases v.len() - p,
    {
        let rest = subvec(v, p, v.len());
        let k = find(&rest, &sep);
        proof {
            lemma_find_seq(rest@, sep@);
        }
        let ghost old_out = out@;
        match k {
            Some(ki) => {
                let piece = subvec(&rest, 0, ki);
                out.push(piece);
                proof {
                    assert(rest@.subrange(ki + 1, rest@.len() as int) =~= v@.subrange(
                        p + ki + 1,
                        v@.len() as int,
                    ));
                    assert(out@.map_values(|l: Vec<char>| l@) =~= old_out.map_values(
                        |l: Vec<char>| l@,
                    ).push(piece@));
                }
                p = p + ki + 1;
            },
            None => {
                out.push(rest);
                proof {
                    assert(out@.map_values(|l: Vec<char>| l@) =~= old_out.map_values(
                        |l: Vec<char>| l@,
                    ).push(rest@));
                    assert(out@.map_values(|l: Vec<char>| l@) =~= old_out.map_values(
                        |l: Vec<char>| l@,
                    ) + seq![rest@]);
                }
                return out;
            },
        }
    }
}

/// Every occurrence of `n` in `v` replaced by `r`.
pub fn replace_all_vec(v: &Vec<char>, n: &Vec<char>, r: &Vec<char>) -> (out: Vec<char>)
    ensures
        out@ == replace_all_seq(v@, n@, r@),
{
    let mut out: Vec<char> = Vec::new();
    let mut p: usize = 0;
    assert(v@.subrange(0, v@.len() as int) =~= v@);
    loop
        invariant
            p <= v.len(),
            replace_all_seq(v@, n@, r@) == out@ + replace_all_seq(v@.subrange(p as int, v@.len() as int), n@, r@),
        decreases v.len() - p,
    {
        let rest = subvec(v, p, v.len());
        let k = find(&rest, n);
        proof {
            lemma_find_seq(rest@, n@);
        }
        match k {
            Some(i) => {
                if n.len() == 0 {
                    append_vec(&mut out, &rest);
                    return out;
                }
                let ghost old_out = out@;
                let pre = subvec(&rest, 0, i);
                append_vec(&mut out, &pre);
                append_vec(&mut out, r);
                proof {
                    assert(rest@.subrange(i + n@.len(), rest@.len() as int) =~= v@.subrange(p + i + n@.len(), v@.len() as int));
                    assert(old_out + (pre@ + r@ + replace_all_seq(rest@.subrange(i + n@.len(), rest@.len() as int), n@, r@))
                        =~= out@ + replace_all_seq(v@.subrange(p + i + n@.len(), v@.len() as int), n@, r@));
                }
                p = p + i + n.len();
            },
            None => {
                append_vec(&mut out, &rest);
                return out;
            },
        }
    }
}

/// Whether every character of `v` satisfies `is_ascii_alnum`.
pub fn all_ascii_alnum(v: &Vec<char>) -> (r: bool)
    ensures
        r == forall|k: int| 0 <= k < v@.len() ==> is_ascii_alnum(#[trigger] v@[k]),
{
    let mut i: usize = 0;
    while i < v.len()
        invariant
            i <= v.len(),
            forall|k: int| 0 <= k < i ==> is_ascii_alnum(#[trigger] v@[k]),
        decreases v.len() - i,
    {
        let c = v[i];
        if !(('0' <= c && c <= '9') || ('a' <= c && c <= 'z') || ('A' <= c && c <= 'Z')) {
            return false;
        }
        i += 1;
    }
    true
}

/// Whether some character of `v` is an ASCII digit.
pub fn any_ascii_digit(v: &Vec<char>) -> (r: bool)
    ensures
        r == exists|k: int| 0 <= k < v@.len() && is_ascii_digit(#[trigger] v@[k]),
{
    let mut i: usize = 0;
    while i < v.len()
        invariant
            i <= v.len(),
            forall|k: int| 0 <= k < i ==> !is_ascii_digit(#[trigger] v@[k]),
        decreases v.len() - i,
    {
        if '0' <= v[i] && v[i] <= '9' {
            return true;
        }
        i += 1;
    }
    false
}

/// Whether `v` holds the character `c`.
pub fn has_char(v: &Vec<char>, c: char) -> (r: bool)
    ensures
        r == v@.contains(c),
{
    set_has(v, c)
}

/// The UTF-8 byte length of `v`, saturated at `cap`.
pub fn byte_len_capped(v: &Vec<char>, cap: usize) -> (r: usize)
    requires
        cap < 0x1000_0000,
    ensures
        r == if byte_len(v@) <= cap { byte_len(v@) as int } else { cap + 1 },
{
    let mut total: usize = 0;
    let mut i: usize = 0;
    while i < v.len()
        invariant
            i <= v.len(),
            total == byte_len(v@.subrange(0, i as int)),
            total <= cap,
            cap < 0x1000_0000,
        decreases v.len() - i,
    {
        let u = v[i] as u32;
        let w: usize = if u < 0x80 { 1 } else if u < 0x800 { 2 } else if u < 0x10000 { 3 } else { 4 };
        assert(v@.subrange(0, i + 1).drop_last() =~= v@.subrange(0, i as int));
        total = total + w;
        i += 1;
        if total > cap {
            proof {
                lemma_byte_len_prefix(v@, i as int);
            }
            return cap + 1;
        }
    }
    assert(v@.subrange(0, v@.len() as int) =~= v@);
    total
}

pub proof fn lemma_byte_len_prefix(s: Seq<char>, k: int)
    requires
        0 <= k <= s.len(),
    ensures
        byte_len(s.subrange(0, k)) <= byte_len(s),
    decreases s.len() - k,
{
    if k < s.len() {
        lemma_byte_len_prefix(s, k + 1);
        assert(s.subrange(0, k + 1).drop_last() =~= s.subrange(0, k));
    } else {
        assert(s.subrange(0, k) =~= s);
    }
}

/// The first `n` characters of `v`.
pub fn take_vec(v: &Vec<char>, n: usize) -> (r: Vec<char>)
    ensures
        r@ == take_chars(v@, n as nat),
{
    if v.len() <= n {
        assert(v@.subrange(0, v@.len() as int) =~= v@);
        subvec(v, 0, v.len())
    } else {
        subvec(v, 0, n)
    }
}

/// Splits `v` into its lines.
pub fn lines_vec(v: &Vec<char>) -> (r: Vec<Vec<char>>)
    ensures
        r@.map_values(|l: Vec<char>| l@) == lines_seq(v@),
{
    let nl = vec!['\n'];
    let mut out: Vec<Vec<char>> = Vec::new();
    let mut p: usize = 0;
    assert(v@.subrange(0, v@.len() as int) =~= v@);
    while p < v.len()
        invariant
            p <= v.len(),
            nl@ == seq!['\n'],
            lines_seq(v@) == out@.map_values(|l: Vec<char>| l@) + lines_seq(
                v@.subrange(p as int, v@.len() as int),
            ),
        decreases v.len() - p,
    {
        let rest = subvec(v, p, v.len());
        let k = find(&rest, &nl);
        proof {
            lemma_find_seq(rest@, nl@);
        }
        match k {
            Some(ki) => {
                if ki < rest.len() {
                    let mut line = subvec(&rest, 0, ki);
                    if line.len() > 0 && line[line.len() - 1] == '\r' {
                        line.pop();
                    }
                    let ghost old_out = out@;
                    out.push(line);
                    proof {
                        assert(rest@.subrange(ki + 1, rest@.len() as int) =~= v@.subrange(
                            p + ki + 1,
                            v@.len() as int,
                        ));
                        assert(out@.map_values(|l: Vec<char>| l@) =~= old_out.map_values(
                            |l: Vec<char>| l@,
                        ).push(line@));
                    }
                    p = p + ki + 1;
                } else {
                    proof {
                        assert(!occurs_at(rest@, nl@, ki as int));
                    }
                    p = v.len();
                }
            },
            None => {
                let ghost old_out = out@;
                out.push(rest);
                proof {
                    assert(out@.map_values(|l: Vec<char>| l@) =~= old_out.map_values(
                        |l: Vec<char>| l@,
                    ).push(rest@));
                    assert(v@.subrange(v@.len() as int, v@.len() as int) =~= Seq::<char>::empty());
                }
                p = v.len();
            },
        }
    }
    proof {
        assert(v@.subrange(p as int, v@.len() as int) =~= Seq::<char>::empty());
        assert(out@.map_values(|l: Vec<char>| l@) + Seq::<Seq<char>>::empty() =~= out@.map_values(
            |l: Vec<char>| l@,
        ));
    }
    out
}


/// The parts written one after another.
pub open spec fn join_seqs(parts: Seq<Seq<char>>) -> Seq<char>
    decreases parts.len(),
{
    if parts.len() == 0 {
        Seq::empty()
    } else {
        join_seqs(parts.drop_last()) + parts.last()
    }
}

/// The strings concatenated in order (`concat` / `join("")`).
pub fn join_strings(parts: &Vec<String>) -> (r: String)
    ensures
        r@ == join_seqs(parts@.map_values(|s: String| s@)),
{
    let ghost pv = parts@.map_values(|s: String| s@);
    let mut out: Vec<char> = Vec::new();
    let mut i: usize = 0;
    while i < parts.len()
        invariant
            i <= parts.len(),
            pv == parts@.map_values(|s: String| s@),
            out@ == join_seqs(pv.subrange(0, i as int)),
        decreases parts.len() - i,
    {
        let ghost sub = pv.subrange(0, i + 1);
        assert(sub.drop_last() =~= pv.subrange(0, i as int));
        append_str(&mut out, parts[i].as_str());
        i += 1;
    }
    assert(pv.subrange(0, pv.len() as int) =~= pv);
    string_of(&out)
}


/// `s` with later repeats removed, first occurrences kept in order.
pub open spec fn dedup_seq(s: Seq<Seq<char>>) -> Seq<Seq<char>>
    decreases s.len(),
{
    if s.len() == 0 {
        Seq::empty()
    } else {
        let d = dedup_seq(s.drop_last());
        if d.contains(s.last()) {
            d
        } else {
            d.push(s.last())
        }
    }
}

/// Deduplication keeps exactly the values of `s`, each once.
pub proof fn lemma_dedup_seq(s: Seq<Seq<char>>)
    ensures
        dedup_seq(s).no_duplicates(),
        forall|x: Seq<char>| dedup_seq(s).contains(x) <==> s.contains(x),
    decreases s.len(),
{
    if s.len() > 0 {
        let t = s.drop_last();
        lemma_dedup_seq(t);
        let d = dedup_seq(t);
        assert forall|x: Seq<char>| dedup_seq(s).contains(x) <==> s.contains(x) by {
            if s.contains(x) && x != s.last() {
                let k = choose|k: int| 0 <= k < s.len() && s[k] == x;
                assert(t[k] == x);
            }
            if t.contains(x) {
                let k = choose|k: int| 0 <= k < t.len() && t[k] == x;
                assert(s[k] == x);
            }
            if x == s.last() {
                assert(s[s.len() - 1] == x);
            }
            if !d.contains(s.last()) {
                if d.push(s.last()).contains(x) && x != s.last() {
                    let k = choose|k: int| 0 <= k < d.push(s.last()).len() && d.push(s.last())[k] == x;
                    assert(d[k] == x);
                }
                if d.contains(x) {
                    let k = choose|k: int| 0 <= k < d.len() && d[k] == x;
                    assert(d.push(s.last())[k] == x);
                }
                if x == s.last() {
                    assert(d.push(s.last())[d.len() as int] == x);
                }
            }
        }
        if !d.contains(s.last()) {
            let e = d.push(s.last());
            assert forall|i: int, j: int| 0 <= i < e.len() && 0 <= j < e.len() && i != j implies e[i] != e[j] by {
                if i < d.len() && j < d.len() {
                } else if i == d.len() {
                    assert(d[j] == e[j]);
                } else {
                    assert(d[i] == e[i]);
                }
            }
        }
    }
}

/// Strings deduplicated, first occurrences kept in order.
pub fn dedup_strings(v: &Vec<String>) -> (r: Vec<String>)
    ensures
        r@.map_values(|s: String| s@) == dedup_seq(v@.map_values(|s: String| s@)),
{
    let ghost vv = v@.map_values(|s: String| s@);
    let mut out: Vec<String> = Vec::new();
    let mut i: usize = 0;
    assert(out@.map_values(|s: String| s@) =~= dedup_seq(vv.subrange(0, 0)));
    while i < v.len()
        invariant
            i <= v.len(),
            vv == v@.map_values(|s: String| s@),
            out@.map_values(|s: String| s@) == dedup_seq(vv.subrange(0, i as int)),
        decreases v.len() - i,
    {
        let ghost sub = vv.subrange(0, i + 1);
        assert(sub.drop_last() =~= vv.subrange(0, i as int));
        let ghost ov = out@.map_values(|s: String| s@);
        let x = chars_of(v[i].as_str());
        let mut found = false;
        let mut k: usize = 0;
        while k < out.len()
            invariant
                k <= out.len(),
                ov == out@.map_values(|s: String| s@),
                x@ == vv[i as int],
                found == (exists|j: int| 0 <= j < k && ov[j] == x@),
            decreases out.len() - k,
        {
            let same = vec_eq(&chars_of(out[k].as_str()), &x);
            assert(ov[k as int] == out@[k as int]@);
            if same {
                found = true;
            }
            assert(found == (exists|j: int| 0 <= j < k + 1 && ov[j] == x@)) by {
                if found && !same {
                    let j = choose|j: int| 0 <= j < k && ov[j] == x@;
                    assert(0 <= j < k + 1 && ov[j] == x@);
                }
                if same {
                    assert(ov[k as int] == x@);
                }
                if exists|j: int| 0 <= j < k + 1 && ov[j] == x@ {
                    let j = choose|j: int| 0 <= j < k + 1 && ov[j] == x@;
                    if j < k {
                        assert(exists|j2: int| 0 <= j2 < k && ov[j2] == x@);
                    }
                }
            }
            k += 1;
        }
        assert(found == ov.contains(x@));
        if !found {
            out.push(v[i].clone());
            assert(out@.map_values(|s: String| s@) =~= ov.push(x@));
        }
        i += 1;
    }
    assert(vv.subrange(0, vv.len() as int) =~= vv);
    out
}


/// The texts of a list of strings.
pub open spec fn strings_view(v: Seq<String>) -> Seq<Seq<char>> {
    v.map_values(|s: String| s@)
}

/// Parts joined by newlines.
pub open spec fn join_lines(parts: Seq<Seq<char>>) -> Seq<char>
    decreases parts.len(),
{
    if parts.len() == 0 {
        Seq::empty()
    } else if parts.len() == 1 {
        parts[0]
    } else {
        join_lines(parts.drop_last()) + seq!['\n'] + parts.last()
    }
}

/// Parts joined by newlines (`join("\n")`).
pub fn join_with_newlines(parts: &Vec<String>) -> (r: String)
    ensures
        r@ == join_lines(parts@.map_values(|s: String| s@)),
{
    let ghost pv = parts@.map_values(|s: String| s@);
    let mut out: Vec<char> = Vec::new();
    let mut i: usize = 0;
    assert(out@ =~= join_lines(pv.subrange(0, 0)));
    while i < parts.len()
        invariant
            i <= parts.len(),
            pv == parts@.map_values(|s: String| s@),
            out@ == join_lines(pv.subrange(0, i as int)),
        decreases parts.len() - i,
    {
        let ghost sub = pv.subrange(0, i + 1);
        assert(sub.drop_last() =~= pv.subrange(0, i as int));
        if i > 0 {
            out.push('\n');
        } else {
            assert(out@ =~= Seq::<char>::empty());
        }
        append_str(&mut out, parts[i].as_str());
        i += 1;
    }
    assert(pv.subrange(0, pv.len() as int) =~= pv);
    string_of(&out)
}


/// `a` sorts before `b` (`str` order: character by character, a proper prefix
/// first). For UTF-8 text this is the byte order `String` uses.
pub open spec fn seq_lt(a: Seq<char>, b: Seq<char>) -> bool
    decreases a.len(),
{
    if b.len() == 0 {
        false
    } else if a.len() == 0 {
        true
    } else if a[0] != b[0] {
        a[0] < b[0]
    } else {
        seq_lt(a.drop_first(), b.drop_first())
    }
}

proof fn lemma_seq_lt_irrefl(a: Seq<char>)
    ensures
        !seq_lt(a, a),
    decreases a.len(),
{
    if a.len() > 0 {
        lemma_seq_lt_irrefl(a.drop_first());
    }
}

proof fn lemma_seq_lt_asym_total(a: Seq<char>, b: Seq<char>)
    ensures
        seq_lt(a, b) ==> !seq_lt(b, a),
        a != b ==> seq_lt(a, b) || seq_lt(b, a),
    decreases a.len(),
{
    if a.len() > 0 && b.len() > 0 {
        lemma_seq_lt_asym_total(a.drop_first(), b.drop_first());
        if a != b && a[0] == b[0] {
            assert(a.drop_first() != b.drop_first()) by {
                if a.drop_first() == b.drop_first() {
                    assert(a =~= seq![a[0]] + a.drop_first());
                    assert(b =~= seq![b[0]] + b.drop_first());
                }
            }
        }
    }
    if a.len() == 0 && b.len() == 0 {
        assert(a =~= b);
    }
}

proof fn lemma_seq_lt_trans(a: Seq<char>, b: Seq<char>, c: Seq<char>)
    ensures
        seq_lt(a, b) && seq_lt(b, c) ==> seq_lt(a, c),
    decreases a.len(),
{
    if a.len() > 0 && b.len() > 0 && c.len() > 0 {
        lemma_seq_lt_trans(a.drop_first(), b.drop_first(), c.drop_first());
    }
}

/// `seq_lt` is a strict total order.
pub proof fn lemma_seq_lt_order(a: Seq<char>, b: Seq<char>, c: Seq<char>)
    ensures
        !seq_lt(a, a),
        seq_lt(a, b) ==> !seq_lt(b, a),
        a != b ==> seq_lt(a, b) || seq_lt(b, a),
        seq_lt(a, b) && seq_lt(b, c) ==> seq_lt(a, c),
{
    lemma_seq_lt_irrefl(a);
    lemma_seq_lt_asym_total(a, b);
    lemma_seq_lt_trans(a, b, c);
}

/// Whether `a` sorts before `b`.
pub fn chars_lt(a: &Vec<char>, b: &Vec<char>) -> (r: bool)
    ensures
        r == seq_lt(a@, b@),
{
    let mut i: usize = 0;
    assert(a@.subrange(0, a@.len() as int) =~= a@);
    assert(b@.subrange(0, b@.len() as int) =~= b@);
    while i < a.len() && i < b.len() && a[i] == b[i]
        invariant
            i <= a.len(),
            i <= b.len(),
            seq_lt(a@, b@) == seq_lt(a@.subrange(i as int, a@.len() as int), b@.subrange(i as int, b@.len() as int)),
        decreases a.len() - i,
    {
        proof {
            let sa = a@.subrange(i as int, a@.len() as int);
            let sb = b@.subrange(i as int, b@.len() as int);
            assert(sa.drop_first() =~= a@.subrange(i + 1, a@.len() as int));
            assert(sb.drop_first() =~= b@.subrange(i + 1, b@.len() as int));
        }
        i += 1;
    }
    if i == b.len() {
        false
    } else if i == a.len() {
        true
    } else {
        a[i] < b[i]
    }
}

/// Strictly increasing in `seq_lt` order.
pub open spec fn strictly_ascending(s: Seq<Seq<char>>) -> bool {
    forall|i: int, j: int| 0 <= i < j < s.len() ==> seq_lt(s[i], s[j])
}

/// Inserts `x` into a strictly ascending list of texts, unless it is there.
pub fn insert_sorted_text(out: &mut Vec<Vec<char>>, x: Vec<char>)
    requires
        strictly_ascending(old(out)@.map_values(|v: Vec<char>| v@)),
    ensures
        strictly_ascending(final(out)@.map_values(|v: Vec<char>| v@)),
        final(out)@.map_values(|v: Vec<char>| v@).to_set() == old(out)@.map_values(|v: Vec<char>| v@).to_set().insert(x@),
{
    let ghost s = out@.map_values(|v: Vec<char>| v@);
    let mut p: usize = 0;
    while p < out.len() && chars_lt(&out[p], &x)
        invariant
            p <= out.len(),
            s == out@.map_values(|v: Vec<char>| v@),
            forall|k: int| 0 <= k < p ==> seq_lt(s[k], x@),
        decreases out.len() - p,
    {
        p += 1;
    }
    if p < out.len() && vec_eq(&out[p], &x) {
        assert(s[p as int] == x@);
        assert(s.to_set().insert(x@) =~= s.to_set());
        return;
    }
    proof {
        if p < out.len() {
            assert(s[p as int] == out@[p as int]@);
            lemma_seq_lt_order(s[p as int], x@, x@);
            assert(seq_lt(x@, s[p as int]));
        }
    }
    let ghost xv = x@;
    out.insert(p, x);
    let ghost t = out@.map_values(|v: Vec<char>| v@);
    assert(t =~= s.subrange(0, p as int).push(xv) + s.subrange(p as int, s.len() as int));
    assert forall|i: int, j: int| 0 <= i < j < t.len() implies seq_lt(t[i], t[j]) by {
        if j < p {
            assert(t[i] == s[i] && t[j] == s[j]);
        } else if j == p {
            assert(t[i] == s[i]);
        } else if i < p {
            assert(t[i] == s[i] && t[j] == s[j - 1]);
            lemma_seq_lt_order(s[i], xv, s[j - 1]);
            if p < s.len() {
                lemma_seq_lt_order(xv, s[p as int], s[j - 1]);
                if j - 1 > p {
                    assert(seq_lt(s[p as int], s[j - 1]));
                }
                lemma_seq_lt_order(s[i], xv, s[p as int]);
                lemma_seq_lt_order(s[i], s[p as int], s[j - 1]);
            }
        } else if i == p {
            assert(t[j] == s[j - 1]);
            lemma_seq_lt_order(xv, s[p as int], s[j - 1]);
            if j - 1 > p {
                assert(seq_lt(s[p as int], s[j - 1]));
            }
        } else {
            assert(t[i] == s[i - 1] && t[j] == s[j - 1]);
        }
    }
    assert forall|y: Seq<char>| t.to_set().contains(y) <==> s.to_set().insert(xv).contains(y) by {
        if t.contains(y) {
            let k = choose|k: int| 0 <= k < t.len() && t[k] == y;
            if k < p {
                assert(s[k] == y);
            } else if k > p {
                assert(s[k - 1] == y);
            }
        }
        if s.contains(y) {
            let k = choose|k: int| 0 <= k < s.len() && s[k] == y;
            if k < p {
                assert(t[k] == y);
            } else {
                assert(t[k + 1] == y);
            }
        }
        if y == xv {
            assert(t[p as int] == y);
        }
    }
    assert(t.to_set() =~= s.to_set().insert(xv));
}

} // verus!
