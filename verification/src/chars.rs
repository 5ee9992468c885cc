//! Character classes and conversions between `str`/`String` and `Vec<char>`.
//!
//! The transformation passes of this library work on owned vectors of
//! characters, whose view is a `Seq<char>`; the functions here move text
//! across that boundary and classify single characters.

use vstd::prelude::*;
use vstd::string::StrSliceExecFns;

verus! {

/// An ASCII whitespace character: space, tab, line feed, vertical tab,
/// form feed or carriage return.
pub open spec fn is_wsp_char(c: char) -> bool {
    c == ' ' || c == '\t' || c == '\n' || c == '\u{b}' || c == '\u{c}' || c == '\r'
}

/// An ASCII decimal digit.
pub open spec fn is_digit_char(c: char) -> bool {
    48 <= c as u32 <= 57
}

/// A word character: an ASCII letter, an ASCII digit or an underscore.
pub open spec fn is_word_char(c: char) -> bool {
    is_digit_char(c) || 65 <= c as u32 <= 90 || 97 <= c as u32 <= 122 || c == '_'
}

pub fn is_wsp(c: char) -> (r: bool)
    ensures
        r == is_wsp_char(c),
{
    c == ' ' || c == '\t' || c == '\n' || c == '\u{b}' || c == '\u{c}' || c == '\r'
}

pub fn is_digit(c: char) -> (r: bool)
    ensures
        r == is_digit_char(c),
{
    let u = c as u32;
    48 <= u && u <= 57
}

pub fn is_word(c: char) -> (r: bool)
    ensures
        r == is_word_char(c),
{
    let u = c as u32;
    if is_digit(c) {
        true
    } else {
        (65 <= u && u <= 90) || (97 <= u && u <= 122) || c == '_'
    }
}

/// The characters of a string slice, as an owned vector.
pub fn chars_of(s: &str) -> (v: Vec<char>)
    ensures
        v@ == s@,
{
    let n = s.unicode_len();
    let mut v: Vec<char> = Vec::new();
    let mut i: usize = 0;
    while i < n
        invariant
            i <= n,
            n == s@.len(),
            v@ == s@.take(i as int),
        decreases n - i,
    {
        v.push(s.get_char(i));
        proof {
            assert(s@.take(i as int).push(s@[i as int]) =~= s@.take(i + 1 as int));
        }
        i = i + 1;
    }
    proof {
        assert(s@.take(n as int) =~= s@);
    }
    v
}

/// Relies on std's `String::push`: it appends the given character
/// to the end of the string.
#[verifier::external_body]
fn push_char(s: &mut String, c: char)
    ensures
        final(s)@ == old(s)@.push(c),
{
    s.push(c);
}

/// The characters of the vector, as an owned `String`.
pub fn string_of(v: &Vec<char>) -> (s: String)
    ensures
        s@ == v@,
{
    let mut s = String::new();
    let mut i: usize = 0;
    while i < v.len()
        invariant
            i <= v@.len(),
            s@ == v@.take(i as int),
        decreases v@.len() - i,
    {
        push_char(&mut s, v[i]);
        proof {
            assert(v@.take(i as int).push(v@[i as int]) =~= v@.take(i + 1 as int));
        }
        i = i + 1;
    }
    proof {
        assert(v@.take(v@.len() as int) =~= v@);
    }
    s
}

/// Appends every character of `piece` to `out`.
pub fn push_all(out: &mut Vec<char>, piece: &Vec<char>)
    ensures
        final(out)@ == old(out)@ + piece@,
{
    let mut i: usize = 0;
    while i < piece.len()
        invariant
            i <= piece@.len(),
            out@ == old(out)@ + piece@.take(i as int),
        decreases piece@.len() - i,
    {
        out.push(piece[i]);
        proof {
            assert(old(out)@ + piece@.take(i as int).push(piece@[i as int]) =~= old(out)@
                + piece@.take(i + 1 as int));
        }
        i = i + 1;
    }
    proof {
        assert(old(out)@ + piece@.take(piece@.len() as int) =~= old(out)@ + piece@);
    }
}

/// Appends every character of the string slice `s` to `out`.
pub fn push_str_chars(out: &mut Vec<char>, s: &str)
    ensures
        final(out)@ == old(out)@ + s@,
{
    let n = s.unicode_len();
    let mut i: usize = 0;
    while i < n
        invariant
            i <= n,
            n == s@.len(),
            out@ == old(out)@ + s@.take(i as int),
        decreases n - i,
    {
        out.push(s.get_char(i));
        proof {
            assert(old(out)@ + s@.take(i as int).push(s@[i as int]) =~= old(out)@ + s@.take(
                i + 1 as int,
            ));
        }
        i = i + 1;
    }
    proof {
        assert(old(out)@ + s@.take(n as int) =~= old(out)@ + s@);
    }
}

/// Appends a run of `n` copies of `c` to `out`.
pub fn push_repeat(out: &mut Vec<char>, c: char, n: usize)
    ensures
        final(out)@ == old(out)@ + Seq::new(n as nat, |k: int| c),
    decreases n,
{
    let mut i: usize = 0;
    while i < n
        invariant
            i <= n,
            out@ == old(out)@ + Seq::new(i as nat, |k: int| c),
        decreases n - i,
    {
        out.push(c);
        proof {
            assert((old(out)@ + Seq::new(i as nat, |k: int| c)).push(c) =~= old(out)@ + Seq::new(
                (i + 1) as nat,
                |k: int| c,
            ));
        }
        i = i + 1;
    }
}

/// The index of the first occurrence of `c` in `s`, if any.
pub open spec fn spec_find(s: Seq<char>, c: char) -> Option<int>
    decreases s.len(),
{
    if s.len() == 0 {
        None
    } else if s[0] == c {
        Some(0int)
    } else {
        match spec_find(s.skip(1), c) {
            None => None,
            Some(j) => Some(j + 1),
        }
    }
}

/// What `spec_find` returns: the first occurrence, or none at all.
pub proof fn lemma_find(s: Seq<char>, c: char)
    ensures
        match spec_find(s, c) {
            Some(j) => 0 <= j < s.len() && s[j] == c && forall|k: int| 0 <= k < j ==> s[k] != c,
            None => forall|k: int| 0 <= k < s.len() ==> s[k] != c,
        },
    decreases s.len(),
{
    if s.len() == 0 {
    } else if s[0] == c {
    } else {
        lemma_find(s.skip(1), c);
        assert(forall|k: int| 0 <= k < s.skip(1).len() ==> #[trigger] s.skip(1)[k] == s[k + 1]);
        match spec_find(s.skip(1), c) {
            Some(j) => {
                assert(s[j + 1] == s.skip(1)[j]);
                assert forall|k: int| 0 <= k < j + 1 implies s[k] != c by {
                    if k > 0 {
                        assert(s.skip(1)[k - 1] != c);
                    }
                }
            },
            None => {
                assert forall|k: int| 0 <= k < s.len() implies s[k] != c by {
                    if k > 0 {
                        assert(s.skip(1)[k - 1] != c);
                    }
                }
            },
        }
    }
}

/// The index of the first occurrence of `c` in `v`, if any.
pub fn find_char(v: &Vec<char>, c: char) -> (r: Option<usize>)
    ensures
        match r {
            Some(i) => spec_find(v@, c) == Some(i as int),
            None => spec_find(v@, c) is None,
        },
{
    let mut i: usize = 0;
    while i < v.len()
        invariant
            i <= v@.len(),
            forall|k: int| 0 <= k < i ==> v@[k] != c,
        decreases v@.len() - i,
    {
        if v[i] == c {
            proof {
                lemma_find_at(v@, c, i as int);
            }
            return Some(i);
        }
        i = i + 1;
    }
    proof {
        lemma_find(v@, c);
        if spec_find(v@, c) is Some {
            assert(v@[spec_find(v@, c)->Some_0] == c);
        }
    }
    None
}

/// When `i` is the first index holding `c`, `spec_find` returns it.
pub proof fn lemma_find_at(s: Seq<char>, c: char, i: int)
    requires
        0 <= i < s.len(),
        s[i] == c,
        forall|k: int| 0 <= k < i ==> s[k] != c,
    ensures
        spec_find(s, c) == Some(i),
    decreases s.len(),
{
    if i == 0 {
    } else {
        assert(s[0] != c);
        assert forall|k: int| 0 <= k < i - 1 implies s.skip(1)[k] != c by {
            assert(s.skip(1)[k] == s[k + 1]);
        }
        assert(s.skip(1)[i - 1] == s[i]);
        lemma_find_at(s.skip(1), c, i - 1);
    }
}

/// True when the two-character pattern `c0 c1` stands at index `k`.
pub open spec fn spec_two_at(s: Seq<char>, k: int, c0: char, c1: char) -> bool {
    s[k] == c0 && s[k + 1] == c1
}

/// The index of the first occurrence of the two-character pattern
/// `c0 c1` in `s`, if any.
pub open spec fn spec_find2(s: Seq<char>, c0: char, c1: char) -> Option<int>
    decreases s.len(),
{
    if s.len() < 2 {
        None
    } else if s[0] == c0 && s[1] == c1 {
        Some(0int)
    } else {
        match spec_find2(s.skip(1), c0, c1) {
            None => None,
            Some(j) => Some(j + 1),
        }
    }
}

/// What `spec_find2` returns: the first occurrence, or none at all.
pub proof fn lemma_find2(s: Seq<char>, c0: char, c1: char)
    ensures
        match spec_find2(s, c0, c1) {
            Some(j) => 0 <= j && j + 2 <= s.len() && s[j] == c0 && s[j + 1] == c1 && forall|k: int|
                0 <= k < j ==> !#[trigger] spec_two_at(s, k, c0, c1),
            None => forall|k: int|
                0 <= k && k + 2 <= s.len() ==> !#[trigger] spec_two_at(s, k, c0, c1),
        },
    decreases s.len(),
{
    if s.len() < 2 {
    } else if s[0] == c0 && s[1] == c1 {
        assert(spec_two_at(s, 0, c0, c1));
    } else {
        lemma_find2(s.skip(1), c0, c1);
        assert(forall|k: int| 0 <= k < s.skip(1).len() ==> #[trigger] s.skip(1)[k] == s[k + 1]);
        match spec_find2(s.skip(1), c0, c1) {
            Some(j) => {
                assert(s[j + 1] == s.skip(1)[j]);
                assert(s[j + 2] == s.skip(1)[j + 1]);
                assert forall|k: int| 0 <= k < j + 1 implies !#[trigger] spec_two_at(
                    s,
                    k,
                    c0,
                    c1,
                ) by {
                    if k > 0 {
                        assert(!spec_two_at(s.skip(1), k - 1, c0, c1));
                        assert(s.skip(1)[k - 1] == s[k] && s.skip(1)[k] == s[k + 1]);
                    }
                }
            },
            None => {
                assert forall|k: int| 0 <= k && k + 2 <= s.len() implies !#[trigger] spec_two_at(
                    s,
                    k,
                    c0,
                    c1,
                ) by {
                    if k > 0 {
                        assert(!spec_two_at(s.skip(1), k - 1, c0, c1));
                        assert(s.skip(1)[k - 1] == s[k] && s.skip(1)[k] == s[k + 1]);
                    }
                }
            },
        }
    }
}

/// When `i` is the first index where the pattern occurs, `spec_find2`
/// returns it.
pub proof fn lemma_find2_at(s: Seq<char>, c0: char, c1: char, i: int)
    requires
        0 <= i,
        i + 2 <= s.len(),
        s[i] == c0,
        s[i + 1] == c1,
        forall|k: int| 0 <= k < i ==> !#[trigger] spec_two_at(s, k, c0, c1),
    ensures
        spec_find2(s, c0, c1) == Some(i),
    decreases s.len(),
{
    if i == 0 {
    } else {
        assert(!spec_two_at(s, 0, c0, c1));
        assert(forall|k: int| 0 <= k < s.skip(1).len() ==> #[trigger] s.skip(1)[k] == s[k + 1]);
        assert forall|k: int| 0 <= k < i - 1 implies !#[trigger] spec_two_at(
            s.skip(1),
            k,
            c0,
            c1,
        ) by {
            assert(!spec_two_at(s, k + 1, c0, c1));
            assert(s.skip(1)[k] == s[k + 1] && s.skip(1)[k + 1] == s[k + 2]);
        }
        lemma_find2_at(s.skip(1), c0, c1, i - 1);
    }
}

/// The index of the first occurrence of `c0 c1` in `v` at or after `from`.
pub fn find2_from(v: &Vec<char>, from: usize, c0: char, c1: char) -> (r: Option<usize>)
    requires
        from <= v@.len(),
    ensures
        match r {
            Some(i) => spec_find2(v@.skip(from as int), c0, c1) == Some(i as int),
            None => spec_find2(v@.skip(from as int), c0, c1) is None,
        },
{
    let ghost s = v@.skip(from as int);
    proof {
        assert(forall|k: int| 0 <= k < s.len() ==> s[k] == v@[from + k]);
    }
    if v.len() - from < 2 {
        return None;
    }
    let mut i: usize = from;
    while i <= v.len() - 2
        invariant
            from <= i,
            i <= v@.len(),
            forall|k: int| 0 <= k < i - from ==> !#[trigger] spec_two_at(s, k, c0, c1),
        decreases v@.len() - i,
    {
        if v[i] == c0 && v[i + 1] == c1 {
            proof {
                assert(spec_two_at(s, i - from, c0, c1));
                lemma_find2_at(s, c0, c1, i - from);
            }
            return Some(i - from);
        }
        proof {
            assert(s[i - from] == v@[i as int] && s[i - from + 1] == v@[i + 1]);
            assert(!spec_two_at(s, i - from, c0, c1));
        }
        i = i + 1;
    }
    proof {
        lemma_find2(s, c0, c1);
        if spec_find2(s, c0, c1) is Some {
            let j = spec_find2(s, c0, c1)->Some_0;
            assert(spec_two_at(s, j, c0, c1));
            assert(s[j] == c0 && s[j + 1] == c1);
        }
    }
    None
}

/// The index of the last occurrence of `c` in `s`, if any.
pub open spec fn spec_rfind(s: Seq<char>, c: char) -> Option<int>
    decreases s.len(),
{
    if s.len() == 0 {
        None
    } else if s[s.len() - 1] == c {
        Some(s.len() - 1)
    } else {
        spec_rfind(s.take(s.len() - 1), c)
    }
}

/// What `spec_rfind` returns: the last occurrence, or none at all.
pub proof fn lemma_rfind(s: Seq<char>, c: char)
    ensures
        match spec_rfind(s, c) {
            Some(j) => 0 <= j < s.len() && s[j] == c && forall|k: int|
                j < k < s.len() ==> s[k] != c,
            None => forall|k: int| 0 <= k < s.len() ==> s[k] != c,
        },
    decreases s.len(),
{
    if s.len() == 0 {
    } else if s[s.len() - 1] == c {
    } else {
        let t = s.take(s.len() - 1);
        lemma_rfind(t, c);
        assert(forall|k: int| 0 <= k < s.len() - 1 ==> #[trigger] t[k] == s[k]);
        match spec_rfind(t, c) {
            Some(j) => {
                assert(t[j] == s[j]);
                assert forall|k: int| j < k < s.len() implies s[k] != c by {
                    if k < s.len() - 1 {
                        assert(t[k] != c);
                    }
                }
            },
            None => {
                assert forall|k: int| 0 <= k < s.len() implies s[k] != c by {
                    if k < s.len() - 1 {
                        assert(t[k] != c);
                    }
                }
            },
        }
    }
}

/// The index of the last occurrence of `c` in `v`, if any.
pub fn rfind_char(v: &Vec<char>, c: char) -> (r: Option<usize>)
    ensures
        match r {
            Some(i) => spec_rfind(v@, c) == Some(i as int),
            None => spec_rfind(v@, c) is None,
        },
{
    let mut i: usize = v.len();
    while i > 0
        invariant
            i <= v@.len(),
            forall|k: int| i <= k < v@.len() ==> v@[k] != c,
        decreases i,
    {
        i = i - 1;
        if v[i] == c {
            proof {
                lemma_rfind_at(v@, c, i as int);
            }
            return Some(i);
        }
    }
    proof {
        lemma_rfind(v@, c);
        if spec_rfind(v@, c) is Some {
            assert(v@[spec_rfind(v@, c)->Some_0] == c);
        }
    }
    None
}

/// When `i` is the last index holding `c`, `spec_rfind` returns it.
pub proof fn lemma_rfind_at(s: Seq<char>, c: char, i: int)
    requires
        0 <= i < s.len(),
        s[i] == c,
        forall|k: int| i < k < s.len() ==> s[k] != c,
    ensures
        spec_rfind(s, c) == Some(i),
    decreases s.len(),
{
    if i == s.len() - 1 {
    } else {
        assert(s[s.len() - 1] != c);
        let t = s.take(s.len() - 1);
        assert(forall|k: int| 0 <= k < t.len() ==> t[k] == s[k]);
        lemma_rfind_at(t, c, i);
    }
}

/// True when `c` occurs in `v` between `a` (inclusive) and `b`
/// (exclusive).
pub fn range_has_char(v: &Vec<char>, a: usize, b: usize, c: char) -> (r: bool)
    requires
        a <= b <= v@.len(),
    ensures
        r == exists|k: int| a <= k < b && v@[k] == c,
{
    let mut i: usize = a;
    while i < b
        invariant
            a <= i <= b,
            forall|k: int| a <= k < i ==> v@[k] != c,
        decreases b - i,
    {
        if v[i] == c {
            return true;
        }
        i = i + 1;
    }
    false
}

/// The length of the whitespace run at the start of `s`.
pub open spec fn spec_ws_run(s: Seq<char>) -> int
    decreases s.len(),
{
    if s.len() == 0 || !is_wsp_char(s[0]) {
        0
    } else {
        1 + spec_ws_run(s.skip(1))
    }
}

/// The whitespace run is the maximal all-whitespace prefix.
pub proof fn lemma_ws_run(s: Seq<char>)
    ensures
        0 <= spec_ws_run(s) <= s.len(),
        forall|k: int| 0 <= k < spec_ws_run(s) ==> is_wsp_char(s[k]),
        spec_ws_run(s) < s.len() ==> !is_wsp_char(s[spec_ws_run(s)]),
    decreases s.len(),
{
    if s.len() == 0 || !is_wsp_char(s[0]) {
    } else {
        lemma_ws_run(s.skip(1));
        assert forall|k: int| 0 <= k < spec_ws_run(s) implies is_wsp_char(s[k]) by {
            if k > 0 {
                assert(s.skip(1)[k - 1] == s[k]);
            }
        }
        if spec_ws_run(s) < s.len() {
            assert(s.skip(1)[spec_ws_run(s) - 1] == s[spec_ws_run(s)]);
        }
    }
}

/// When the first `i` characters are whitespace and the next one is not,
/// the whitespace run has length `i`.
pub proof fn lemma_ws_run_at(s: Seq<char>, i: int)
    requires
        0 <= i <= s.len(),
        forall|k: int| 0 <= k < i ==> is_wsp_char(s[k]),
        i < s.len() ==> !is_wsp_char(s[i]),
    ensures
        spec_ws_run(s) == i,
    decreases s.len(),
{
    if i == 0 {
    } else {
        assert(is_wsp_char(s[0]));
        assert forall|k: int| 0 <= k < i - 1 implies is_wsp_char(s.skip(1)[k]) by {
            assert(s.skip(1)[k] == s[k + 1]);
        }
        if i - 1 < s.skip(1).len() {
            assert(s.skip(1)[i - 1] == s[i]);
        }
        lemma_ws_run_at(s.skip(1), i - 1);
    }
}

/// The length of the whitespace run at the start of `v`.
pub fn ws_run(v: &Vec<char>) -> (a: usize)
    ensures
        a as int == spec_ws_run(v@),
        a <= v@.len(),
{
    let mut j: usize = 0;
    while j < v.len() && is_wsp(v[j])
        invariant
            j <= v@.len(),
            forall|k: int| 0 <= k < j ==> is_wsp_char(v@[k]),
        decreases v@.len() - j,
    {
        j = j + 1;
    }
    proof {
        if j < v@.len() {
            assert(!is_wsp_char(v@[j as int]));
        }
        lemma_ws_run_at(v@, j as int);
    }
    j
}

/// The length of the whitespace run that ends just before index `k`.
pub open spec fn spec_ws_back(s: Seq<char>, k: int) -> int
    decreases k,
{
    if k <= 0 || !is_wsp_char(s[k - 1]) {
        0
    } else {
        1 + spec_ws_back(s, k - 1)
    }
}

/// The backward whitespace run is maximal.
pub proof fn lemma_ws_back_at(s: Seq<char>, k: int, m: int)
    requires
        0 <= m <= k <= s.len(),
        forall|x: int| k - m <= x < k ==> is_wsp_char(s[x]),
        m < k ==> !is_wsp_char(s[k - m - 1]),
    ensures
        spec_ws_back(s, k) == m,
    decreases m,
{
    if m == 0 {
    } else {
        assert(is_wsp_char(s[k - 1]));
        lemma_ws_back_at(s, k - 1, m - 1);
    }
}

/// The length of the whitespace run in `v` that ends just before `k`.
pub fn ws_back(v: &Vec<char>, k: usize) -> (m: usize)
    requires
        k <= v@.len(),
    ensures
        m as int == spec_ws_back(v@, k as int),
        m <= k,
{
    let mut j: usize = k;
    while j > 0 && is_wsp(v[j - 1])
        invariant
            j <= k,
            forall|x: int| j <= x < k ==> is_wsp_char(v@[x]),
        decreases j,
    {
        j = j - 1;
    }
    proof {
        lemma_ws_back_at(v@, k as int, k - j);
    }
    k - j
}

/// The contiguous piece of `v` from `a` (inclusive) to `b` (exclusive).
pub fn subvec(v: &Vec<char>, a: usize, b: usize) -> (r: Vec<char>)
    requires
        a <= b <= v@.len(),
    ensures
        r@ == v@.subrange(a as int, b as int),
{
    let mut r: Vec<char> = Vec::new();
    let mut i: usize = a;
    while i < b
        invariant
            a <= i <= b,
            r@ == v@.subrange(a as int, i as int),
        decreases b - i,
    {
        r.push(v[i]);
        proof {
            assert(v@.subrange(a as int, i as int).push(v@[i as int]) =~= v@.subrange(
                a as int,
                i + 1 as int,
            ));
        }
        i = i + 1;
    }
    r
}

} // verus!
