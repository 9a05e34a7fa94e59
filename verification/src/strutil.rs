//! Verified helpers for the character-level string work the engine does:
//! equality, searching, trimming, and conversion between numbers and
//! their decimal text.

use vstd::prelude::*;
use vstd::string::StrSliceExecFns;
use vstd::string::StringExecFns;

verus! {

/// The whitespace characters that appear in the line-oriented protocol.
pub open spec fn is_ws(c: char) -> bool {
    c == ' ' || c == '\t' || c == '\n' || c == '\r'
}

pub open spec fn is_digit(c: char) -> bool {
    '0' <= c && c <= '9'
}

pub open spec fn digit_val(c: char) -> nat {
    ((c as int) - ('0' as int)) as nat
}

/// Every character of `s` is a decimal digit.
pub open spec fn all_digits(s: Seq<char>) -> bool {
    forall|i: int| 0 <= i < s.len() ==> is_digit(#[trigger] s[i])
}

/// The numeric value of a sequence of decimal digits.
pub open spec fn digits_val(s: Seq<char>) -> nat
    decreases s.len(),
{
    if s.len() == 0 {
        0
    } else {
        digits_val(s.drop_last()) * 10 + digit_val(s.last())
    }
}

/// The signed value written by `s`: digits with one optional leading
/// minus sign; `None` where `s` is not of that shape.
pub open spec fn int_of_chars(s: Seq<char>) -> Option<int> {
    if s.len() > 0 && s[0] == '-' {
        let m = s.subrange(1, s.len() as int);
        if m.len() > 0 && all_digits(m) {
            Some(-(digits_val(m) as int))
        } else {
            None
        }
    } else if s.len() > 0 && all_digits(s) {
        Some(digits_val(s) as int)
    } else {
        None
    }
}

pub open spec fn digit_char(d: nat) -> char {
    if d == 0 {
        '0'
    } else if d == 1 {
        '1'
    } else if d == 2 {
        '2'
    } else if d == 3 {
        '3'
    } else if d == 4 {
        '4'
    } else if d == 5 {
        '5'
    } else if d == 6 {
        '6'
    } else if d == 7 {
        '7'
    } else if d == 8 {
        '8'
    } else {
        '9'
    }
}

/// The decimal text of a natural number, most significant digit first.
pub open spec fn dec_digits(n: nat) -> Seq<char>
    decreases n,
{
    if n < 10 {
        seq![digit_char(n)]
    } else {
        dec_digits(n / 10).push(digit_char(n % 10))
    }
}

/// The decimal text of an integer, with a leading minus sign when negative.
pub open spec fn int_digits(n: int) -> Seq<char> {
    if n < 0 {
        seq!['-'] + dec_digits((-n) as nat)
    } else {
        dec_digits(n as nat)
    }
}

/// `s` with leading whitespace removed.
pub open spec fn trim_front(s: Seq<char>) -> Seq<char>
    decreases s.len(),
{
    if s.len() > 0 && is_ws(s[0]) {
        trim_front(s.subrange(1, s.len() as int))
    } else {
        s
    }
}

/// `s` with trailing whitespace removed.
pub open spec fn trim_back(s: Seq<char>) -> Seq<char>
    decreases s.len(),
{
    if s.len() > 0 && is_ws(s.last()) {
        trim_back(s.drop_last())
    } else {
        s
    }
}

/// `s` with whitespace removed at both ends.
pub open spec fn trim_spec(s: Seq<char>) -> Seq<char> {
    trim_back(trim_front(s))
}

/// Index of the first occurrence of `c` in `s` at or after `from`;
/// `s.len()` if there is none.
pub open spec fn find_at(s: Seq<char>, from: int, c: char) -> int
    decreases s.len() - from,
{
    if 0 <= from < s.len() {
        if s[from] == c {
            from
        } else {
            find_at(s, from + 1, c)
        }
    } else {
        s.len() as int
    }
}

/// Index of the last occurrence of `c` in `s`; `-1` if there is none.
pub open spec fn rfind_at(s: Seq<char>, c: char) -> int
    decreases s.len(),
{
    if s.len() == 0 {
        -1
    } else if s.last() == c {
        s.len() - 1
    } else {
        rfind_at(s.drop_last(), c)
    }
}

pub proof fn lemma_find_at_of_scan(s: Seq<char>, from: int, i: int, c: char)
    requires
        0 <= from <= i <= s.len(),
        i < s.len() ==> s[i] == c,
        forall|j: int| from <= j < i ==> s[j] != c,
    ensures
        find_at(s, from, c) == i,
    decreases i - from,
{
    if from < i {
        lemma_find_at_of_scan(s, from + 1, i, c);
    }
}

proof fn lemma_rfind_at_of_scan(s: Seq<char>, i: int, c: char)
    requires
        -1 <= i < s.len(),
        i >= 0 ==> s[i] == c,
        forall|j: int| i < j < s.len() ==> s[j] != c,
    ensures
        rfind_at(s, c) == i,
    decreases s.len(),
{
    if s.len() > 0 {
        if i == s.len() - 1 {
        } else {
            assert(s.last() != c);
            lemma_rfind_at_of_scan(s.drop_last(), i, c);
        }
    }
}

/// Index of the first occurrence of `c` at or after `from`, as the spec
/// function `find_at` gives it; `s@.len()` if there is none.
pub fn find_from(s: &str, from: usize, c: char) -> (r: usize)
    requires
        from <= s@.len(),
    ensures
        r == find_at(s@, from as int, c),
        from <= r <= s@.len(),
        r < s@.len() ==> s@[r as int] == c,
{
    let o = find_char_from(s, from, c);
    match o {
        Some(i) => {
            proof {
                lemma_find_at_of_scan(s@, from as int, i as int, c);
            }
            i
        },
        None => {
            proof {
                lemma_find_at_of_scan(s@, from as int, s@.len() as int, c);
            }
            s.unicode_len()
        },
    }
}

/// Index of the last occurrence of `c`, as the spec function `rfind_at`
/// gives it; `s@.len()` (not a hit) if there is none.
pub fn rfind_from(s: &str, c: char) -> (r: usize)
    ensures
        r <= s@.len(),
        r < s@.len() ==> r == rfind_at(s@, c) && s@[r as int] == c,
        r == s@.len() ==> rfind_at(s@, c) == -1,
{
    let o = rfind_char(s, c);
    match o {
        Some(i) => {
            proof {
                lemma_rfind_at_of_scan(s@, i as int, c);
            }
            i
        },
        None => {
            proof {
                lemma_rfind_at_of_scan(s@, -1, c);
            }
            s.unicode_len()
        },
    }
}

/// Index of the first whitespace character at or after `from`; `s.len()`
/// if there is none.
pub open spec fn ws_at(s: Seq<char>, from: int) -> int
    decreases s.len() - from,
{
    if 0 <= from < s.len() {
        if is_ws(s[from]) {
            from
        } else {
            ws_at(s, from + 1)
        }
    } else {
        s.len() as int
    }
}

/// Index of the last whitespace character; `-1` if there is none.
pub open spec fn rfind_ws_at(s: Seq<char>) -> int
    decreases s.len(),
{
    if s.len() == 0 {
        -1
    } else if is_ws(s.last()) {
        s.len() - 1
    } else {
        rfind_ws_at(s.drop_last())
    }
}

proof fn lemma_ws_at_of_scan(s: Seq<char>, from: int, i: int)
    requires
        0 <= from <= i <= s.len(),
        i < s.len() ==> is_ws(s[i]),
        forall|j: int| from <= j < i ==> !is_ws(s[j]),
    ensures
        ws_at(s, from) == i,
    decreases i - from,
{
    if from < i {
        lemma_ws_at_of_scan(s, from + 1, i);
    }
}

proof fn lemma_rfind_ws_of_scan(s: Seq<char>, i: int)
    requires
        -1 <= i < s.len(),
        i >= 0 ==> is_ws(s[i]),
        forall|j: int| i < j < s.len() ==> !is_ws(s[j]),
    ensures
        rfind_ws_at(s) == i,
    decreases s.len(),
{
    if s.len() > 0 {
        if i == s.len() - 1 {
        } else {
            lemma_rfind_ws_of_scan(s.drop_last(), i);
        }
    }
}

/// Index of the first whitespace character at or after `from`, as the
/// spec function `ws_at` gives it.
pub fn ws_from(s: &str, from: usize) -> (r: usize)
    requires
        from <= s@.len(),
    ensures
        r == ws_at(s@, from as int),
        from <= r <= s@.len(),
{
    let r = find_ws_from(s, from);
    proof {
        lemma_ws_at_of_scan(s@, from as int, r as int);
    }
    r
}

/// Index of the last whitespace character, as the spec function
/// `rfind_ws_at` gives it; `s@.len()` (not a hit) if there is none.
pub fn rfind_ws(s: &str) -> (r: usize)
    ensures
        r <= s@.len(),
        r < s@.len() ==> r == rfind_ws_at(s@),
        r == s@.len() ==> rfind_ws_at(s@) == -1,
{
    let len = s.unicode_len();
    let mut i: usize = len;
    while i > 0
        invariant
            i <= len,
            len == s@.len(),
            forall|j: int| i <= j < s@.len() ==> !is_ws(s@[j]),
        decreases i,
    {
        i -= 1;
        if is_ws_char(s.get_char(i)) {
            proof {
                lemma_rfind_ws_of_scan(s@, i as int);
            }
            return i;
        }
    }
    proof {
        lemma_rfind_ws_of_scan(s@, -1);
    }
    len
}

/// Index of the first non-whitespace character at or after `from`;
/// `s.len()` if there is none.
pub open spec fn non_ws_at(s: Seq<char>, from: int) -> int
    decreases s.len() - from,
{
    if 0 <= from < s.len() {
        if !is_ws(s[from]) {
            from
        } else {
            non_ws_at(s, from + 1)
        }
    } else {
        s.len() as int
    }
}

proof fn lemma_non_ws_at_of_scan(s: Seq<char>, from: int, i: int)
    requires
        0 <= from <= i <= s.len(),
        i < s.len() ==> !is_ws(s[i]),
        forall|j: int| from <= j < i ==> is_ws(s[j]),
    ensures
        non_ws_at(s, from) == i,
    decreases i - from,
{
    if from < i {
        lemma_non_ws_at_of_scan(s, from + 1, i);
    }
}

/// Index of the first non-whitespace character at or after `from`, as the
/// spec function `non_ws_at` gives it.
pub fn non_ws_from(s: &str, from: usize) -> (r: usize)
    requires
        from <= s@.len(),
    ensures
        r == non_ws_at(s@, from as int),
        from <= r <= s@.len(),
{
    let len = s.unicode_len();
    let mut i: usize = from;
    while i < len
        invariant
            from <= i <= len,
            len == s@.len(),
            forall|j: int| from <= j < i ==> is_ws(s@[j]),
        decreases len - i,
    {
        if !is_ws_char(s.get_char(i)) {
            proof {
                lemma_non_ws_at_of_scan(s@, from as int, i as int);
            }
            return i;
        }
        i += 1;
    }
    proof {
        lemma_non_ws_at_of_scan(s@, from as int, len as int);
    }
    len
}

/// Index of the first occurrence of `p` in `s` at or after `from`;
/// `s.len()` if there is none.
pub open spec fn substr_at(s: Seq<char>, from: int, p: Seq<char>) -> int
    decreases s.len() - from,
{
    if 0 <= from && p.len() > 0 && from + p.len() <= s.len() {
        if s.subrange(from, from + p.len() as int) == p {
            from
        } else {
            substr_at(s, from + 1, p)
        }
    } else {
        s.len() as int
    }
}

/// Does `p` occur in `s`?
pub open spec fn has_substr(s: Seq<char>, p: Seq<char>) -> bool {
    substr_at(s, 0, p) < s.len() || p.len() == 0
}

proof fn lemma_substr_at_of_scan(s: Seq<char>, from: int, i: int, p: Seq<char>)
    requires
        p.len() > 0,
        0 <= from <= i,
        i + p.len() <= s.len() || i == s.len(),
        i + p.len() <= s.len() ==> s.subrange(i, i + p.len() as int) == p,
        forall|j: int|
            from <= j < i && j + p.len() <= s.len() ==> #[trigger] s.subrange(
                j,
                j + p.len() as int,
            ) != p,
    ensures
        i + p.len() <= s.len() ==> substr_at(s, from, p) == i,
        i == s.len() ==> substr_at(s, from, p) == s.len(),
    decreases i - from,
{
    if from < i && from + p.len() <= s.len() {
        lemma_substr_at_of_scan(s, from + 1, i, p);
    }
}

/// Does `s` contain `p` at position `i`?
fn matches_at(s: &str, i: usize, p: &str) -> (r: bool)
    requires
        i + p@.len() <= s@.len(),
    ensures
        r == (s@.subrange(i as int, i + p@.len() as int) == p@),
{
    let slen = s.unicode_len();
    let plen = p.unicode_len();
    let mut k: usize = 0;
    while k < plen
        invariant
            k <= plen,
            plen == p@.len(),
            slen == s@.len(),
            i + plen <= s@.len(),
            forall|j: int| 0 <= j < k ==> s@[i + j] == p@[j],
        decreases plen - k,
    {
        if s.get_char(i + k) != p.get_char(k) {
            assert(s@.subrange(i as int, i + p@.len() as int)[k as int] != p@[k as int]);
            return false;
        }
        k += 1;
    }
    assert(s@.subrange(i as int, i + p@.len() as int) =~= p@);
    true
}

/// Index of the first occurrence of `p` in `s`; `s@.len()` if there is
/// none.  For an empty `p` the result is zero.
pub fn find_substr(s: &str, p: &str) -> (r: usize)
    ensures
        p@.len() > 0 ==> r == substr_at(s@, 0, p@),
        p@.len() == 0 ==> r == 0,
        r <= s@.len(),
{
    let slen = s.unicode_len();
    let plen = p.unicode_len();
    if plen == 0 {
        return 0;
    }
    if plen > slen {
        proof {
            lemma_substr_at_of_scan(s@, 0, slen as int, p@);
        }
        return slen;
    }
    let mut i: usize = 0;
    while i <= slen - plen
        invariant
            i <= slen,
            slen == s@.len(),
            plen == p@.len(),
            0 < plen <= slen,
            forall|j: int|
                0 <= j < i && j + p@.len() <= s@.len() ==> #[trigger] s@.subrange(
                    j,
                    j + p@.len() as int,
                ) != p@,
        decreases slen - i,
    {
        if matches_at(s, i, p) {
            proof {
                lemma_substr_at_of_scan(s@, 0, i as int, p@);
            }
            return i;
        }
        i += 1;
    }
    proof {
        lemma_substr_at_of_scan(s@, 0, slen as int, p@);
    }
    slen
}

/// Does `s` contain `p`?
pub fn contains_substr(s: &str, p: &str) -> (r: bool)
    ensures
        r == has_substr(s@, p@),
{
    let r = find_substr(s, p);
    if p.unicode_len() == 0 {
        true
    } else {
        r < s.unicode_len()
    }
}

/// Where `substr_at` reports a hit, the pattern indeed matches there.
pub proof fn lemma_substr_at_found(s: Seq<char>, from: int, p: Seq<char>)
    requires
        0 <= from,
        p.len() > 0,
    ensures
        substr_at(s, from, p) < s.len() ==> from <= substr_at(s, from, p) && substr_at(s, from, p)
            + p.len() <= s.len() && s.subrange(
            substr_at(s, from, p),
            substr_at(s, from, p) + p.len() as int,
        ) == p,
    decreases s.len() - from,
{
    if 0 <= from && p.len() > 0 && from + p.len() <= s.len() {
        if s.subrange(from, from + p.len() as int) == p {
        } else {
            lemma_substr_at_found(s, from + 1, p);
        }
    }
}

/// Index of the first occurrence of `p` in `s` at or after `from`;
/// `s@.len()` if there is none.
pub fn find_substr_from(s: &str, from: usize, p: &str) -> (r: usize)
    requires
        from <= s@.len(),
        p@.len() > 0,
    ensures
        r == substr_at(s@, from as int, p@),
        from <= r <= s@.len(),
{
    let slen = s.unicode_len();
    let plen = p.unicode_len();
    if plen > slen - from {
        proof {
            lemma_substr_at_of_scan(s@, from as int, slen as int, p@);
        }
        return slen;
    }
    let mut i: usize = from;
    while i <= slen - plen
        invariant
            from <= i <= slen,
            slen == s@.len(),
            plen == p@.len(),
            0 < plen <= slen,
            forall|j: int|
                from <= j < i && j + p@.len() <= s@.len() ==> #[trigger] s@.subrange(
                    j,
                    j + p@.len() as int,
                ) != p@,
        decreases slen - i,
    {
        if matches_at(s, i, p) {
            proof {
                lemma_substr_at_of_scan(s@, from as int, i as int, p@);
            }
            return i;
        }
        i += 1;
    }
    proof {
        lemma_substr_at_of_scan(s@, from as int, slen as int, p@);
    }
    slen
}

/// Character-by-character equality of two string slices.
pub fn str_eq(a: &str, b: &str) -> (r: bool)
    ensures
        r == (a@ == b@),
{
    let alen = a.unicode_len();
    let blen = b.unicode_len();
    if alen != blen {
        return false;
    }
    let mut i: usize = 0;
    while i < alen
        invariant
            i <= alen,
            alen == a@.len(),
            alen == b@.len(),
            forall|j: int| 0 <= j < i ==> a@[j] == b@[j],
        decreases alen - i,
    {
        if a.get_char(i) != b.get_char(i) {
            return false;
        }
        i += 1;
    }
    assert(a@ =~= b@);
    true
}

/// Does `s` begin with `p`?
pub fn starts_with(s: &str, p: &str) -> (r: bool)
    ensures
        r == (s@.len() >= p@.len() && s@.subrange(0, p@.len() as int) == p@),
{
    let slen = s.unicode_len();
    let plen = p.unicode_len();
    if slen < plen {
        return false;
    }
    let mut i: usize = 0;
    while i < plen
        invariant
            i <= plen,
            plen == p@.len(),
            slen == s@.len(),
            plen <= slen,
            forall|j: int| 0 <= j < i ==> s@[j] == p@[j],
        decreases plen - i,
    {
        if s.get_char(i) != p.get_char(i) {
            assert(s@.subrange(0, p@.len() as int)[i as int] != p@[i as int]);
            return false;
        }
        i += 1;
    }
    assert(s@.subrange(0, p@.len() as int) =~= p@);
    true
}

/// Index of the first occurrence of `c` in `s` at or after `from`.
pub fn find_char_from(s: &str, from: usize, c: char) -> (r: Option<usize>)
    requires
        from <= s@.len(),
    ensures
        match r {
            Some(i) => from <= i < s@.len() && s@[i as int] == c && forall|j: int|
                from <= j < i ==> s@[j] != c,
            None => forall|j: int| from <= j < s@.len() ==> s@[j] != c,
        },
{
    let len = s.unicode_len();
    let mut i: usize = from;
    while i < len
        invariant
            from <= i <= len,
            len == s@.len(),
            forall|j: int| from <= j < i ==> s@[j] != c,
        decreases len - i,
    {
        if s.get_char(i) == c {
            return Some(i);
        }
        i += 1;
    }
    None
}

/// Index of the last occurrence of `c` in `s`.
pub fn rfind_char(s: &str, c: char) -> (r: Option<usize>)
    ensures
        match r {
            Some(i) => i < s@.len() && s@[i as int] == c && forall|j: int|
                i < j < s@.len() ==> s@[j] != c,
            None => forall|j: int| 0 <= j < s@.len() ==> s@[j] != c,
        },
{
    let len = s.unicode_len();
    let mut i: usize = len;
    while i > 0
        invariant
            i <= len,
            len == s@.len(),
            forall|j: int| i <= j < s@.len() ==> s@[j] != c,
        decreases i,
    {
        i -= 1;
        if s.get_char(i) == c {
            return Some(i);
        }
    }
    None
}

/// Exec test matching the spec `is_ws`.
pub fn is_ws_char(c: char) -> (r: bool)
    ensures
        r == is_ws(c),
{
    c == ' ' || c == '\t' || c == '\n' || c == '\r'
}

/// Index of the first whitespace character at or after `from`; `s@.len()` if none.
pub fn find_ws_from(s: &str, from: usize) -> (r: usize)
    requires
        from <= s@.len(),
    ensures
        from <= r <= s@.len(),
        r < s@.len() ==> is_ws(s@[r as int]),
        forall|j: int| from <= j < r ==> !is_ws(s@[j]),
{
    let len = s.unicode_len();
    let mut i: usize = from;
    while i < len
        invariant
            from <= i <= len,
            len == s@.len(),
            forall|j: int| from <= j < i ==> !is_ws(s@[j]),
        decreases len - i,
    {
        if is_ws_char(s.get_char(i)) {
            return i;
        }
        i += 1;
    }
    len
}

/// Index of the first non-whitespace character; `s@.len()` if all whitespace.
fn skip_ws(s: &str) -> (r: usize)
    ensures
        r <= s@.len(),
        r < s@.len() ==> !is_ws(s@[r as int]),
        forall|j: int| 0 <= j < r ==> is_ws(s@[j]),
{
    let len = s.unicode_len();
    let mut i: usize = 0;
    while i < len
        invariant
            i <= len,
            len == s@.len(),
            forall|j: int| 0 <= j < i ==> is_ws(s@[j]),
        decreases len - i,
    {
        if !is_ws_char(s.get_char(i)) {
            return i;
        }
        i += 1;
    }
    len
}

/// One past the last non-whitespace character at or after `from`; `from` if
/// everything from `from` on is whitespace.
fn end_non_ws(s: &str, from: usize) -> (r: usize)
    requires
        from <= s@.len(),
    ensures
        from <= r <= s@.len(),
        r > from ==> !is_ws(s@[r - 1]),
        forall|j: int| r <= j < s@.len() ==> is_ws(s@[j]),
{
    let len = s.unicode_len();
    let mut i: usize = len;
    while i > from
        invariant
            from <= i <= len,
            len == s@.len(),
            forall|j: int| i <= j < s@.len() ==> is_ws(s@[j]),
        decreases i,
    {
        if !is_ws_char(s.get_char(i - 1)) {
            return i;
        }
        i -= 1;
    }
    from
}

proof fn lemma_trim_front_step(s: Seq<char>, i: int)
    requires
        0 <= i <= s.len(),
        forall|j: int| 0 <= j < i ==> is_ws(s[j]),
    ensures
        trim_front(s) == trim_front(s.subrange(i, s.len() as int)),
    decreases i,
{
    if i > 0 {
        assert(is_ws(s[0]));
        let t = s.subrange(1, s.len() as int);
        assert(trim_front(s) == trim_front(t));
        lemma_trim_front_step(t, i - 1);
        assert(t.subrange(i - 1, t.len() as int) =~= s.subrange(i, s.len() as int));
    } else {
        assert(s.subrange(0, s.len() as int) =~= s);
    }
}

proof fn lemma_trim_back_step(s: Seq<char>, i: int)
    requires
        0 <= i <= s.len(),
        forall|j: int| i <= j < s.len() ==> is_ws(s[j]),
    ensures
        trim_back(s) == trim_back(s.subrange(0, i)),
    decreases s.len() - i,
{
    if i < s.len() {
        assert(is_ws(s.last()));
        let t = s.drop_last();
        assert(trim_back(s) == trim_back(t));
        lemma_trim_back_step(t, i);
        assert(t.subrange(0, i) =~= s.subrange(0, i));
    } else {
        assert(s.subrange(0, i) =~= s);
    }
}

/// `s` with whitespace removed at both ends.
pub fn trim(s: &str) -> (r: &str)
    ensures
        r@ == trim_spec(s@),
{
    let i = skip_ws(s);
    let j = end_non_ws(s, i);
    let r = s.substring_char(i, j);
    proof {
        let len = s@.len() as int;
        lemma_trim_front_step(s@, i as int);
        let front = s@.subrange(i as int, len);
        if i < s@.len() {
            assert(!is_ws(front[0]));
        }
        assert(trim_front(s@) == front);
        assert(forall|k: int| j - i <= k < front.len() ==> is_ws(#[trigger] front[k]));
        lemma_trim_back_step(front, j - i);
        if j > i {
            assert(!is_ws(front.subrange(0, j - i).last()));
        }
        assert(trim_back(front) == front.subrange(0, j - i));
        assert(front.subrange(0, j - i) =~= s@.subrange(i as int, j as int));
    }
    r
}

proof fn lemma_digits_val_grows(s: Seq<char>, i: int)
    requires
        0 <= i <= s.len(),
    ensures
        digits_val(s) >= digits_val(s.subrange(0, i)),
    decreases s.len() - i,
{
    if i < s.len() {
        lemma_digits_val_grows(s, i + 1);
        let t = s.subrange(0, i + 1);
        assert(t.drop_last() =~= s.subrange(0, i));
        assert(digits_val(t) == digits_val(s.subrange(0, i)) * 10 + digit_val(t.last()));
        assert(digits_val(s.subrange(0, i)) * 10 >= digits_val(s.subrange(0, i)))
            by (nonlinear_arith);
    } else {
        assert(s.subrange(0, i) =~= s);
    }
}

/// Parse an unsigned decimal number.  Succeeds exactly on non-empty
/// all-digit strings whose value fits in `usize`.
pub fn parse_usize(s: &str) -> (r: Option<usize>)
    ensures
        match r {
            Some(v) => s@.len() > 0 && all_digits(s@) && digits_val(s@) == v,
            None => s@.len() == 0 || !all_digits(s@) || digits_val(s@) > usize::MAX,
        },
{
    let len = s.unicode_len();
    if len == 0 {
        return None;
    }
    let mut v: usize = 0;
    let mut i: usize = 0;
    while i < len
        invariant
            i <= len,
            len == s@.len(),
            all_digits(s@.subrange(0, i as int)),
            digits_val(s@.subrange(0, i as int)) == v,
        decreases len - i,
    {
        let c = s.get_char(i);
        let u = c as u32;
        if u < 48 || u > 57 {
            assert(!is_digit(s@[i as int]));
            return None;
        }
        let d = (u - 48) as usize;
        assert(is_digit(s@[i as int]) && digit_val(s@[i as int]) == d);
        proof {
            let t = s@.subrange(0, i + 1);
            assert(t.drop_last() =~= s@.subrange(0, i as int));
            assert(t.last() == s@[i as int]);
            assert(digits_val(t) == v * 10 + d);
            assert(forall|j: int| 0 <= j < t.len() ==> is_digit(#[trigger] t[j]));
        }
        if v > (usize::MAX - d) / 10 {
            // The value read so far no longer fits; further digits only grow it.
            proof {
                assert(v * 10 + d > usize::MAX) by (nonlinear_arith)
                    requires
                        v > (usize::MAX - d) / 10,
                        d <= 9,
                ;
                lemma_digits_val_grows(s@, i + 1);
            }
            return None;
        }
        proof {
            assert(v * 10 + d <= usize::MAX) by (nonlinear_arith)
                requires
                    v <= (usize::MAX - d) / 10,
                    d <= 9,
            ;
        }
        v = 10 * v + d;
        i += 1;
    }
    proof {
        assert(s@.subrange(0, len as int) =~= s@);
    }
    Some(v)
}

/// Parse a signed decimal number: digits with one optional leading minus
/// sign.  Succeeds exactly on strings of that shape whose value fits in
/// `isize`.
pub fn parse_isize(s: &str) -> (r: Option<isize>)
    ensures
        match r {
            Some(v) => int_of_chars(s@) == Some(v as int),
            None => match int_of_chars(s@) {
                Some(x) => x < isize::MIN || x > isize::MAX,
                None => true,
            },
        },
{
    let len = s.unicode_len();
    if len == 0 {
        return None;
    }
    if s.get_char(0) == '-' {
        let mag = s.substring_char(1, len);
        assert(mag@ == s@.subrange(1, len as int));
        match parse_usize(mag) {
            Some(v) => {
                if v <= (isize::MAX as usize) {
                    Some(-(v as isize))
                } else if v == (isize::MAX as usize) + 1 {
                    Some(isize::MIN)
                } else {
                    None
                }
            },
            None => None,
        }
    } else {
        match parse_usize(s) {
            Some(v) => {
                if v <= (isize::MAX as usize) {
                    Some(v as isize)
                } else {
                    None
                }
            },
            None => None,
        }
    }
}

/// The single-character string for one decimal digit.
fn digit_str(d: usize) -> (r: &'static str)
    requires
        d < 10,
    ensures
        r@ =~= seq![digit_char(d as nat)],
{
    proof {
        reveal_strlit("0");
        reveal_strlit("1");
        reveal_strlit("2");
        reveal_strlit("3");
        reveal_strlit("4");
        reveal_strlit("5");
        reveal_strlit("6");
        reveal_strlit("7");
        reveal_strlit("8");
        reveal_strlit("9");
    }
    if d == 0 {
        "0"
    } else if d == 1 {
        "1"
    } else if d == 2 {
        "2"
    } else if d == 3 {
        "3"
    } else if d == 4 {
        "4"
    } else if d == 5 {
        "5"
    } else if d == 6 {
        "6"
    } else if d == 7 {
        "7"
    } else if d == 8 {
        "8"
    } else {
        "9"
    }
}

/// The decimal text of `n`.
pub fn usize_to_string(n: usize) -> (r: String)
    ensures
        r@ == dec_digits(n as nat),
    decreases n,
{
    if n < 10 {
        let r = String::from_str(digit_str(n));
        assert(r@ =~= dec_digits(n as nat));
        r
    } else {
        let mut r = usize_to_string(n / 10);
        r.append(digit_str(n % 10));
        assert(r@ =~= dec_digits(n as nat));
        r
    }
}

/// The decimal text of `n`, with a leading minus sign when negative.
pub fn isize_to_string(n: isize) -> (r: String)
    ensures
        r@ == int_digits(n as int),
{
    if n >= 0 {
        usize_to_string(n as usize)
    } else {
        let mag: usize = if n == isize::MIN {
            (isize::MAX as usize) + 1
        } else {
            (-n) as usize
        };
        let mut r = String::from_str("-");
        proof {
            reveal_strlit("-");
        }
        r.append(usize_to_string(mag).as_str());
        assert(r@ =~= int_digits(n as int));
        r
    }
}

} // verus!
