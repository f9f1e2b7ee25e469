//! Character-sequence utilities: conversions between `String` and `Vec<char>`,
//! and verified substring searching over character vectors.
//!
//! All document rewriting in this crate works over `Vec<char>`, whose view is
//! the same `Seq<char>` as the view of the `String` it came from, so contracts
//! stated over string views carry over directly.

use vstd::prelude::*;

verus! {

/// Relies on str::chars (std): the iterator yields exactly the characters of
/// the string, in order, so collecting them gives the string's view.
#[verifier::external_body]
pub fn str_to_chars(s: &str) -> (r: Vec<char>)
    ensures
        r@ == s@,
{
    s.chars().collect()
}

/// Relies on String::from_iter (std): collecting characters builds the string
/// whose characters are exactly those of the iterator, in order.
#[verifier::external_body]
pub fn chars_to_string(v: &Vec<char>) -> (r: String)
    ensures
        r@ == v@,
{
    v.iter().collect()
}

/// The pattern `pat` occurs in `s` starting at position `i`.
pub open spec fn is_match_at(s: Seq<char>, pat: Seq<char>, i: int) -> bool {
    0 <= i && i + pat.len() <= s.len() && s.subrange(i, i + pat.len() as int) == pat
}

/// Position of the first occurrence of `pat` in `s` at or after `i`.
pub open spec fn find_sub(s: Seq<char>, pat: Seq<char>, i: int) -> Option<int>
    decreases s.len() - i,
{
    if i < 0 || i >= s.len() || i + pat.len() > s.len() {
        None
    } else if is_match_at(s, pat, i) {
        Some(i)
    } else {
        find_sub(s, pat, i + 1)
    }
}

/// Position of the first occurrence of the character `c` in `s` at or after `i`.
pub open spec fn find_char(s: Seq<char>, c: char, i: int) -> Option<int>
    decreases s.len() - i,
{
    if i < 0 || i >= s.len() {
        None
    } else if s[i] == c {
        Some(i)
    } else {
        find_char(s, c, i + 1)
    }
}

/// Position of the first occurrence of `c1` or `c2` in `s` at or after `i`.
pub open spec fn find_char2(s: Seq<char>, c1: char, c2: char, i: int) -> Option<int>
    decreases s.len() - i,
{
    if i < 0 || i >= s.len() {
        None
    } else if s[i] == c1 || s[i] == c2 {
        Some(i)
    } else {
        find_char2(s, c1, c2, i + 1)
    }
}

/// Position of the last occurrence of `c` in `s` strictly before `p`.
pub open spec fn rfind_char_before(s: Seq<char>, c: char, p: int) -> Option<int>
    decreases p,
{
    if p <= 0 || p > s.len() {
        None
    } else if s[p - 1] == c {
        Some(p - 1)
    } else {
        rfind_char_before(s, c, p - 1)
    }
}

/// Position of the last occurrence of `pat` in `s` starting strictly before `p`.
pub open spec fn rfind_sub_before(s: Seq<char>, pat: Seq<char>, p: int) -> Option<int>
    decreases p,
{
    if p <= 0 {
        None
    } else if is_match_at(s, pat, p - 1) {
        Some(p - 1)
    } else {
        rfind_sub_before(s, pat, p - 1)
    }
}

/// There is no newline character in `s[lo..hi)`.
pub open spec fn newline_free(s: Seq<char>, lo: int, hi: int) -> bool {
    forall|x: int| lo <= x < hi ==> s[x] != '\n'
}

pub proof fn lemma_find_sub(s: Seq<char>, pat: Seq<char>, i: int)
    requires
        0 <= i,
        pat.len() > 0,
    ensures
        match find_sub(s, pat, i) {
            Some(j) => i <= j && is_match_at(s, pat, j) && forall|x: int|
                i <= x < j ==> !is_match_at(s, pat, x),
            None => forall|x: int| i <= x ==> !is_match_at(s, pat, x),
        },
    decreases s.len() - i,
{
    if i >= s.len() || i + pat.len() > s.len() {
    } else if is_match_at(s, pat, i) {
    } else {
        lemma_find_sub(s, pat, i + 1);
    }
}

pub proof fn lemma_find_char(s: Seq<char>, c: char, i: int)
    requires
        0 <= i,
    ensures
        match find_char(s, c, i) {
            Some(j) => i <= j < s.len() && s[j] == c && forall|x: int| i <= x < j ==> s[x] != c,
            None => forall|x: int| i <= x < s.len() ==> s[x] != c,
        },
    decreases s.len() - i,
{
    if i >= s.len() {
    } else if s[i] == c {
    } else {
        lemma_find_char(s, c, i + 1);
    }
}

pub proof fn lemma_find_char2(s: Seq<char>, c1: char, c2: char, i: int)
    requires
        0 <= i,
    ensures
        match find_char2(s, c1, c2, i) {
            Some(j) => i <= j < s.len() && (s[j] == c1 || s[j] == c2) && forall|x: int|
                i <= x < j ==> s[x] != c1 && s[x] != c2,
            None => forall|x: int| i <= x < s.len() ==> s[x] != c1 && s[x] != c2,
        },
    decreases s.len() - i,
{
    if i >= s.len() {
    } else if s[i] == c1 || s[i] == c2 {
    } else {
        lemma_find_char2(s, c1, c2, i + 1);
    }
}

pub proof fn lemma_rfind_char_before(s: Seq<char>, c: char, p: int)
    requires
        p <= s.len(),
    ensures
        match rfind_char_before(s, c, p) {
            Some(j) => 0 <= j < p && s[j] == c && forall|x: int| j < x < p ==> s[x] != c,
            None => forall|x: int| 0 <= x < p ==> s[x] != c,
        },
    decreases p,
{
    if p <= 0 {
    } else if s[p - 1] == c {
    } else {
        lemma_rfind_char_before(s, c, p - 1);
    }
}

pub proof fn lemma_rfind_sub_before(s: Seq<char>, pat: Seq<char>, p: int)
    ensures
        match rfind_sub_before(s, pat, p) {
            Some(j) => 0 <= j < p && is_match_at(s, pat, j) && forall|x: int|
                j < x < p ==> !is_match_at(s, pat, x),
            None => forall|x: int| 0 <= x < p ==> !is_match_at(s, pat, x),
        },
    decreases p,
{
    if p <= 0 {
    } else if is_match_at(s, pat, p - 1) {
    } else {
        lemma_rfind_sub_before(s, pat, p - 1);
    }
}

pub proof fn lemma_find_char_at(s: Seq<char>, c: char, i: int, j: int)
    requires
        0 <= i <= j < s.len(),
        s[j] == c,
        forall|x: int| i <= x < j ==> s[x] != c,
    ensures
        find_char(s, c, i) == Some(j),
    decreases j - i,
{
    if i < j {
        lemma_find_char_at(s, c, i + 1, j);
    }
}

pub proof fn lemma_find_char_none(s: Seq<char>, c: char, i: int)
    requires
        0 <= i,
        forall|x: int| i <= x < s.len() ==> s[x] != c,
    ensures
        find_char(s, c, i) is None,
    decreases s.len() - i,
{
    if i < s.len() {
        lemma_find_char_none(s, c, i + 1);
    }
}

pub proof fn lemma_rfind_char_at(s: Seq<char>, c: char, p: int, j: int)
    requires
        0 <= j < p <= s.len(),
        s[j] == c,
        forall|x: int| j < x < p ==> s[x] != c,
    ensures
        rfind_char_before(s, c, p) == Some(j),
    decreases p,
{
    if j < p - 1 {
        lemma_rfind_char_at(s, c, p - 1, j);
    }
}

pub proof fn lemma_rfind_char_none(s: Seq<char>, c: char, p: int)
    requires
        p <= s.len(),
        forall|x: int| 0 <= x < p ==> s[x] != c,
    ensures
        rfind_char_before(s, c, p) is None,
    decreases p,
{
    if p > 0 {
        lemma_rfind_char_none(s, c, p - 1);
    }
}

pub proof fn lemma_is_match_shift(s: Seq<char>, pat: Seq<char>, i: int, j: int)
    requires
        0 <= i <= s.len(),
        0 <= j,
    ensures
        is_match_at(s, pat, i + j) == is_match_at(s.skip(i), pat, j),
{
    if i + j + pat.len() <= s.len() {
        assert(s.skip(i).subrange(j, j + pat.len() as int) =~= s.subrange(
            i + j,
            i + j + pat.len() as int,
        ));
    }
}

pub proof fn lemma_skip_skip<A>(s: Seq<A>, i: int, k: int)
    requires
        0 <= i,
        0 <= k,
        i + k <= s.len(),
    ensures
        s.skip(i).skip(k) == s.skip(i + k),
{
    assert(s.skip(i).skip(k) =~= s.skip(i + k));
}

/// Whether `pat` occurs in `s` at position `i`.
pub fn eq_at(s: &Vec<char>, pat: &Vec<char>, i: usize) -> (r: bool)
    ensures
        r == is_match_at(s@, pat@, i as int),
{
    if i > s.len() || s.len() - i < pat.len() {
        return false;
    }
    let mut k: usize = 0;
    while k < pat.len()
        invariant
            i + pat.len() <= s.len(),
            k <= pat.len(),
            forall|x: int| 0 <= x < k ==> s@[i + x] == pat@[x],
        decreases pat.len() - k,
    {
        if s[i + k] != pat[k] {
            return false;
        }
        k = k + 1;
    }
    proof {
        assert(s@.subrange(i as int, i + pat@.len() as int) =~= pat@);
    }
    true
}

pub fn find_sub_exec(s: &Vec<char>, pat: &Vec<char>, from: usize) -> (r: Option<usize>)
    ensures
        match r {
            Some(j) => find_sub(s@, pat@, from as int) == Some(j as int),
            None => find_sub(s@, pat@, from as int) is None,
        },
{
    let mut j: usize = from;
    while j < s.len() && s.len() - j >= pat.len()
        invariant
            from <= j,
            find_sub(s@, pat@, from as int) == find_sub(s@, pat@, j as int),
        decreases s.len() - j,
    {
        if eq_at(s, pat, j) {
            return Some(j);
        }
        j = j + 1;
    }
    None
}

pub fn find_char_exec(s: &Vec<char>, c: char, from: usize) -> (r: Option<usize>)
    ensures
        match r {
            Some(j) => find_char(s@, c, from as int) == Some(j as int),
            None => find_char(s@, c, from as int) is None,
        },
{
    let mut j: usize = from;
    while j < s.len()
        invariant
            from <= j,
            find_char(s@, c, from as int) == find_char(s@, c, j as int),
        decreases s.len() - j,
    {
        if s[j] == c {
            return Some(j);
        }
        j = j + 1;
    }
    None
}

pub fn find_char2_exec(s: &Vec<char>, c1: char, c2: char, from: usize) -> (r: Option<usize>)
    ensures
        match r {
            Some(j) => find_char2(s@, c1, c2, from as int) == Some(j as int),
            None => find_char2(s@, c1, c2, from as int) is None,
        },
{
    let mut j: usize = from;
    while j < s.len()
        invariant
            from <= j,
            find_char2(s@, c1, c2, from as int) == find_char2(s@, c1, c2, j as int),
        decreases s.len() - j,
    {
        if s[j] == c1 || s[j] == c2 {
            return Some(j);
        }
        j = j + 1;
    }
    None
}

pub fn rfind_char_before_exec(s: &Vec<char>, c: char, p: usize) -> (r: Option<usize>)
    requires
        p <= s@.len(),
    ensures
        match r {
            Some(j) => rfind_char_before(s@, c, p as int) == Some(j as int),
            None => rfind_char_before(s@, c, p as int) is None,
        },
{
    let mut q: usize = p;
    while q > 0
        invariant
            q <= p <= s@.len(),
            rfind_char_before(s@, c, p as int) == rfind_char_before(s@, c, q as int),
        decreases q,
    {
        if s[q - 1] == c {
            return Some(q - 1);
        }
        q = q - 1;
    }
    None
}

pub fn rfind_sub_before_exec(s: &Vec<char>, pat: &Vec<char>, p: usize) -> (r: Option<usize>)
    requires
        p <= s@.len(),
    ensures
        match r {
            Some(j) => rfind_sub_before(s@, pat@, p as int) == Some(j as int),
            None => rfind_sub_before(s@, pat@, p as int) is None,
        },
{
    let mut q: usize = p;
    while q > 0
        invariant
            q <= p,
            rfind_sub_before(s@, pat@, p as int) == rfind_sub_before(s@, pat@, q as int),
        decreases q,
    {
        if eq_at(s, pat, q - 1) {
            return Some(q - 1);
        }
        q = q - 1;
    }
    None
}

/// Copy of `s[a..b)`.
pub fn subrange_vec(s: &Vec<char>, a: usize, b: usize) -> (r: Vec<char>)
    requires
        a <= b <= s@.len(),
    ensures
        r@ == s@.subrange(a as int, b as int),
{
    let mut out: Vec<char> = Vec::new();
    let mut k: usize = a;
    while k < b
        invariant
            a <= k <= b <= s@.len(),
            out@ == s@.subrange(a as int, k as int),
        decreases b - k,
    {
        out.push(s[k]);
        proof {
            assert(out@ =~= s@.subrange(a as int, k + 1 as int));
        }
        k = k + 1;
    }
    out
}

/// Append every character of `piece` to `out`.
pub fn append_vec(out: &mut Vec<char>, piece: &Vec<char>)
    ensures
        final(out)@ == old(out)@ + piece@,
{
    let mut k: usize = 0;
    while k < piece.len()
        invariant
            k <= piece@.len(),
            out@ == old(out)@ + piece@.subrange(0, k as int),
        decreases piece@.len() - k,
    {
        out.push(piece[k]);
        proof {
            assert(old(out)@ + piece@.subrange(0, k + 1 as int) =~= (old(out)@ + piece@.subrange(
                0,
                k as int,
            )).push(piece@[k as int]));
        }
        k = k + 1;
    }
    proof {
        assert(piece@.subrange(0, piece@.len() as int) =~= piece@);
    }
}

/// Append every character of the string slice `s` to `out`.
pub fn append_str(out: &mut Vec<char>, s: &str)
    ensures
        final(out)@ == old(out)@ + s@,
{
    let piece = str_to_chars(s);
    append_vec(out, &piece);
}

/// `true` iff `a` and `b` hold the same characters.
pub fn chars_eq(a: &Vec<char>, b: &Vec<char>) -> (r: bool)
    ensures
        r == (a@ == b@),
{
    if a.len() != b.len() {
        proof {
            assert(a@.len() != b@.len());
        }
        return false;
    }
    let mut k: usize = 0;
    while k < a.len()
        invariant
            a@.len() == b@.len(),
            k <= a@.len(),
            forall|x: int| 0 <= x < k ==> a@[x] == b@[x],
        decreases a@.len() - k,
    {
        if a[k] != b[k] {
            return false;
        }
        k = k + 1;
    }
    proof {
        assert(a@ =~= b@);
    }
    true
}

} // verus!
