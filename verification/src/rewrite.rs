//! The content rewriter: ordered passes over a document body, each a plain
//! function from character sequences to character sequences, specified by a
//! recursive spec function that scans the text from the front.

use vstd::prelude::*;

use crate::craft_files::{spec_emoji, spec_weight, FileData};
use crate::text::{
    append_str, append_vec, eq_at, find_char, find_char_exec, find_sub, find_sub_exec,
    is_match_at, lemma_find_char, lemma_find_sub, lemma_is_match_shift, lemma_rfind_sub_before,
    lemma_skip_skip, newline_free, rfind_sub_before, rfind_sub_before_exec, str_to_chars,
    subrange_vec,
};

verus! {

// ---------------------------------------------------------------------------
// Foreign code-fence tag normalization
// ---------------------------------------------------------------------------
/// A non-standard fence tag sits at the front of the text.
pub open spec fn fence_step(t: Seq<char>) -> Option<int> {
    if t.len() >= 8 && is_match_at(t, "```other"@, 0) {
        Some(8int)
    } else {
        None
    }
}

/// Every occurrence of the foreign fence tag replaced by the bare fence.
pub open spec fn rw_fence(s: Seq<char>) -> Seq<char>
    decreases s.len(),
{
    if s.len() == 0 {
        Seq::empty()
    } else if fence_step(s) is Some {
        "```"@ + rw_fence(s.skip(8))
    } else {
        seq![s[0]] + rw_fence(s.skip(1))
    }
}

pub fn fence_pass(s: &Vec<char>) -> (r: Vec<char>)
    ensures
        r@ == rw_fence(s@),
{
    let pat = str_to_chars("```other");
    let mut out: Vec<char> = Vec::new();
    let mut i: usize = 0;
    proof {
        assert(s@.skip(0) =~= s@);
        assert(Seq::<char>::empty() + rw_fence(s@) =~= rw_fence(s@));
    }
    while i < s.len()
        invariant
            i <= s@.len(),
            pat@ == "```other"@,
            rw_fence(s@) == out@ + rw_fence(s@.skip(i as int)),
        decreases s@.len() - i,
    {
        let ghost tail = s@.skip(i as int);
        proof {
            lemma_is_match_shift(s@, pat@, i as int, 0);
        }
        if s.len() - i >= 8 && eq_at(s, &pat, i) {
            proof {
                lemma_skip_skip(s@, i as int, 8);
                assert(rw_fence(tail) == "```"@ + rw_fence(s@.skip(i + 8)));
                assert(out@ + ("```"@ + rw_fence(s@.skip(i + 8))) =~= (out@ + "```"@) + rw_fence(
                    s@.skip(i + 8),
                ));
            }
            append_str(&mut out, "```");
            i = i + 8;
        } else {
            proof {
                assert(fence_step(tail) is None);
                assert(tail[0] == s@[i as int]);
                lemma_skip_skip(s@, i as int, 1);
                assert(rw_fence(tail) == seq![s@[i as int]] + rw_fence(s@.skip(i + 1)));
                assert(out@ + (seq![s@[i as int]] + rw_fence(s@.skip(i + 1))) =~= out@.push(
                    s@[i as int],
                ) + rw_fence(s@.skip(i + 1)));
            }
            let c = s[i];
            out.push(c);
            i = i + 1;
        }
    }
    proof {
        assert(s@.skip(s@.len() as int) =~= Seq::<char>::empty());
        assert(out@ + Seq::<char>::empty() =~= out@);
    }
    out
}

// ---------------------------------------------------------------------------
// Media-reference flattening
// ---------------------------------------------------------------------------
/// An image reference whose target runs through a media directory sits at
/// the front of the text: `![name](dir.assets/file)`. The replacement keeps
/// the alt text and the bare file name after the last media-directory
/// segment of the target.
///
/// The extent of a reference is fixed deterministically: the alt text runs
/// to the first `](` after it, the target to the first `)` after that, and
/// neither may contain a newline. The bare name is what follows the last
/// media-directory segment, so nested media segments still flatten fully.
pub open spec fn img_step(t: Seq<char>) -> Option<(Seq<char>, int)> {
    if t.len() >= 2 && t[0] == '!' && t[1] == '[' {
        match find_sub(t, "]("@, 2) {
            Some(a) => if 2 <= a && a + 2 <= t.len() && newline_free(t, 2, a) {
                match find_char(t, ')', a + 2) {
                    Some(b) => if a + 2 <= b && b < t.len() && newline_free(t, a + 2, b) {
                        let target = t.subrange(a + 2, b);
                        match rfind_sub_before(target, ".assets/"@, target.len() as int) {
                            Some(p) => if 0 <= p && p + 8 <= target.len() {
                                Some(
                                    (
                                        "!["@ + t.subrange(2, a) + "]("@ + target.skip(p + 8)
                                            + seq![')'],
                                        b + 1,
                                    ),
                                )
                            } else {
                                None
                            },
                            None => None,
                        }
                    } else {
                        None
                    },
                    None => None,
                }
            } else {
                None
            },
            None => None,
        }
    } else {
        None
    }
}

/// Every media image reference flattened to its bare file name.
pub open spec fn rw_img(s: Seq<char>) -> Seq<char>
    decreases s.len(),
{
    if s.len() == 0 {
        Seq::empty()
    } else {
        match img_step(s) {
            Some(p) => p.0 + rw_img(s.skip(p.1)),
            None => seq![s[0]] + rw_img(s.skip(1)),
        }
    }
}

fn img_step_exec(t: &Vec<char>) -> (r: Option<(Vec<char>, usize)>)
    ensures
        match r {
            Some(p) => img_step(t@) == Some((p.0@, p.1 as int)),
            None => img_step(t@) is None,
        },
{
    if t.len() < 2 {
        return None;
    }
    if t[0] != '!' || t[1] != '[' {
        return None;
    }
    let lp = str_to_chars("](");
    let a = match find_sub_exec(t, &lp, 2) {
        None => {
            return None;
        },
        Some(a) => a,
    };
    proof {
        reveal_strlit("](");
        lemma_find_sub(t@, "]("@, 2);
        lemma_find_char(t@, '\n', 2);
    }
    let name_ok = match find_char_exec(t, '\n', 2) {
        Some(x) => x >= a,
        None => true,
    };
    if !name_ok {
        proof {
            assert(!newline_free(t@, 2, a as int));
        }
        return None;
    }
    proof {
        assert(newline_free(t@, 2, a as int));
    }
    let b = match find_char_exec(t, ')', a + 2) {
        None => {
            return None;
        },
        Some(b) => b,
    };
    proof {
        lemma_find_char(t@, ')', a + 2);
        lemma_find_char(t@, '\n', a + 2);
    }
    let target_ok = match find_char_exec(t, '\n', a + 2) {
        Some(x) => x >= b,
        None => true,
    };
    if !target_ok {
        proof {
            assert(!newline_free(t@, a + 2, b as int));
        }
        return None;
    }
    proof {
        assert(newline_free(t@, a + 2, b as int));
    }
    let target = subrange_vec(t, a + 2, b);
    let ap = str_to_chars(".assets/");
    let p = match rfind_sub_before_exec(&target, &ap, target.len()) {
        None => {
            return None;
        },
        Some(p) => p,
    };
    proof {
        reveal_strlit(".assets/");
        lemma_rfind_sub_before(target@, ".assets/"@, target@.len() as int);
    }
    if !(p <= target.len() && target.len() - p >= 8) {
        return None;
    }
    let mut rep: Vec<char> = Vec::new();
    append_str(&mut rep, "![");
    let name = subrange_vec(t, 2, a);
    append_vec(&mut rep, &name);
    append_str(&mut rep, "](");
    let fname = subrange_vec(&target, p + 8, target.len());
    append_vec(&mut rep, &fname);
    rep.push(')');
    proof {
        assert(rep@ =~= "!["@ + t@.subrange(2, a as int) + "]("@ + target@.skip(p + 8) + seq![
            ')',
        ]);
    }
    Some((rep, b + 1))
}

pub fn img_pass(s: &Vec<char>) -> (r: Vec<char>)
    ensures
        r@ == rw_img(s@),
{
    let mut out: Vec<char> = Vec::new();
    let mut i: usize = 0;
    proof {
        assert(s@.skip(0) =~= s@);
        assert(Seq::<char>::empty() + rw_img(s@) =~= rw_img(s@));
    }
    while i < s.len()
        invariant
            i <= s@.len(),
            rw_img(s@) == out@ + rw_img(s@.skip(i as int)),
        decreases s@.len() - i,
    {
        let ghost tail_spec = s@.skip(i as int);
        let tail = subrange_vec(s, i, s.len());
        match img_step_exec(&tail) {
            Some(rep_k) => {
                let (rep, k) = rep_k;
                proof {
                    lemma_skip_skip(s@, i as int, k as int);
                    assert(rw_img(tail_spec) == rep@ + rw_img(s@.skip(i + k)));
                    assert(out@ + (rep@ + rw_img(s@.skip(i + k))) =~= (out@ + rep@) + rw_img(
                        s@.skip(i + k),
                    ));
                }
                append_vec(&mut out, &rep);
                i = i + k;
            },
            None => {
                proof {
                    assert(tail_spec[0] == s@[i as int]);
                    lemma_skip_skip(s@, i as int, 1);
                    assert(rw_img(tail_spec) == seq![s@[i as int]] + rw_img(s@.skip(i + 1)));
                    assert(out@ + (seq![s@[i as int]] + rw_img(s@.skip(i + 1))) =~= out@.push(
                        s@[i as int],
                    ) + rw_img(s@.skip(i + 1)));
                }
                let c = s[i];
                out.push(c);
                i = i + 1;
            },
        }
    }
    proof {
        assert(s@.skip(s@.len() as int) =~= Seq::<char>::empty());
        assert(out@ + Seq::<char>::empty() =~= out@);
    }
    out
}

// ---------------------------------------------------------------------------
// Calendar pseudo-link rewrite
// ---------------------------------------------------------------------------
pub open spec fn is_digit(c: char) -> bool {
    '0' as u32 <= c as u32 && c as u32 <= '9' as u32
}

pub open spec fn digit_val(c: char) -> int {
    c as u32 - '0' as u32
}

pub open spec fn num2(t: Seq<char>, i: int) -> int {
    10 * digit_val(t[i]) + digit_val(t[i + 1])
}

pub open spec fn num4(t: Seq<char>, i: int) -> int {
    1000 * digit_val(t[i]) + 100 * digit_val(t[i + 1]) + 10 * digit_val(t[i + 2]) + digit_val(
        t[i + 3],
    )
}

pub open spec fn is_leap_year(y: int) -> bool {
    (y % 4 == 0 && y % 100 != 0) || y % 400 == 0
}

pub open spec fn days_in_month(y: int, m: int) -> int {
    if m == 2 {
        if is_leap_year(y) {
            29
        } else {
            28
        }
    } else if m == 4 || m == 6 || m == 9 || m == 11 {
        30
    } else {
        31
    }
}

/// A real date of the proleptic Gregorian calendar, within the year range
/// that four digits can write.
pub open spec fn is_valid_date(y: int, m: int, d: int) -> bool {
    0 <= y <= 9999 && 1 <= m <= 12 && 1 <= d <= days_in_month(y, m)
}

/// The short human form of a date: abbreviated weekday, abbreviated month,
/// day without padding, an apostrophe and the last two digits of the year.
pub uninterp spec fn short_date_of(y: int, m: int, d: int) -> Seq<char>;

/// Relies on time::Month::try_from and time::Date::from_calendar_date, which
/// together accept exactly the real calendar dates (months 1 through 12, days
/// up to the month's length, leap years included; every four-digit year is in
/// the supported range), and on time::format_description::parse followed by
/// time::Date::format with that fixed description, whose text depends on the
/// date alone. The intermediate values of the time crate (a month, a date,
/// and a borrowed format description) cannot cross a verified signature, so
/// this one wrapper holds the whole chain.
#[verifier::external_body]
fn format_day(year: u32, month: u32, day: u32) -> (r: Option<String>)
    requires
        year <= 9999,
        month <= 99,
        day <= 99,
    ensures
        r is Some <==> is_valid_date(year as int, month as int, day as int),
        r matches Some(f) ==> f@ == short_date_of(year as int, month as int, day as int),
{
    let fmt = time::format_description::parse(
        "[weekday repr:short], [month repr:short] [day padding:none] '[year padding:none repr:last_two]",
    ).ok()?;
    let m = time::Month::try_from(month as u8).ok()?;
    let date = time::Date::from_calendar_date(year as i32, m, day as u8).ok()?;
    date.format(&fmt).ok()
}

fn digit_of(c: char) -> (r: Option<u32>)
    ensures
        match r {
            Some(v) => is_digit(c) && v == digit_val(c) && v <= 9,
            None => !is_digit(c),
        },
{
    let x = c as u32;
    if x >= 48 && x <= 57 {
        Some(x - 48)
    } else {
        None
    }
}

fn is_valid_date_exec(y: u32, m: u32, d: u32) -> (r: bool)
    ensures
        r == is_valid_date(y as int, m as int, d as int),
{
    if y > 9999 || m < 1 || m > 12 || d < 1 {
        return false;
    }
    let leap = (y % 4 == 0 && y % 100 != 0) || y % 400 == 0;
    let dim: u32 = if m == 2 {
        if leap {
            29
        } else {
            28
        }
    } else if m == 4 || m == 6 || m == 9 || m == 11 {
        30
    } else {
        31
    };
    d <= dim
}

/// The date digits `yyyy.mm.dd` sit at position `i`.
pub open spec fn day_shape(t: Seq<char>, i: int) -> bool {
    is_digit(t[i]) && is_digit(t[i + 1]) && is_digit(t[i + 2]) && is_digit(t[i + 3]) && t[i + 4]
        == '.' && is_digit(t[i + 5]) && is_digit(t[i + 6]) && t[i + 7] == '.' && is_digit(
        t[i + 8],
    ) && is_digit(t[i + 9])
}

/// The outcome of looking for a calendar pseudo-link at the front of the
/// text: a replacement and its extent, a malformed date that fails the run,
/// or no link here.
pub enum StepOut {
    Hit(Seq<char>, int),
    Bad(Seq<char>),
    Miss,
}

/// A calendar pseudo-link `[text](day://yyyy.mm.dd)` at the front of the
/// text becomes a display-only reference: the visible text is the reformatted
/// date and the target is an inert placeholder. A date of the right shape
/// that is no real calendar date fails the run.
///
/// The extent of a link is fixed deterministically: the link text runs to
/// the first `](day://` after the opening bracket and may not contain a
/// newline (so the text itself never swallows a later calendar link), and
/// only ASCII digits form a date. Anything else is left as ordinary text.
pub open spec fn day_step(t: Seq<char>) -> StepOut {
    if t.len() >= 1 && t[0] == '[' {
        match find_sub(t, "](day://"@, 1) {
            Some(a) => if 1 <= a && a + 19 <= t.len() && newline_free(t, 1, a) && day_shape(
                t,
                a + 8,
            ) && t[a + 18] == ')' {
                let y = num4(t, a + 8);
                let m = num2(t, a + 13);
                let d = num2(t, a + 16);
                if is_valid_date(y, m, d) {
                    StepOut::Hit("["@ + short_date_of(y, m, d) + "](javascript:;)"@, a + 19)
                } else {
                    StepOut::Bad(t.subrange(0, a + 19))
                }
            } else {
                StepOut::Miss
            },
            None => StepOut::Miss,
        }
    } else {
        StepOut::Miss
    }
}

/// Every calendar pseudo-link rewritten, or the text of the first one whose
/// date is malformed.
pub open spec fn rw_day(s: Seq<char>) -> Result<Seq<char>, Seq<char>>
    decreases s.len(),
{
    if s.len() == 0 {
        Ok(Seq::empty())
    } else {
        match day_step(s) {
            StepOut::Hit(rep, k) => match rw_day(s.skip(k)) {
                Ok(rest) => Ok(rep + rest),
                Err(e) => Err(e),
            },
            StepOut::Bad(txt) => Err(txt),
            StepOut::Miss => match rw_day(s.skip(1)) {
                Ok(rest) => Ok(seq![s[0]] + rest),
                Err(e) => Err(e),
            },
        }
    }
}

fn day_step_exec(t: &Vec<char>) -> (r: Result<Option<(Vec<char>, usize)>, Vec<char>>)
    ensures
        match r {
            Ok(Some(p)) => day_step(t@) == StepOut::Hit(p.0@, p.1 as int),
            Ok(None) => day_step(t@) is Miss,
            Err(e) => day_step(t@) == StepOut::Bad(e@),
        },
{
    if t.len() < 1 {
        return Ok(None);
    }
    if t[0] != '[' {
        return Ok(None);
    }
    let pat = str_to_chars("](day://");
    let a = match find_sub_exec(t, &pat, 1) {
        None => {
            return Ok(None);
        },
        Some(a) => a,
    };
    proof {
        reveal_strlit("](day://");
        lemma_find_sub(t@, "](day://"@, 1);
        lemma_find_char(t@, '\n', 1);
    }
    if t.len() - a < 19 {
        return Ok(None);
    }
    let nl_ok = match find_char_exec(t, '\n', 1) {
        Some(x) => x >= a,
        None => true,
    };
    if !nl_ok {
        proof {
            assert(!newline_free(t@, 1, a as int));
        }
        return Ok(None);
    }
    proof {
        assert(newline_free(t@, 1, a as int));
    }
    if t[a + 12] != '.' || t[a + 15] != '.' || t[a + 18] != ')' {
        return Ok(None);
    }
    let d0 = digit_of(t[a + 8]);
    let d1 = digit_of(t[a + 9]);
    let d2 = digit_of(t[a + 10]);
    let d3 = digit_of(t[a + 11]);
    let m0 = digit_of(t[a + 13]);
    let m1 = digit_of(t[a + 14]);
    let e0 = digit_of(t[a + 16]);
    let e1 = digit_of(t[a + 17]);
    match (d0, d1, d2, d3, m0, m1, e0, e1) {
        (
            Some(d0),
            Some(d1),
            Some(d2),
            Some(d3),
            Some(m0),
            Some(m1),
            Some(e0),
            Some(e1),
        ) => {
            let y: u32 = 1000 * d0 + 100 * d1 + 10 * d2 + d3;
            let m: u32 = 10 * m0 + m1;
            let d: u32 = 10 * e0 + e1;
            if !is_valid_date_exec(y, m, d) {
                return Err(subrange_vec(t, 0, a + 19));
            }
            match format_day(y, m, d) {
                Some(f) => {
                    let mut rep: Vec<char> = Vec::new();
                    append_str(&mut rep, "[");
                    append_vec(&mut rep, &str_to_chars(f.as_str()));
                    append_str(&mut rep, "](javascript:;)");
                    proof {
                        assert(rep@ =~= "["@ + short_date_of(y as int, m as int, d as int)
                            + "](javascript:;)"@);
                    }
                    Ok(Some((rep, a + 19)))
                },
                None => {
                    proof {
                        assert(false);
                    }
                    Ok(None)
                },
            }
        },
        _ => Ok(None),
    }
}

/// Rewrite every calendar pseudo-link of the text, or fail with the text of
/// the first link whose date is not a real calendar date.
pub fn day_pass(s: &Vec<char>) -> (r: Result<Vec<char>, Vec<char>>)
    ensures
        match r {
            Ok(v) => rw_day(s@) == Ok::<Seq<char>, Seq<char>>(v@),
            Err(e) => rw_day(s@) == Err::<Seq<char>, Seq<char>>(e@),
        },
{
    let mut out: Vec<char> = Vec::new();
    let mut i: usize = 0;
    proof {
        assert(s@.skip(0) =~= s@);
        if rw_day(s@) is Ok {
            assert(Seq::<char>::empty() + rw_day(s@)->Ok_0 =~= rw_day(s@)->Ok_0);
        }
    }
    while i < s.len()
        invariant
            i <= s@.len(),
            match rw_day(s@.skip(i as int)) {
                Ok(rest) => rw_day(s@) == Ok::<Seq<char>, Seq<char>>(out@ + rest),
                Err(e) => rw_day(s@) == Err::<Seq<char>, Seq<char>>(e),
            },
        decreases s@.len() - i,
    {
        let ghost tail_spec = s@.skip(i as int);
        let tail = subrange_vec(s, i, s.len());
        match day_step_exec(&tail) {
            Ok(Some(rep_k)) => {
                let (rep, k) = rep_k;
                proof {
                    lemma_skip_skip(s@, i as int, k as int);
                    assert(out@ + (rep@ + (match rw_day(s@.skip(i + k)) {
                        Ok(rest) => rest,
                        Err(_) => Seq::empty(),
                    })) =~= (out@ + rep@) + (match rw_day(s@.skip(i + k)) {
                        Ok(rest) => rest,
                        Err(_) => Seq::empty(),
                    }));
                }
                append_vec(&mut out, &rep);
                i = i + k;
            },
            Ok(None) => {
                proof {
                    assert(tail_spec[0] == s@[i as int]);
                    lemma_skip_skip(s@, i as int, 1);
                    assert(out@ + (seq![s@[i as int]] + (match rw_day(s@.skip(i + 1)) {
                        Ok(rest) => rest,
                        Err(_) => Seq::empty(),
                    })) =~= out@.push(s@[i as int]) + (match rw_day(s@.skip(i + 1)) {
                        Ok(rest) => rest,
                        Err(_) => Seq::empty(),
                    }));
                }
                let c = s[i];
                out.push(c);
                i = i + 1;
            },
            Err(e) => {
                return Err(e);
            },
        }
    }
    proof {
        assert(s@.skip(s@.len() as int) =~= Seq::<char>::empty());
        assert(out@ + Seq::<char>::empty() =~= out@);
    }
    Ok(out)
}

// ---------------------------------------------------------------------------
// Symbolic note-reference rewrite
// ---------------------------------------------------------------------------
pub open spec fn is_alnum(c: char) -> bool {
    ('0' as u32 <= c as u32 && c as u32 <= '9' as u32) || ('a' as u32 <= c as u32 && c as u32
        <= 'z' as u32) || ('A' as u32 <= c as u32 && c as u32 <= 'Z' as u32)
}

pub open spec fn alnum_range(c: Seq<char>, lo: int, hi: int) -> bool {
    forall|x: int| lo <= x < hi ==> is_alnum(#[trigger] c[x])
}

/// A block-anchor token sits at position `p`: a `#^` marker followed by a
/// 36-character identifier in the shape of a version-4 random identifier.
pub open spec fn is_uuid_at(c: Seq<char>, p: int) -> bool {
    &&& 0 <= p
    &&& p + 38 <= c.len()
    &&& c[p] == '#'
    &&& c[p + 1] == '^'
    &&& alnum_range(c, p + 2, p + 10)
    &&& c[p + 10] == '-'
    &&& alnum_range(c, p + 11, p + 15)
    &&& c[p + 15] == '-'
    &&& c[p + 16] == '4'
    &&& alnum_range(c, p + 17, p + 20)
    &&& c[p + 20] == '-'
    &&& (c[p + 21] == '8' || c[p + 21] == '9' || c[p + 21] == 'A' || c[p + 21] == 'B' || c[p + 21]
        == 'a' || c[p + 21] == 'b')
    &&& alnum_range(c, p + 22, p + 25)
    &&& c[p + 25] == '-'
    &&& alnum_range(c, p + 26, p + 38)
}

pub open spec fn find_uuid(c: Seq<char>, i: int) -> Option<int>
    decreases c.len() - i,
{
    if i < 0 || i + 38 > c.len() {
        None
    } else if is_uuid_at(c, i) {
        Some(i)
    } else {
        find_uuid(c, i + 1)
    }
}

/// The reference content with its first block-anchor token removed; block
/// anchors are not representable in the destination and are dropped.
pub open spec fn strip_uuid(c: Seq<char>) -> Seq<char> {
    match find_uuid(c, 0) {
        Some(p) => c.take(p) + c.skip(p + 38),
        None => c,
    }
}

proof fn lemma_find_uuid(c: Seq<char>, i: int)
    requires
        0 <= i,
    ensures
        match find_uuid(c, i) {
            Some(p) => i <= p && p + 38 <= c.len() && is_uuid_at(c, p),
            None => forall|x: int| i <= x ==> !is_uuid_at(c, x),
        },
    decreases c.len() - i,
{
    if i + 38 > c.len() {
    } else if is_uuid_at(c, i) {
    } else {
        lemma_find_uuid(c, i + 1);
    }
}

fn alnum_range_exec(c: &Vec<char>, lo: usize, hi: usize) -> (r: bool)
    requires
        lo <= hi <= c@.len(),
    ensures
        r == alnum_range(c@, lo as int, hi as int),
{
    let mut k: usize = lo;
    while k < hi
        invariant
            lo <= k <= hi <= c@.len(),
            forall|x: int| lo <= x < k ==> is_alnum(#[trigger] c@[x]),
        decreases hi - k,
    {
        let x = c[k] as u32;
        if !((x >= 48 && x <= 57) || (x >= 97 && x <= 122) || (x >= 65 && x <= 90)) {
            return false;
        }
        k = k + 1;
    }
    true
}

fn is_uuid_at_exec(c: &Vec<char>, p: usize) -> (r: bool)
    requires
        p + 38 <= c@.len(),
    ensures
        r == is_uuid_at(c@, p as int),
{
    let n = c.len();
    proof {
        assert(p + 38 <= n);
    }
    c[p] == '#' && c[p + 1] == '^' && alnum_range_exec(c, p + 2, p + 10) && c[p + 10] == '-'
        && alnum_range_exec(c, p + 11, p + 15) && c[p + 15] == '-' && c[p + 16] == '4'
        && alnum_range_exec(c, p + 17, p + 20) && c[p + 20] == '-' && (c[p + 21] == '8' || c[p
        + 21] == '9' || c[p + 21] == 'A' || c[p + 21] == 'B' || c[p + 21] == 'a' || c[p + 21]
        == 'b') && alnum_range_exec(c, p + 22, p + 25) && c[p + 25] == '-' && alnum_range_exec(
        c,
        p + 26,
        p + 38,
    )
}

fn strip_uuid_exec(c: &Vec<char>) -> (r: Vec<char>)
    ensures
        r@ == strip_uuid(c@),
{
    let mut p: usize = 0;
    while p < c.len() && c.len() - p >= 38
        invariant
            0 <= p,
            find_uuid(c@, 0) == find_uuid(c@, p as int),
        decreases c@.len() - p,
    {
        if is_uuid_at_exec(c, p) {
            let mut out = subrange_vec(c, 0, p);
            let rest = subrange_vec(c, p + 38, c.len());
            append_vec(&mut out, &rest);
            return out;
        }
        p = p + 1;
    }
    subrange_vec(c, 0, c.len())
}

/// The content split at its last interior `#`: the part before is the lookup
/// key, the part after is a heading fragment to be slugified into an anchor.
pub open spec fn header_split(c: Seq<char>) -> (Seq<char>, Option<Seq<char>>) {
    if c.len() >= 3 {
        match crate::text::rfind_char_before(c, '#', c.len() as int - 1) {
            Some(p) => if p >= 1 {
                (c.take(p), Some(c.skip(p + 1)))
            } else {
                (c, None)
            },
            None => (c, None),
        }
    } else {
        (c, None)
    }
}

fn header_split_exec(c: &Vec<char>) -> (r: (Vec<char>, Option<Vec<char>>))
    ensures
        r.0@ == header_split(c@).0,
        match r.1 {
            Some(h) => header_split(c@).1 == Some(h@),
            None => header_split(c@).1 is None,
        },
{
    if c.len() < 3 {
        return (subrange_vec(c, 0, c.len()), None);
    }
    proof {
        crate::text::lemma_rfind_char_before(c@, '#', c@.len() as int - 1);
    }
    match crate::text::rfind_char_before_exec(c, '#', c.len() - 1) {
        Some(p) => if p >= 1 {
            (subrange_vec(c, 0, p), Some(subrange_vec(c, p + 1, c.len())))
        } else {
            (subrange_vec(c, 0, c.len()), None)
        },
        None => (subrange_vec(c, 0, c.len()), None),
    }
}

/// The destination-style reference for a resolved double-bracket content:
/// the target's display name as the link text, and the slug path under the
/// destination root, with the slugified heading fragment as an anchor, as
/// the target. Nothing when the key is absent from the index.
pub open spec fn wiki_resolve(
    content: Seq<char>,
    docs: Seq<FileData>,
    base: Seq<char>,
) -> Option<Seq<char>> {
    let stripped = strip_uuid(content);
    let key = header_split(stripped).0;
    let hdr = header_split(stripped).1;
    match crate::craft_files::find_doc(docs, key) {
        Some(i) => Some(
            "["@ + docs[i].name@ + "](@/"@ + base + seq!['/'] + docs[i].path_slug@ + (match hdr {
                Some(h) => seq!['#'] + crate::paths::slug_of(h),
                None => Seq::empty(),
            }) + seq![')'],
        ),
        None => None,
    }
}

/// A double-bracket reference sits at the front of the text: `[[` followed
/// by at least one character that is no bracket, up to the first following
/// bracket, which must begin `]]`.
pub open spec fn wiki_step(t: Seq<char>, docs: Seq<FileData>, base: Seq<char>) -> StepOut {
    if t.len() >= 5 && t[0] == '[' && t[1] == '[' && t[2] != '[' && t[2] != ']' {
        match crate::text::find_char2(t, '[', ']', 3) {
            Some(j) => if 3 <= j && j + 2 <= t.len() && t[j] == ']' && t[j + 1] == ']' {
                match wiki_resolve(t.subrange(2, j), docs, base) {
                    Some(rep) => StepOut::Hit(rep, j + 2),
                    None => StepOut::Bad(t.subrange(0, j + 2)),
                }
            } else {
                StepOut::Miss
            },
            None => StepOut::Miss,
        }
    } else {
        StepOut::Miss
    }
}

/// Every double-bracket reference resolved against the index, or the text of
/// the first one whose key the index does not hold.
pub open spec fn rw_wiki(s: Seq<char>, docs: Seq<FileData>, base: Seq<char>) -> Result<
    Seq<char>,
    Seq<char>,
>
    decreases s.len(),
{
    if s.len() == 0 {
        Ok(Seq::empty())
    } else {
        match wiki_step(s, docs, base) {
            StepOut::Hit(rep, k) => match rw_wiki(s.skip(k), docs, base) {
                Ok(rest) => Ok(rep + rest),
                Err(e) => Err(e),
            },
            StepOut::Bad(txt) => Err(txt),
            StepOut::Miss => match rw_wiki(s.skip(1), docs, base) {
                Ok(rest) => Ok(seq![s[0]] + rest),
                Err(e) => Err(e),
            },
        }
    }
}

/// A successful rewrite resolved every reference: when the reference pass
/// over `s` succeeds, there is no position of `s` at which a double-bracket
/// reference with a key absent from the index begins. Together with the
/// rewrite contract this says that any unresolvable reference in a document
/// body makes the whole run fail.
pub proof fn lemma_wiki_ok_resolves_all(s: Seq<char>, docs: Seq<FileData>, base: Seq<char>)
    requires
        rw_wiki(s, docs, base) is Ok,
    ensures
        forall|i: int|
            0 <= i <= s.len() ==> !(#[trigger] wiki_step(s.skip(i), docs, base) is Bad),
    decreases s.len(),
{
    if s.len() == 0 {
        assert forall|i: int|
            0 <= i <= s.len() implies !(#[trigger] wiki_step(s.skip(i), docs, base) is Bad) by {
            assert(s.skip(i).len() == 0);
        }
    } else {
        match wiki_step(s, docs, base) {
            StepOut::Miss => {
                lemma_wiki_ok_resolves_all(s.skip(1), docs, base);
                assert forall|i: int|
                    0 <= i <= s.len() implies !(#[trigger] wiki_step(s.skip(i), docs, base)
                    is Bad) by {
                    if i == 0 {
                        assert(s.skip(0) =~= s);
                    } else {
                        crate::text::lemma_skip_skip(s, 1, i - 1);
                        assert(!(wiki_step(s.skip(1).skip(i - 1), docs, base) is Bad));
                    }
                }
            },
            StepOut::Hit(rep, k) => {
                let fc = crate::text::find_char2(s, '[', ']', 3);
                if fc is None {
                    assert(wiki_step(s, docs, base) is Miss);
                }
                let j = fc->0;
                crate::text::lemma_find_char2(s, '[', ']', 3);
                assert(k == j + 2);
                lemma_wiki_ok_resolves_all(s.skip(k), docs, base);
                assert forall|i: int|
                    0 <= i <= s.len() implies !(#[trigger] wiki_step(s.skip(i), docs, base)
                    is Bad) by {
                    if i == 0 {
                        assert(s.skip(0) =~= s);
                    } else if i < k {
                        let t = s.skip(i);
                        if i == 1 {
                            // inside the opener: the next character is the
                            // content's first, which is no bracket
                            assert(t[1] == s[2]);
                            assert(t[1] != '[');
                        } else if i < j {
                            // inside the content, which holds no bracket
                            assert(t[0] == s[i]);
                            assert(t[0] != '[');
                        } else {
                            // on the closing brackets
                            assert(t[0] == s[i]);
                            assert(t[0] == ']');
                        }
                        assert(wiki_step(t, docs, base) is Miss);
                    } else {
                        crate::text::lemma_skip_skip(s, k, i - k);
                        assert(!(wiki_step(s.skip(k).skip(i - k), docs, base) is Bad));
                    }
                }
            },
            StepOut::Bad(_) => {
                assert(false);
            },
        }
    }
}

fn wiki_step_exec(t: &Vec<char>, docs: &Vec<FileData>, base: &Vec<char>) -> (r: Result<
    Option<(Vec<char>, usize)>,
    Vec<char>,
>)
    ensures
        match r {
            Ok(Some(p)) => wiki_step(t@, docs@, base@) == StepOut::Hit(p.0@, p.1 as int),
            Ok(None) => wiki_step(t@, docs@, base@) is Miss,
            Err(e) => wiki_step(t@, docs@, base@) == StepOut::Bad(e@),
        },
{
    if t.len() < 5 {
        return Ok(None);
    }
    if t[0] != '[' || t[1] != '[' || t[2] == '[' || t[2] == ']' {
        return Ok(None);
    }
    let j = match crate::text::find_char2_exec(t, '[', ']', 3) {
        None => {
            return Ok(None);
        },
        Some(j) => j,
    };
    proof {
        crate::text::lemma_find_char2(t@, '[', ']', 3);
    }
    if t[j] != ']' {
        return Ok(None);
    }
    if j + 1 >= t.len() || t[j + 1] != ']' {
        return Ok(None);
    }
    let content = subrange_vec(t, 2, j);
    let stripped = strip_uuid_exec(&content);
    let split = header_split_exec(&stripped);
    let key = crate::text::chars_to_string(&split.0);
    match crate::craft_files::find_doc_exec(docs, &key) {
        Some(idx) => {
            proof {
                crate::craft_files::lemma_find_doc(docs@, key@);
            }
            let mut rep: Vec<char> = Vec::new();
            append_str(&mut rep, "[");
            append_vec(&mut rep, &str_to_chars(docs[idx].name.as_str()));
            append_str(&mut rep, "](@/");
            append_vec(&mut rep, base);
            rep.push('/');
            append_vec(&mut rep, &str_to_chars(docs[idx].path_slug.as_str()));
            match split.1 {
                Some(h) => {
                    rep.push('#');
                    let hslug = crate::paths::slugify_segment(&h);
                    append_vec(&mut rep, &hslug);
                },
                None => {},
            }
            rep.push(')');
            proof {
                assert(rep@ =~= wiki_resolve(t@.subrange(2, j as int), docs@, base@)->0);
            }
            Ok(Some((rep, j + 2)))
        },
        None => Err(subrange_vec(t, 0, j + 2)),
    }
}

/// Rewrite every double-bracket reference of the text against the index, or
/// fail with the text of the first unresolvable one.
pub fn wiki_pass(s: &Vec<char>, docs: &Vec<FileData>, base: &Vec<char>) -> (r: Result<
    Vec<char>,
    Vec<char>,
>)
    ensures
        match r {
            Ok(v) => rw_wiki(s@, docs@, base@) == Ok::<Seq<char>, Seq<char>>(v@),
            Err(e) => rw_wiki(s@, docs@, base@) == Err::<Seq<char>, Seq<char>>(e@),
        },
{
    let mut out: Vec<char> = Vec::new();
    let mut i: usize = 0;
    proof {
        assert(s@.skip(0) =~= s@);
        if rw_wiki(s@, docs@, base@) is Ok {
            assert(Seq::<char>::empty() + rw_wiki(s@, docs@, base@)->Ok_0 =~= rw_wiki(
                s@,
                docs@,
                base@,
            )->Ok_0);
        }
    }
    while i < s.len()
        invariant
            i <= s@.len(),
            match rw_wiki(s@.skip(i as int), docs@, base@) {
                Ok(rest) => rw_wiki(s@, docs@, base@) == Ok::<Seq<char>, Seq<char>>(out@ + rest),
                Err(e) => rw_wiki(s@, docs@, base@) == Err::<Seq<char>, Seq<char>>(e),
            },
        decreases s@.len() - i,
    {
        let ghost tail_spec = s@.skip(i as int);
        let tail = subrange_vec(s, i, s.len());
        match wiki_step_exec(&tail, docs, base) {
            Ok(Some(rep_k)) => {
                let (rep, k) = rep_k;
                proof {
                    lemma_skip_skip(s@, i as int, k as int);
                    assert(out@ + (rep@ + (match rw_wiki(s@.skip(i + k), docs@, base@) {
                        Ok(rest) => rest,
                        Err(_) => Seq::empty(),
                    })) =~= (out@ + rep@) + (match rw_wiki(s@.skip(i + k), docs@, base@) {
                        Ok(rest) => rest,
                        Err(_) => Seq::empty(),
                    }));
                }
                append_vec(&mut out, &rep);
                i = i + k;
            },
            Ok(None) => {
                proof {
                    assert(tail_spec[0] == s@[i as int]);
                    lemma_skip_skip(s@, i as int, 1);
                    assert(out@ + (seq![s@[i as int]] + (match rw_wiki(s@.skip(i + 1), docs@, base@)
                        {
                        Ok(rest) => rest,
                        Err(_) => Seq::empty(),
                    })) =~= out@.push(s@[i as int]) + (match rw_wiki(s@.skip(i + 1), docs@, base@) {
                        Ok(rest) => rest,
                        Err(_) => Seq::empty(),
                    }));
                }
                let c = s[i];
                out.push(c);
                i = i + 1;
            },
            Err(e) => {
                return Err(e);
            },
        }
    }
    proof {
        assert(s@.skip(s@.len() as int) =~= Seq::<char>::empty());
        assert(out@ + Seq::<char>::empty() =~= out@);
    }
    Ok(out)
}

// ---------------------------------------------------------------------------
// Title de-duplication and metadata block
// ---------------------------------------------------------------------------
/// The text with its leading top-level heading line removed: the heading
/// must start at the very first character and run to the first newline.
pub open spec fn strip_h1(s: Seq<char>) -> Seq<char> {
    if s.len() > 0 && s[0] == '#' {
        match find_char(s, '\n', 0) {
            Some(j) => s.skip(j + 1),
            None => s,
        }
    } else {
        s
    }
}

pub fn strip_h1_exec(s: &Vec<char>) -> (r: Vec<char>)
    ensures
        r@ == strip_h1(s@),
{
    if s.len() == 0 {
        return subrange_vec(s, 0, 0);
    }
    if s[0] != '#' {
        return subrange_vec(s, 0, s.len());
    }
    proof {
        lemma_find_char(s@, '\n', 0);
    }
    match find_char_exec(s, '\n', 0) {
        Some(j) => subrange_vec(s, j + 1, s.len()),
        None => subrange_vec(s, 0, s.len()),
    }
}

/// The structured metadata block prepended to every document: title, the
/// two supplied timestamps, the classification's ordering weight, and the
/// classification's display glyph.
pub open spec fn frontmatter_of(doc: FileData) -> Seq<char> {
    "---\ntitle: \""@ + doc.name@ + "\"\ndate: "@ + doc.created_at@ + "\nupdated: "@
        + doc.modified_at@ + "\nweight: "@ + seq![spec_weight(doc.note_type)]
        + "\nextra:\n  note_type: "@ + seq![spec_emoji(doc.note_type)] + "\n---\n"@
}

pub fn frontmatter_exec(doc: &FileData) -> (r: Vec<char>)
    ensures
        r@ == frontmatter_of(*doc),
{
    let mut out: Vec<char> = Vec::new();
    append_str(&mut out, "---\ntitle: \"");
    append_vec(&mut out, &str_to_chars(doc.name.as_str()));
    append_str(&mut out, "\"\ndate: ");
    append_vec(&mut out, &str_to_chars(doc.created_at.as_str()));
    append_str(&mut out, "\nupdated: ");
    append_vec(&mut out, &str_to_chars(doc.modified_at.as_str()));
    append_str(&mut out, "\nweight: ");
    out.push(doc.note_type.to_weight());
    append_str(&mut out, "\nextra:\n  note_type: ");
    out.push(doc.note_type.as_emoji());
    append_str(&mut out, "\n---\n");
    proof {
        assert(out@ =~= frontmatter_of(*doc));
    }
    out
}

// ---------------------------------------------------------------------------
// Block-address guard
// ---------------------------------------------------------------------------
/// A link into the source tool's private block-addressing scheme sits at the
/// front of the text: `[text](craftdocs://open...)`. Such a reference cannot
/// be represented in the destination; its extent is reported and the whole
/// run fails.
///
/// The reported extent is fixed deterministically: the link text runs to the
/// first `](craftdocs://open` after the opening bracket and the target to
/// the first `)` after that, with no newline in either.
pub open spec fn craft_match_end(t: Seq<char>) -> Option<int> {
    if t.len() >= 1 && t[0] == '[' {
        match find_sub(t, "](craftdocs://open"@, 1) {
            Some(a) => if 1 <= a && a + 18 <= t.len() && newline_free(t, 1, a) {
                match find_char(t, ')', a + 18) {
                    Some(b) => if a + 18 <= b && b < t.len() && newline_free(t, a + 18, b) {
                        Some(b + 1)
                    } else {
                        None
                    },
                    None => None,
                }
            } else {
                None
            },
            None => None,
        }
    } else {
        None
    }
}

/// The text of the first block-address link of the document, if any.
pub open spec fn craft_find(s: Seq<char>) -> Option<Seq<char>>
    decreases s.len(),
{
    if s.len() == 0 {
        None
    } else {
        match craft_match_end(s) {
            Some(e) => Some(s.subrange(0, e)),
            None => craft_find(s.skip(1)),
        }
    }
}

fn craft_step_exec(t: &Vec<char>) -> (r: Option<usize>)
    ensures
        match r {
            Some(e) => craft_match_end(t@) == Some(e as int),
            None => craft_match_end(t@) is None,
        },
{
    if t.len() < 1 {
        return None;
    }
    if t[0] != '[' {
        return None;
    }
    let pat = str_to_chars("](craftdocs://open");
    let a = match find_sub_exec(t, &pat, 1) {
        None => {
            return None;
        },
        Some(a) => a,
    };
    proof {
        reveal_strlit("](craftdocs://open");
        lemma_find_sub(t@, "](craftdocs://open"@, 1);
        lemma_find_char(t@, '\n', 1);
    }
    let nl_ok = match find_char_exec(t, '\n', 1) {
        Some(x) => x >= a,
        None => true,
    };
    if !nl_ok {
        proof {
            assert(!newline_free(t@, 1, a as int));
        }
        return None;
    }
    proof {
        assert(newline_free(t@, 1, a as int));
    }
    let b = match find_char_exec(t, ')', a + 18) {
        None => {
            return None;
        },
        Some(b) => b,
    };
    proof {
        lemma_find_char(t@, ')', a + 18);
        lemma_find_char(t@, '\n', a + 18);
    }
    let nl2_ok = match find_char_exec(t, '\n', a + 18) {
        Some(x) => x >= b,
        None => true,
    };
    if !nl2_ok {
        proof {
            assert(!newline_free(t@, a + 18, b as int));
        }
        return None;
    }
    proof {
        assert(newline_free(t@, a + 18, b as int));
    }
    Some(b + 1)
}

/// The text of the first block-address link of the document, if any.
pub fn craft_guard(s: &Vec<char>) -> (r: Option<Vec<char>>)
    ensures
        match r {
            Some(x) => craft_find(s@) == Some(x@),
            None => craft_find(s@) is None,
        },
{
    let mut i: usize = 0;
    proof {
        assert(s@.skip(0) =~= s@);
    }
    while i < s.len()
        invariant
            i <= s@.len(),
            craft_find(s@) == craft_find(s@.skip(i as int)),
        decreases s@.len() - i,
    {
        let ghost tail_spec = s@.skip(i as int);
        let tail = subrange_vec(s, i, s.len());
        match craft_step_exec(&tail) {
            Some(e) => {
                proof {
                    assert(craft_find(tail_spec) == Some(tail_spec.subrange(0, e as int)));
                }
                return Some(subrange_vec(&tail, 0, e));
            },
            None => {
                proof {
                    lemma_skip_skip(s@, i as int, 1);
                    assert(craft_find(tail_spec) == craft_find(s@.skip(i + 1)));
                }
                i = i + 1;
            },
        }
    }
    None
}

// ---------------------------------------------------------------------------
// The whole per-document pipeline
// ---------------------------------------------------------------------------
/// What rewriting one document gives: its finished destination text, or the
/// first failure, with the exact text that was matched.
pub enum DocOutcome {
    Good(Seq<char>),
    CraftBlock(Seq<char>),
    Unresolved(Seq<char>),
    BadDate(Seq<char>),
}

/// The ordered passes over one document body, each applied to the text the
/// previous pass produced: the block-address guard, title de-duplication,
/// metadata block synthesis, symbolic note-reference resolution, calendar
/// pseudo-link rewrite, media-reference flattening, and fence-tag
/// normalization.
pub open spec fn doc_outcome(doc: FileData, docs: Seq<FileData>, base: Seq<char>) -> DocOutcome {
    match craft_find(doc.contents@) {
        Some(text) => DocOutcome::CraftBlock(text),
        None => {
            let framed = frontmatter_of(doc) + strip_h1(doc.contents@);
            match rw_wiki(framed, docs, base) {
                Err(text) => DocOutcome::Unresolved(text),
                Ok(resolved) => match rw_day(resolved) {
                    Err(text) => DocOutcome::BadDate(text),
                    Ok(dated) => DocOutcome::Good(rw_fence(rw_img(dated))),
                },
            }
        },
    }
}

/// A failure while rewriting one document body, with the matched text.
pub enum BodyIssue {
    CraftBlock(Vec<char>),
    Unresolved(Vec<char>),
    BadDate(Vec<char>),
}

/// Rewrite the body of the document at index `i` against a snapshot of the
/// index.
pub fn rewrite_body(docs: &Vec<FileData>, i: usize, base: &Vec<char>) -> (r: Result<
    Vec<char>,
    BodyIssue,
>)
    requires
        i < docs@.len(),
    ensures
        match r {
            Ok(v) => doc_outcome(docs@[i as int], docs@, base@) == DocOutcome::Good(v@),
            Err(issue) => match issue {
                BodyIssue::CraftBlock(x) => doc_outcome(docs@[i as int], docs@, base@)
                    == DocOutcome::CraftBlock(x@),
                BodyIssue::Unresolved(x) => doc_outcome(docs@[i as int], docs@, base@)
                    == DocOutcome::Unresolved(x@),
                BodyIssue::BadDate(x) => doc_outcome(docs@[i as int], docs@, base@)
                    == DocOutcome::BadDate(x@),
            },
        },
{
    let body = str_to_chars(docs[i].contents.as_str());
    match craft_guard(&body) {
        Some(x) => {
            return Err(BodyIssue::CraftBlock(x));
        },
        None => {},
    }
    let trimmed = strip_h1_exec(&body);
    let mut framed = frontmatter_exec(&docs[i]);
    append_vec(&mut framed, &trimmed);
    let resolved = match wiki_pass(&framed, docs, base) {
        Ok(v) => v,
        Err(e) => {
            return Err(BodyIssue::Unresolved(e));
        },
    };
    let dated = match day_pass(&resolved) {
        Ok(v) => v,
        Err(e) => {
            return Err(BodyIssue::BadDate(e));
        },
    };
    let flattened = img_pass(&dated);
    Ok(fence_pass(&flattened))
}

/// The error that reports the failure of one document, carrying the
/// document's source path and the exact text that was matched.
pub open spec fn error_for(
    e: crate::errors::ConvertError,
    doc: FileData,
    docs: Seq<FileData>,
    base: Seq<char>,
) -> bool {
    match doc_outcome(doc, docs, base) {
        DocOutcome::Good(_) => false,
        DocOutcome::CraftBlock(t) => e matches crate::errors::ConvertError::CraftBlockLink {
            file,
            link,
        } && file@ == doc.path_full@ && link@ == t,
        DocOutcome::Unresolved(t) => e matches crate::errors::ConvertError::UnresolvedWikiLink {
            file,
            reference,
        } && file@ == doc.path_full@ && reference@ == t,
        DocOutcome::BadDate(t) => e matches crate::errors::ConvertError::InvalidDayDate {
            file,
            link,
        } && file@ == doc.path_full@ && link@ == t,
    }
}

impl crate::craft_files::CraftDocs {
    /// Load the raw body of the document at index `i`, as read from disk.
    pub fn set_contents(&mut self, i: usize, body: String)
        requires
            i < old(self).files@.len(),
        ensures
            final(self).input_dir == old(self).input_dir,
            final(self).input_dir_name == old(self).input_dir_name,
            final(self).directories == old(self).directories,
            final(self).files@.len() == old(self).files@.len(),
            forall|j: int|
                0 <= j < old(self).files@.len() && j != i ==> final(self).files@[j] == old(
                    self,
                ).files@[j],
            crate::craft_files::eq_but_contents(
                old(self).files@[i as int],
                final(self).files@[i as int],
            ),
            final(self).files@[i as int].contents@ == body@,
    {
        let mut fd = self.files.remove(i);
        fd.contents = body;
        self.files.insert(i, fd);
        proof {
            assert(forall|j: int|
                0 <= j < old(self).files@.len() && j != i ==> self.files@[j] == old(
                    self,
                ).files@[j]);
        }
    }

    /// Rewrite every document body against a read-only snapshot of the
    /// finished index, and commit the new bodies only when every document
    /// succeeded.
    ///
    /// On the first failing document — in index order — the run fails with
    /// an error naming that document's source path and the exact matched
    /// text, and the index is left exactly as it was: no body is committed.
    pub fn format_markdown(&mut self) -> (r: Result<(), crate::errors::ConvertError>)
        requires
            old(self).wf(),
        ensures
            final(self).wf(),
            ({
                let docs = old(self).files@;
                let base = crate::paths::slug_of(old(self).input_dir_name@);
                let post = final(self).files@;
                match r {
                    Ok(_) => {
                        &&& crate::craft_files::unchanged_meta(*old(self), *final(self))
                        &&& post.len() == docs.len()
                        &&& forall|i: int|
                            0 <= i < docs.len() ==> crate::craft_files::eq_but_contents(
                                docs[i],
                                post[i],
                            ) && (#[trigger] doc_outcome(docs[i], docs, base) is Good)
                                && post[i].contents@ == doc_outcome(docs[i], docs, base)->Good_0
                    },
                    Err(e) => {
                        &&& *final(self) == *old(self)
                        &&& exists|k: int|
                            0 <= k < docs.len() && !(#[trigger] doc_outcome(docs[k], docs, base)
                                is Good) && (forall|i: int|
                                0 <= i < k ==> #[trigger] doc_outcome(docs[i], docs, base)
                                    is Good) && error_for(e, docs[k], docs, base)
                    },
                }
            }),
    {
        let base_string = crate::paths::slugify_str(self.input_dir_name.as_str());
        let base = str_to_chars(base_string.as_str());
        let ghost gbase = crate::paths::slug_of(old(self).input_dir_name@);
        let mut bodies: Vec<Vec<char>> = Vec::new();
        let mut i: usize = 0;
        while i < self.files.len()
            invariant
                *self == *old(self),
                old(self).wf(),
                base@ == crate::paths::slug_of(old(self).input_dir_name@),
                gbase == crate::paths::slug_of(old(self).input_dir_name@),
                i <= self.files@.len(),
                bodies@.len() == i,
                forall|x: int|
                    0 <= x < i ==> (#[trigger] doc_outcome(
                        old(self).files@[x],
                        old(self).files@,
                        base@,
                    ) is Good) && bodies@[x]@ == doc_outcome(
                        old(self).files@[x],
                        old(self).files@,
                        base@,
                    )->Good_0,
            decreases self.files@.len() - i,
        {
            match rewrite_body(&self.files, i, &base) {
                Ok(v) => {
                    bodies.push(v);
                },
                Err(issue) => {
                    let file = self.files[i].path_full.clone();
                    let e = match issue {
                        BodyIssue::CraftBlock(x) => crate::errors::ConvertError::CraftBlockLink {
                            file,
                            link: crate::text::chars_to_string(&x),
                        },
                        BodyIssue::Unresolved(x) => crate::errors::ConvertError::UnresolvedWikiLink {
                            file,
                            reference: crate::text::chars_to_string(&x),
                        },
                        BodyIssue::BadDate(x) => crate::errors::ConvertError::InvalidDayDate {
                            file,
                            link: crate::text::chars_to_string(&x),
                        },
                    };
                    proof {
                        let k = i as int;
                        assert(self.files@ == old(self).files@);
                        assert(base@ == gbase);
                        assert(!(doc_outcome(old(self).files@[k], old(self).files@, gbase)
                            is Good));
                        assert(forall|x: int|
                            0 <= x < k ==> #[trigger] doc_outcome(
                                old(self).files@[x],
                                old(self).files@,
                                gbase,
                            ) is Good);
                        assert(error_for(e, old(self).files@[k], old(self).files@, gbase));
                    }
                    return Err(e);
                },
            }
            i = i + 1;
        }
        let n = self.files.len();
        let mut idx: usize = 0;
        while idx < n
            invariant
                idx <= n,
                gbase == crate::paths::slug_of(old(self).input_dir_name@),
                n == old(self).files@.len(),
                self.files@.len() == n,
                bodies@.len() == n,
                self.input_dir == old(self).input_dir,
                self.input_dir_name == old(self).input_dir_name,
                self.directories == old(self).directories,
                forall|x: int|
                    0 <= x < n ==> (#[trigger] doc_outcome(
                        old(self).files@[x],
                        old(self).files@,
                        gbase,
                    ) is Good) && bodies@[x]@ == doc_outcome(
                        old(self).files@[x],
                        old(self).files@,
                        gbase,
                    )->Good_0,
                forall|j: int| idx <= j < n ==> self.files@[j] == old(self).files@[j],
                forall|j: int|
                    0 <= j < idx ==> crate::craft_files::eq_but_contents(
                        old(self).files@[j],
                        #[trigger] self.files@[j],
                    ) && self.files@[j].contents@ == bodies@[j]@,
            decreases n - idx,
        {
            let body = crate::text::chars_to_string(&bodies[idx]);
            self.set_contents(idx, body);
            idx = idx + 1;
        }
        proof {
            assert forall|ii: int, jj: int|
                0 <= ii < jj < self.files@.len() implies self.files@[ii].path_rel@
                != self.files@[jj].path_rel@ by {
                assert(self.files@[ii].path_rel == old(self).files@[ii].path_rel);
                assert(self.files@[jj].path_rel == old(self).files@[jj].path_rel);
            }
        }
        Ok(())
    }
}

} // verus!
