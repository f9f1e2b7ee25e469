//! The path normalizer: relative paths are `/`-separated strings; each
//! component is stripped of emoji graphemes and slugified independently, and
//! the document extension is reattached afterwards.

use vstd::prelude::*;

use unicode_segmentation::UnicodeSegmentation;

use crate::errors::ConvertError;
use crate::text::{
    chars_eq, chars_to_string, find_char, lemma_find_char, lemma_find_char_at,
    lemma_find_char_none, lemma_skip_skip, eq_at, find_char_exec, rfind_char_before,
    rfind_char_before_exec, str_to_chars, subrange_vec, append_vec,
};

verus! {

/// What slug::slugify returns for a given sequence of characters.
pub uninterp spec fn slug_of(s: Seq<char>) -> Seq<char>;

/// The grapheme clusters that unicode segmentation divides a string into.
pub uninterp spec fn graphemes_of(s: Seq<char>) -> Seq<Seq<char>>;

/// Whether a grapheme cluster is an emoji in the emoji crate's table.
pub uninterp spec fn grapheme_is_emoji(g: Seq<char>) -> bool;

/// A character that can appear in a slug.
pub open spec fn is_slug_char(c: char) -> bool {
    ('a' as u32 <= c as u32 && c as u32 <= 'z' as u32) || ('0' as u32 <= c as u32 && c as u32
        <= '9' as u32) || c == '-'
}

/// The documented shape of a slug: lowercase ASCII letters, digits and
/// hyphens, with no leading, trailing or doubled hyphen.
pub open spec fn slug_shaped(s: Seq<char>) -> bool {
    (forall|i: int| 0 <= i < s.len() ==> is_slug_char(s[i])) && (s.len() > 0 ==> s[0] != '-'
        && s[s.len() - 1] != '-') && (forall|i: int|
        0 <= i && i + 1 < s.len() ==> !(#[trigger] s[i] == '-' && s[i + 1] == '-'))
}

/// Relies on slug::slugify: the result consists of `a`-`z`, `0`-`9` and `-`,
/// never doubled, leading or trailing; ASCII alphanumerics and single interior
/// hyphens pass through unchanged, so an input already of slug shape comes
/// back as it was.
#[verifier::external_body]
pub fn slugify_str(s: &str) -> (r: String)
    ensures
        r@ == slug_of(s@),
        slug_shaped(r@),
        slug_shaped(s@) ==> r@ == s@,
{
    slug::slugify(s)
}

/// Relies on the graphemes method of the unicode segmentation crate: the
/// grapheme clusters partition the string, so their concatenation restores it.
#[verifier::external_body]
pub fn graphemes_of_str(s: &str) -> (r: Vec<Vec<char>>)
    ensures
        r@.map_values(|v: Vec<char>| v@) == graphemes_of(s@),
        r@.map_values(|v: Vec<char>| v@).flatten() == s@,
{
    s.graphemes(true).map(|g| g.chars().collect()).collect()
}

/// Relies on the get function of the emoji crate: whether a grapheme is
/// listed in its emoji table depends on the characters alone.
#[verifier::external_body]
pub fn is_emoji_grapheme(g: &str) -> (r: bool)
    ensures
        r == grapheme_is_emoji(g@),
{
    emojis::get(g).is_some()
}

/// The concatenation of the clusters in `gs` that are not emoji.
pub open spec fn strip_emoji_seq(gs: Seq<Seq<char>>) -> Seq<char>
    decreases gs.len(),
{
    if gs.len() == 0 {
        Seq::empty()
    } else {
        (if grapheme_is_emoji(gs[0]) {
            Seq::empty()
        } else {
            gs[0]
        }) + strip_emoji_seq(gs.skip(1))
    }
}

/// One path component with its emoji graphemes removed.
pub open spec fn emoji_stripped_of(s: Seq<char>) -> Seq<char> {
    strip_emoji_seq(graphemes_of(s))
}

/// The `/`-separated components of a path. Every path has at least one
/// component; empty components are kept as empty sequences.
pub open spec fn split_path(s: Seq<char>) -> Seq<Seq<char>>
    decreases s.len(),
{
    match find_char(s, '/', 0) {
        Some(j) => if 0 <= j < s.len() {
            seq![s.take(j)] + split_path(s.skip(j + 1))
        } else {
            seq![s]
        },
        None => seq![s],
    }
}

/// The components joined back with `/` separators.
pub open spec fn join_segs(gs: Seq<Seq<char>>) -> Seq<char>
    decreases gs.len(),
{
    if gs.len() == 0 {
        Seq::empty()
    } else if gs.len() == 1 {
        gs[0]
    } else {
        gs[0] + seq!['/'] + join_segs(gs.skip(1))
    }
}

/// A path each of whose components is stripped of emoji graphemes.
pub open spec fn emoji_path_of(s: Seq<char>) -> Seq<char> {
    join_segs(split_path(s).map_values(|g: Seq<char>| emoji_stripped_of(g)))
}

/// A path each of whose components is slugified.
pub open spec fn slug_path_of(s: Seq<char>) -> Seq<char> {
    join_segs(split_path(s).map_values(|g: Seq<char>| slug_of(g)))
}

/// Every component of the path is already a well-shaped slug.
pub open spec fn slug_path_shaped(s: Seq<char>) -> bool {
    forall|k: int| 0 <= k < split_path(s).len() ==> slug_shaped(split_path(s)[k])
}

pub proof fn lemma_split_path_len(s: Seq<char>)
    ensures
        split_path(s).len() >= 1,
    decreases s.len(),
{
    match find_char(s, '/', 0) {
        Some(j) => {
            lemma_find_char(s, '/', 0);
            if 0 <= j < s.len() {
                lemma_split_path_len(s.skip(j + 1));
            }
        },
        None => {},
    }
}

/// Joining the components of a path restores the path.
pub proof fn lemma_join_split(s: Seq<char>)
    ensures
        join_segs(split_path(s)) == s,
    decreases s.len(),
{
    lemma_find_char(s, '/', 0);
    match find_char(s, '/', 0) {
        Some(j) => {
            let rest = s.skip(j + 1);
            lemma_join_split(rest);
            lemma_split_path_len(rest);
            let sp = seq![s.take(j)] + split_path(rest);
            assert(sp.skip(1) =~= split_path(rest));
            assert(join_segs(sp) == s.take(j) + seq!['/'] + join_segs(split_path(rest)));
            assert(s.take(j) + seq!['/'] + rest =~= s);
        },
        None => {},
    }
}

/// Splitting a join of `/`-free components gives the components back.
pub proof fn lemma_split_join(gs: Seq<Seq<char>>)
    requires
        gs.len() >= 1,
        forall|k: int, x: int| 0 <= k < gs.len() && 0 <= x < gs[k].len() ==> gs[k][x] != '/',
    ensures
        split_path(join_segs(gs)) == gs,
    decreases gs.len(),
{
    if gs.len() == 1 {
        let s = gs[0];
        lemma_find_char_none(s, '/', 0);
        assert(split_path(s) =~= gs);
    } else {
        let a = gs[0];
        let rest = gs.skip(1);
        let s = a + seq!['/'] + join_segs(rest);
        let ln = a.len() as int;
        assert(s[ln] == '/');
        assert(forall|x: int| 0 <= x < ln ==> s[x] == a[x] && s[x] != '/');
        lemma_find_char_at(s, '/', 0, ln);
        assert(s.take(ln) =~= a);
        assert(s.skip(ln + 1) =~= join_segs(rest));
        assert(forall|k: int, x: int|
            0 <= k < rest.len() && 0 <= x < rest[k].len() ==> rest[k][x] != '/');
        lemma_split_join(rest);
        assert(split_path(s) == seq![a] + rest);
        assert(seq![a] + rest =~= gs);
    }
}

/// Appending one more component extends the join with a separator.
pub proof fn lemma_join_snoc(gs: Seq<Seq<char>>, x: Seq<char>)
    requires
        gs.len() >= 1,
    ensures
        join_segs(gs.push(x)) == join_segs(gs) + seq!['/'] + x,
    decreases gs.len(),
{
    if gs.len() == 1 {
        let p = gs.push(x);
        assert(p.skip(1) =~= seq![x]);
        assert(join_segs(seq![x]) == x);
        assert(p[0] == gs[0]);
    } else {
        lemma_join_snoc(gs.skip(1), x);
        let p = gs.push(x);
        assert(p.skip(1) =~= gs.skip(1).push(x));
        assert(p[0] == gs[0]);
        assert(gs[0] + seq!['/'] + (join_segs(gs.skip(1)) + seq!['/'] + x) =~= (gs[0] + seq!['/']
            + join_segs(gs.skip(1))) + seq!['/'] + x);
    }
}

/// The components of a path, as character vectors.
pub fn split_path_exec(s: &Vec<char>) -> (r: Vec<Vec<char>>)
    ensures
        r@.map_values(|v: Vec<char>| v@) == split_path(s@),
{
    let mut out: Vec<Vec<char>> = Vec::new();
    let mut i: usize = 0;
    let mut finished = false;
    proof {
        assert(s@.skip(0) =~= s@);
        assert(out@.map_values(|v: Vec<char>| v@) =~= Seq::<Seq<char>>::empty());
        assert(Seq::<Seq<char>>::empty() + split_path(s@) =~= split_path(s@));
    }
    while !finished
        invariant
            i <= s@.len(),
            !finished ==> split_path(s@) == out@.map_values(|v: Vec<char>| v@) + split_path(
                s@.skip(i as int),
            ),
            finished ==> split_path(s@) == out@.map_values(|v: Vec<char>| v@),
        decreases s@.len() - i + (if finished { 0int } else { 1int }),
    {
        let ghost prev = out@.map_values(|v: Vec<char>| v@);
        let tail = subrange_vec(s, i, s.len());
        proof {
            assert(tail@ == s@.skip(i as int));
        }
        match find_char_exec(&tail, '/', 0) {
            Some(j) => {
                proof {
                    lemma_find_char(tail@, '/', 0);
                }
                let seg = subrange_vec(&tail, 0, j);
                out.push(seg);
                proof {
                    lemma_skip_skip(s@, i as int, j + 1 as int);
                    assert(out@.map_values(|v: Vec<char>| v@) =~= prev + seq![
                        tail@.take(j as int),
                    ]);
                    assert(split_path(tail@) == seq![tail@.take(j as int)] + split_path(
                        tail@.skip(j + 1),
                    ));
                    assert(prev + (seq![tail@.take(j as int)] + split_path(tail@.skip(j + 1)))
                        =~= (prev + seq![tail@.take(j as int)]) + split_path(tail@.skip(j + 1)));
                }
                i = i + j + 1;
            },
            None => {
                proof {
                    assert(split_path(tail@) == seq![tail@]);
                    assert(prev + seq![tail@] =~= prev.push(tail@));
                }
                out.push(tail);
                proof {
                    assert(out@.map_values(|v: Vec<char>| v@) =~= prev.push(s@.skip(i as int)));
                }
                finished = true;
            },
        }
    }
    out
}

/// The components joined back with `/` separators, as a character vector.
pub fn join_path_exec(segs: &Vec<Vec<char>>) -> (r: Vec<char>)
    ensures
        r@ == join_segs(segs@.map_values(|v: Vec<char>| v@)),
{
    let ghost gv = segs@.map_values(|v: Vec<char>| v@);
    let mut out: Vec<char> = Vec::new();
    if segs.len() == 0 {
        return out;
    }
    append_vec(&mut out, &segs[0]);
    proof {
        assert(gv.take(1) =~= seq![gv[0]]);
        assert(join_segs(seq![gv[0]]) == gv[0]);
        assert(out@ == join_segs(gv.take(1)));
    }
    let mut k: usize = 1;
    while k < segs.len()
        invariant
            1 <= k <= segs@.len(),
            gv == segs@.map_values(|v: Vec<char>| v@),
            out@ == join_segs(gv.take(k as int)),
        decreases segs@.len() - k,
    {
        out.push('/');
        append_vec(&mut out, &segs[k]);
        proof {
            assert(gv.take(k as int).len() >= 1);
            lemma_join_snoc(gv.take(k as int), gv[k as int]);
            assert(gv.take(k + 1) =~= gv.take(k as int).push(gv[k as int]));
            assert(out@ == (join_segs(gv.take(k as int)) + seq!['/']) + gv[k as int]);
            assert((join_segs(gv.take(k as int)) + seq!['/']) + gv[k as int] =~= join_segs(
                gv.take(k as int),
            ) + seq!['/'] + gv[k as int]);
        }
        k = k + 1;
    }
    proof {
        assert(gv.take(gv.len() as int) =~= gv);
    }
    out
}

/// One path component with its emoji graphemes removed.
pub fn strip_emoji_segment(seg: &Vec<char>) -> (r: Vec<char>)
    ensures
        r@ == emoji_stripped_of(seg@),
{
    let s = chars_to_string(seg);
    let gs = graphemes_of_str(s.as_str());
    let ghost gv = gs@.map_values(|v: Vec<char>| v@);
    let mut out: Vec<char> = Vec::new();
    let mut k: usize = 0;
    proof {
        assert(gv.skip(0) =~= gv);
    }
    while k < gs.len()
        invariant
            k <= gs@.len(),
            gv == gs@.map_values(|v: Vec<char>| v@),
            gv == graphemes_of(seg@),
            strip_emoji_seq(gv) == out@ + strip_emoji_seq(gv.skip(k as int)),
        decreases gs@.len() - k,
    {
        let g = chars_to_string(&gs[k]);
        let e = is_emoji_grapheme(g.as_str());
        proof {
            lemma_skip_skip(gv, k as int, 1);
            assert(gv.skip(k as int)[0] == gv[k as int]);
            assert(strip_emoji_seq(gv.skip(k as int)) == (if grapheme_is_emoji(gv[k as int]) {
                Seq::<char>::empty()
            } else {
                gv[k as int]
            }) + strip_emoji_seq(gv.skip(k + 1)));
        }
        if !e {
            append_vec(&mut out, &gs[k]);
            proof {
                assert((out@ + strip_emoji_seq(gv.skip(k + 1))) =~= (out@.subrange(
                    0,
                    out@.len() - gv[k as int].len(),
                ) + (gv[k as int] + strip_emoji_seq(gv.skip(k + 1)))));
            }
        } else {
            proof {
                assert(Seq::<char>::empty() + strip_emoji_seq(gv.skip(k + 1)) =~= strip_emoji_seq(
                    gv.skip(k + 1),
                ));
            }
        }
        k = k + 1;
    }
    proof {
        assert(gv.skip(gv.len() as int) =~= Seq::<Seq<char>>::empty());
        assert(strip_emoji_seq(Seq::<Seq<char>>::empty()) == Seq::<char>::empty());
        assert(out@ + Seq::<char>::empty() =~= out@);
    }
    out
}

/// One path component slugified through the slug crate.
pub fn slugify_segment(seg: &Vec<char>) -> (r: Vec<char>)
    ensures
        r@ == slug_of(seg@),
        slug_shaped(r@),
        slug_shaped(seg@) ==> r@ == seg@,
{
    let s = chars_to_string(seg);
    let slugged = slugify_str(s.as_str());
    str_to_chars(slugged.as_str())
}

/// Strip emoji graphemes from every component of a relative path.
///
/// Emoji are removed before slugification because slugifying would otherwise
/// transliterate each emoji into an English word.
pub fn strip_emoji(p: &String) -> (r: String)
    ensures
        r@ == emoji_path_of(p@),
{
    let chars = str_to_chars(p.as_str());
    let segs = split_path_exec(&chars);
    let ghost sv = split_path(p@);
    let mut mapped: Vec<Vec<char>> = Vec::new();
    let mut k: usize = 0;
    while k < segs.len()
        invariant
            k <= segs@.len(),
            segs@.map_values(|v: Vec<char>| v@) == sv,
            mapped@.len() == k,
            forall|x: int| 0 <= x < k ==> #[trigger] mapped@[x]@ == emoji_stripped_of(sv[x]),
        decreases segs@.len() - k,
    {
        let t = strip_emoji_segment(&segs[k]);
        mapped.push(t);
        k = k + 1;
    }
    let joined = join_path_exec(&mapped);
    proof {
        assert(mapped@.map_values(|v: Vec<char>| v@) =~= sv.map_values(
            |g: Seq<char>| emoji_stripped_of(g),
        ));
    }
    chars_to_string(&joined)
}

/// Slugify every component of a relative path independently.
///
/// The result is a pure function of the path, its components are all of slug
/// shape, and a path whose components are already of slug shape comes back
/// unchanged; the last two clauses together say that slugification is
/// idempotent.
pub fn slugify_path(p: &String) -> (r: String)
    ensures
        r@ == slug_path_of(p@),
        slug_path_shaped(r@),
        slug_path_shaped(p@) ==> r@ == p@,
{
    let chars = str_to_chars(p.as_str());
    let segs = split_path_exec(&chars);
    let ghost sv = split_path(p@);
    let mut mapped: Vec<Vec<char>> = Vec::new();
    let mut k: usize = 0;
    while k < segs.len()
        invariant
            k <= segs@.len(),
            segs@.map_values(|v: Vec<char>| v@) == sv,
            mapped@.len() == k,
            forall|x: int| 0 <= x < k ==> #[trigger] mapped@[x]@ == slug_of(sv[x]) && slug_shaped(
                mapped@[x]@,
            ) && (slug_shaped(sv[x]) ==> mapped@[x]@ == sv[x]),
        decreases segs@.len() - k,
    {
        let t = slugify_segment(&segs[k]);
        mapped.push(t);
        k = k + 1;
    }
    let joined = join_path_exec(&mapped);
    proof {
        let mv = mapped@.map_values(|v: Vec<char>| v@);
        assert(mv =~= sv.map_values(|g: Seq<char>| slug_of(g)));
        lemma_split_path_len(p@);
        assert(forall|kk: int, x: int|
            0 <= kk < mv.len() && 0 <= x < mv[kk].len() ==> mv[kk][x] != '/') by {
            assert(forall|kk: int| 0 <= kk < mv.len() ==> slug_shaped(mv[kk]));
        }
        lemma_split_join(mv);
        assert(slug_path_shaped(joined@));
        if slug_path_shaped(p@) {
            assert(mv =~= sv);
            lemma_join_split(p@);
        }
    }
    chars_to_string(&joined)
}

/// The path without its trailing separators. A directory written with a
/// trailing `/` names the same directory, as it does for the std path type.
pub open spec fn strip_trailing_slashes(s: Seq<char>) -> Seq<char>
    decreases s.len(),
{
    if s.len() > 0 && s[s.len() - 1] == '/' {
        strip_trailing_slashes(s.take(s.len() - 1))
    } else {
        s
    }
}

/// The path without its trailing separators.
pub fn strip_trailing_slashes_exec(s: &Vec<char>) -> (r: Vec<char>)
    ensures
        r@ == strip_trailing_slashes(s@),
{
    let mut end: usize = s.len();
    proof {
        assert(s@.take(s@.len() as int) =~= s@);
    }
    while end > 0 && s[end - 1] == '/'
        invariant
            end <= s@.len(),
            strip_trailing_slashes(s@) == strip_trailing_slashes(s@.take(end as int)),
        decreases end,
    {
        proof {
            assert(s@.take(end as int).take(end - 1 as int) =~= s@.take(end - 1 as int));
        }
        end = end - 1;
    }
    subrange_vec(s, 0, end)
}

/// `p` relative to `dir`: empty when they name the same directory, the
/// remainder when `p` lies strictly under `dir`, and nothing otherwise.
/// Trailing separators on `dir` are ignored, as the std path type ignores
/// them when it strips a prefix.
pub open spec fn rel_to(p: Seq<char>, dir: Seq<char>) -> Option<Seq<char>> {
    let d = strip_trailing_slashes(dir);
    if p == d {
        Some(Seq::empty())
    } else if p.len() > d.len() && p.take(d.len() as int) == d && p[d.len() as int] == '/' {
        Some(p.skip(d.len() + 1 as int))
    } else {
        None
    }
}

/// The path of an entry made relative to the input directory.
pub fn strip_input_dir(p: &String, input_dir: &String) -> (r: Result<String, ConvertError>)
    ensures
        match rel_to(p@, input_dir@) {
            Some(rest) => r is Ok && r->Ok_0@ == rest,
            None => (r matches Err(ConvertError::NotUnderInputDir { path, input_dir: d })
                && path@ == p@ && d@ == input_dir@),
        },
{
    let pc = str_to_chars(p.as_str());
    let dc0 = str_to_chars(input_dir.as_str());
    let dc = strip_trailing_slashes_exec(&dc0);
    if chars_eq(&pc, &dc) {
        let empty: Vec<char> = Vec::new();
        return Ok(chars_to_string(&empty));
    }
    if pc.len() > dc.len() && eq_at(&pc, &dc, 0) && pc[dc.len()] == '/' {
        proof {
            assert(pc@.take(dc@.len() as int) == pc@.subrange(0, dc@.len() as int));
        }
        let rest = subrange_vec(&pc, dc.len() + 1, pc.len());
        return Ok(chars_to_string(&rest));
    }
    Err(ConvertError::NotUnderInputDir { path: p.clone(), input_dir: input_dir.clone() })
}

/// A relative path rejoined under the input directory, with one separator
/// between them whatever trailing separators the directory was written with.
pub fn create_input_path(input_dir: &String, p: &String) -> (r: String)
    ensures
        r@ == strip_trailing_slashes(input_dir@) + seq!['/'] + p@,
{
    let dc = str_to_chars(input_dir.as_str());
    let mut out = strip_trailing_slashes_exec(&dc);
    out.push('/');
    append_vec(&mut out, &str_to_chars(p.as_str()));
    proof {
        assert(strip_trailing_slashes(input_dir@).push('/') =~= strip_trailing_slashes(input_dir@)
            + seq!['/']);
    }
    chars_to_string(&out)
}

/// Index of the first character of the file name: everything after the last
/// `/`, or the whole path when there is none.
pub open spec fn file_name_start(s: Seq<char>) -> int {
    match rfind_char_before(s, '/', s.len() as int) {
        Some(j) => j + 1,
        None => 0,
    }
}

/// Index of the dot that begins the extension: the last `.`, provided it lies
/// strictly inside the file name (a name that only starts with a dot carries
/// no extension).
pub open spec fn ext_dot(s: Seq<char>) -> Option<int> {
    match rfind_char_before(s, '.', s.len() as int) {
        Some(d) => if d > file_name_start(s) {
            Some(d)
        } else {
            None
        },
        None => None,
    }
}

/// The path with its extension (and its dot) removed.
pub open spec fn drop_ext(s: Seq<char>) -> Seq<char> {
    match ext_dot(s) {
        Some(d) => s.take(d),
        None => s,
    }
}

/// The extension of the path, without its dot.
pub open spec fn ext_of(s: Seq<char>) -> Option<Seq<char>> {
    match ext_dot(s) {
        Some(d) => Some(s.skip(d + 1)),
        None => None,
    }
}

/// The file name: everything after the last `/`.
pub open spec fn file_name_of(s: Seq<char>) -> Seq<char> {
    s.skip(file_name_start(s))
}

/// The containing directory: everything before the last `/`, or nothing when
/// the path is a bare file name.
pub open spec fn parent_of(s: Seq<char>) -> Seq<char> {
    match rfind_char_before(s, '/', s.len() as int) {
        Some(j) => s.take(j),
        None => Seq::empty(),
    }
}

/// The containing directory of the path.
pub fn parent_of_exec(s: &Vec<char>) -> (r: Vec<char>)
    ensures
        r@ == parent_of(s@),
{
    proof {
        lemma_rfind_char_bounds(s@);
    }
    match rfind_char_before_exec(s, '/', s.len()) {
        Some(j) => subrange_vec(s, 0, j),
        None => Vec::new(),
    }
}

fn ext_dot_exec(s: &Vec<char>) -> (r: Option<usize>)
    ensures
        match r {
            Some(d) => ext_dot(s@) == Some(d as int),
            None => ext_dot(s@) is None,
        },
{
    proof {
        lemma_rfind_char_bounds(s@);
    }
    let start: usize = match rfind_char_before_exec(s, '/', s.len()) {
        Some(j) => j + 1,
        None => 0,
    };
    match rfind_char_before_exec(s, '.', s.len()) {
        Some(d) => if d > start {
            Some(d)
        } else {
            None
        },
        None => None,
    }
}

proof fn lemma_rfind_char_bounds(s: Seq<char>)
    ensures
        match rfind_char_before(s, '/', s.len() as int) {
            Some(j) => 0 <= j < s.len(),
            None => true,
        },
        match rfind_char_before(s, '.', s.len() as int) {
            Some(d) => 0 <= d < s.len(),
            None => true,
        },
{
    crate::text::lemma_rfind_char_before(s, '/', s.len() as int);
    crate::text::lemma_rfind_char_before(s, '.', s.len() as int);
}

/// The path with its extension removed, as the std path type removes it.
pub fn drop_ext_exec(s: &Vec<char>) -> (r: Vec<char>)
    ensures
        r@ == drop_ext(s@),
{
    proof {
        lemma_rfind_char_bounds(s@);
    }
    match ext_dot_exec(s) {
        Some(d) => subrange_vec(s, 0, d),
        None => subrange_vec(s, 0, s.len()),
    }
}

/// The extension of the path, when it has one.
pub fn ext_of_exec(s: &Vec<char>) -> (r: Option<Vec<char>>)
    ensures
        match r {
            Some(e) => ext_of(s@) == Some(e@),
            None => ext_of(s@) is None,
        },
{
    proof {
        lemma_rfind_char_bounds(s@);
    }
    match ext_dot_exec(s) {
        Some(d) => {
            let n = s.len();
            proof {
                assert(rfind_char_before(s@, '.', s@.len() as int) == Some(d as int));
                assert(d < n);
            }
            Some(subrange_vec(s, d + 1, n))
        },
        None => None,
    }
}

/// The file name of the path: everything after the last `/`.
pub fn file_name_exec(s: &Vec<char>) -> (r: Vec<char>)
    ensures
        r@ == file_name_of(s@),
{
    proof {
        lemma_rfind_char_bounds(s@);
    }
    let start: usize = match rfind_char_before_exec(s, '/', s.len()) {
        Some(j) => j + 1,
        None => 0,
    };
    subrange_vec(s, start, s.len())
}

} // verus!
