//! Text primitives on character sequences: splitting, trimming, case mapping
//! and number syntax, each with a specification over `Seq<char>`.
use vstd::prelude::*;

verus! {

// ------------------------------------------------------------------
// Conversions between `str`/`String` and character vectors
// ------------------------------------------------------------------

/// The characters of a string slice, in order.
pub fn chars_of(s: &str) -> (res: Vec<char>)
    ensures
        res@ == s@,
{
    let mut res: Vec<char> = Vec::new();
    for c in it: s.chars()
        invariant
            res@ == it.seq().take(it.index() as int),
            it.seq() == s@,
    {
        res.push(c);
    }
    res
}

/// Builds a `String` holding the given characters (`FromIterator<char>`).
#[verifier::external_body]
pub fn string_of(v: &Vec<char>) -> (res: String)
    ensures
        res@ == v@,
{
    v.iter().collect()
}

/// Copies `s[lo..hi]`.
pub fn sub_chars(s: &Vec<char>, lo: usize, hi: usize) -> (res: Vec<char>)
    requires
        lo <= hi <= s.len(),
    ensures
        res@ == s@.subrange(lo as int, hi as int),
{
    let mut res: Vec<char> = Vec::new();
    let mut k = lo;
    while k < hi
        invariant
            lo <= k <= hi <= s.len(),
            res@ == s@.subrange(lo as int, k as int),
        decreases hi - k,
    {
        res.push(s[k]);
        k += 1;
    }
    res
}

/// Equality of two string slices by their characters.
pub fn str_eq(a: &str, b: &str) -> (res: bool)
    ensures
        res == (a@ == b@),
{
    chars_eq(&chars_of(a), &chars_of(b))
}

/// Character-wise equality of two character vectors.
pub fn chars_eq(a: &Vec<char>, b: &Vec<char>) -> (res: bool)
    ensures
        res == (a@ == b@),
{
    if a.len() != b.len() {
        return false;
    }
    let mut k: usize = 0;
    while k < a.len()
        invariant
            a.len() == b.len(),
            k <= a.len(),
            forall|j: int| 0 <= j < k ==> a@[j] == b@[j],
        decreases a.len() - k,
    {
        if a[k] != b[k] {
            return false;
        }
        k += 1;
    }
    assert(a@ =~= b@);
    true
}

// ------------------------------------------------------------------
// Whitespace and trimming
// ------------------------------------------------------------------

/// Unicode `White_Space`, the set that `char::is_whitespace` tests.
pub open spec fn is_ws(c: char) -> bool {
    let u = c as u32;
    ||| 0x09 <= u <= 0x0D
    ||| u == 0x20
    ||| u == 0x85
    ||| u == 0xA0
    ||| u == 0x1680
    ||| 0x2000 <= u <= 0x200A
    ||| u == 0x2028
    ||| u == 0x2029
    ||| u == 0x202F
    ||| u == 0x205F
    ||| u == 0x3000
}

pub fn char_is_ws(c: char) -> (res: bool)
    ensures
        res == is_ws(c),
{
    let u = c as u32;
    (0x09 <= u && u <= 0x0D) || u == 0x20 || u == 0x85 || u == 0xA0 || u == 0x1680 || (0x2000
        <= u && u <= 0x200A) || u == 0x2028 || u == 0x2029 || u == 0x202F || u == 0x205F || u
        == 0x3000
}

/// `s` without its leading whitespace.
pub open spec fn trim_start(s: Seq<char>) -> Seq<char>
    decreases s.len(),
{
    if s.len() > 0 && is_ws(s[0]) {
        trim_start(s.drop_first())
    } else {
        s
    }
}

/// `s` without its trailing whitespace.
pub open spec fn trim_end(s: Seq<char>) -> Seq<char>
    decreases s.len(),
{
    if s.len() > 0 && is_ws(s.last()) {
        trim_end(s.drop_last())
    } else {
        s
    }
}

/// `s` without leading and trailing whitespace (`str::trim`).
pub open spec fn trim(s: Seq<char>) -> Seq<char> {
    trim_end(trim_start(s))
}

proof fn lemma_trim_start_at(s: Seq<char>, k: int)
    requires
        0 <= k <= s.len(),
        forall|j: int| 0 <= j < k ==> is_ws(#[trigger] s[j]),
        k == s.len() || !is_ws(s[k]),
    ensures
        trim_start(s) == s.skip(k),
    decreases k,
{
    if k > 0 {
        assert forall|j: int| 0 <= j < k - 1 implies is_ws(#[trigger] s.drop_first()[j]) by {
            assert(s.drop_first()[j] == s[j + 1]);
        }
        lemma_trim_start_at(s.drop_first(), k - 1);
        assert(s.drop_first().skip(k - 1) =~= s.skip(k));
    } else {
        assert(s.skip(0) =~= s);
    }
}

proof fn lemma_trim_end_at(s: Seq<char>, k: int)
    requires
        0 <= k <= s.len(),
        forall|j: int| k <= j < s.len() ==> is_ws(#[trigger] s[j]),
        k == 0 || !is_ws(s[k - 1]),
    ensures
        trim_end(s) == s.take(k),
    decreases s.len() - k,
{
    if k < s.len() {
        assert forall|j: int| k <= j < s.drop_last().len() implies is_ws(
            #[trigger] s.drop_last()[j],
        ) by {
            assert(s.drop_last()[j] == s[j]);
        }
        lemma_trim_end_at(s.drop_last(), k);
        assert(s.drop_last().take(k) =~= s.take(k));
    } else {
        assert(s.take(k) =~= s);
    }
}

proof fn lemma_trim_start_skip(s: Seq<char>)
    ensures
        exists|k: int| 0 <= k <= s.len() && #[trigger] s.skip(k) == trim_start(s),
        trim_start(s).len() > 0 ==> !is_ws(trim_start(s)[0]),
    decreases s.len(),
{
    if s.len() > 0 && is_ws(s[0]) {
        lemma_trim_start_skip(s.drop_first());
        let k = choose|k: int| 0 <= k <= s.drop_first().len() && #[trigger] s.drop_first().skip(k)
            == trim_start(s.drop_first());
        assert(s.skip(k + 1) =~= s.drop_first().skip(k));
    } else {
        assert(s.skip(0) =~= s);
    }
}

proof fn lemma_trim_end_take(s: Seq<char>)
    ensures
        exists|k: int| 0 <= k <= s.len() && #[trigger] s.take(k) == trim_end(s),
        trim_end(s).len() > 0 ==> !is_ws(trim_end(s).last()),
    decreases s.len(),
{
    if s.len() > 0 && is_ws(s.last()) {
        lemma_trim_end_take(s.drop_last());
        let k = choose|k: int| 0 <= k <= s.drop_last().len() && #[trigger] s.drop_last().take(k)
            == trim_end(s.drop_last());
        assert(s.take(k) =~= s.drop_last().take(k));
    } else {
        assert(s.take(s.len() as int) =~= s);
    }
}

/// A trimmed text is a piece of the text that neither starts nor ends with
/// whitespace.
pub proof fn lemma_trim(s: Seq<char>)
    ensures
        exists|lo: int, hi: int| 0 <= lo <= hi <= s.len() && #[trigger] s.subrange(lo, hi) == trim(s),
        trim(s).len() > 0 ==> !is_ws(trim(s)[0]) && !is_ws(trim(s).last()),
{
    lemma_trim_start_skip(s);
    let a = trim_start(s);
    lemma_trim_end_take(a);
    let lo = choose|k: int| 0 <= k <= s.len() && #[trigger] s.skip(k) == a;
    let hi = choose|k: int| 0 <= k <= a.len() && #[trigger] a.take(k) == trim_end(a);
    assert(s.subrange(lo, lo + hi) =~= trim(s));
    if trim(s).len() > 0 {
        assert(trim(s)[0] == a[0]);
    }
}

/// No piece of `split(s, c)` holds `c`.
pub proof fn lemma_split_pieces(s: Seq<char>, c: char)
    ensures
        forall|i: int| 0 <= i < split(s, c).len() ==> !contains(#[trigger] split(s, c)[i], c),
    decreases s.len(),
{
    if s.len() > 0 {
        lemma_split_pieces(s.drop_last(), c);
        lemma_split_len(s.drop_last(), c);
        let init = split(s.drop_last(), c);
        if s.last() != c {
            let last = init.last().push(s.last());
            assert(!contains(init[init.len() - 1], c));
            assert forall|j: int| 0 <= j < last.len() implies last[j] != c by {
                if j < last.len() - 1 {
                    assert(last[j] == init[init.len() - 1][j]);
                }
            }
        }
    }
}

/// No line of `s` holds a newline.
pub proof fn lemma_lines_no_newline(s: Seq<char>)
    ensures
        forall|i: int| 0 <= i < lines(s).len() ==> !contains(#[trigger] lines(s)[i], '\n'),
{
    if s.len() > 0 {
        let p = if s.last() == '\n' { split(s.drop_last(), '\n') } else { split(s, '\n') };
        lemma_split_pieces(s.drop_last(), '\n');
        lemma_split_pieces(s, '\n');
        lemma_split_len(s, '\n');
        assert forall|i: int| 0 <= i < lines(s).len() implies !contains(#[trigger] lines(s)[i], '\n') by {
            assert(!contains(p[i], '\n'));
            let l = p[i];
            if lines(s)[i] != l {
                assert(lines(s)[i] == strip_cr(l));
                if l.len() > 0 && l.last() == '\r' {
                    assert forall|j: int| 0 <= j < l.drop_last().len() implies l.drop_last()[j] != '\n' by {
                        assert(l.drop_last()[j] == l[j]);
                    }
                }
            }
        }
    }
}

proof fn lemma_split_ascii(s: Seq<char>, c: char)
    requires
        is_ascii_text(s),
    ensures
        forall|i: int| 0 <= i < split(s, c).len() ==> is_ascii_text(#[trigger] split(s, c)[i]),
    decreases s.len(),
{
    if s.len() > 0 {
        let d = s.drop_last();
        assert forall|j: int| 0 <= j < d.len() implies (#[trigger] d[j] as u32) < 128 by {
            assert(d[j] == s[j]);
        }
        lemma_split_ascii(d, c);
        lemma_split_len(d, c);
        let init = split(d, c);
        assert(is_ascii_text(init[init.len() - 1]));
        assert((s[s.len() - 1] as u32) < 128);
        if s.last() != c {
            let last = init.last().push(s.last());
            assert forall|j: int| 0 <= j < last.len() implies (#[trigger] last[j] as u32) < 128 by {
                if j < last.len() - 1 {
                    assert(last[j] == init[init.len() - 1][j]);
                }
            }
        }
    }
}

/// Every line of an ASCII text is ASCII.
pub proof fn lemma_lines_ascii(s: Seq<char>)
    requires
        is_ascii_text(s),
    ensures
        forall|i: int| 0 <= i < lines(s).len() ==> is_ascii_text(#[trigger] lines(s)[i]),
{
    if s.len() > 0 {
        let d = s.drop_last();
        assert forall|j: int| 0 <= j < d.len() implies (#[trigger] d[j] as u32) < 128 by {
            assert(d[j] == s[j]);
        }
        let p = if s.last() == '\n' { split(d, '\n') } else { split(s, '\n') };
        lemma_split_ascii(d, '\n');
        lemma_split_ascii(s, '\n');
        lemma_split_len(s, '\n');
        assert forall|i: int| 0 <= i < lines(s).len() implies is_ascii_text(#[trigger] lines(s)[i]) by {
            let l = p[i];
            assert(is_ascii_text(l));
            if lines(s)[i] != l {
                assert(lines(s)[i] == strip_cr(l));
                assert forall|j: int| 0 <= j < l.drop_last().len() implies (#[trigger] l.drop_last()[j]
                    as u32) < 128 by {
                    assert(l.drop_last()[j] == l[j]);
                }
            }
        }
    }
}

/// `str::trim` on a character vector.
pub fn trim_chars(s: &Vec<char>) -> (res: Vec<char>)
    ensures
        res@ == trim(s@),
{
    let mut lo: usize = 0;
    while lo < s.len() && char_is_ws(s[lo])
        invariant
            lo <= s.len(),
            forall|j: int| 0 <= j < lo ==> is_ws(#[trigger] s@[j]),
        decreases s.len() - lo,
    {
        lo += 1;
    }
    proof {
        lemma_trim_start_at(s@, lo as int);
    }
    let mut hi: usize = s.len();
    while hi > lo && char_is_ws(s[hi - 1])
        invariant
            lo <= hi <= s.len(),
            forall|j: int| hi <= j < s.len() ==> is_ws(#[trigger] s@[j]),
        decreases hi,
    {
        hi -= 1;
    }
    let ghost t = s@.skip(lo as int);
    proof {
        assert forall|j: int| hi - lo <= j < t.len() implies is_ws(#[trigger] t[j]) by {
            assert(t[j] == s@[j + lo]);
        }
        if hi > lo {
            assert(t[hi - lo - 1] == s@[hi - 1]);
        }
        lemma_trim_end_at(t, hi - lo);
        assert(t.take(hi - lo) =~= s@.subrange(lo as int, hi as int));
    }
    sub_chars(s, lo, hi)
}

// ------------------------------------------------------------------
// Splitting
// ------------------------------------------------------------------

/// The pieces of `s` between occurrences of `c` (`str::split` with a `char`):
/// `n` occurrences give `n + 1` pieces, and the empty text gives one empty piece.
pub open spec fn split(s: Seq<char>, c: char) -> Seq<Seq<char>>
    decreases s.len(),
{
    if s.len() == 0 {
        seq![Seq::<char>::empty()]
    } else {
        let init = split(s.drop_last(), c);
        if s.last() == c {
            init.push(Seq::<char>::empty())
        } else {
            init.update(init.len() - 1, init.last().push(s.last()))
        }
    }
}

pub proof fn lemma_split_len(s: Seq<char>, c: char)
    ensures
        split(s, c).len() >= 1,
    decreases s.len(),
{
    if s.len() > 0 {
        lemma_split_len(s.drop_last(), c);
    }
}

/// The views of a vector of character vectors.
pub open spec fn views(v: Seq<Vec<char>>) -> Seq<Seq<char>> {
    v.map_values(|x: Vec<char>| x@)
}

/// `str::split` with a single separator character.
pub fn split_chars(s: &Vec<char>, c: char) -> (res: Vec<Vec<char>>)
    ensures
        views(res@) == split(s@, c),
{
    let mut done: Vec<Vec<char>> = Vec::new();
    let mut cur: Vec<char> = Vec::new();
    let mut k: usize = 0;
    while k < s.len()
        invariant
            k <= s.len(),
            views(done@).push(cur@) == split(s@.take(k as int), c),
        decreases s.len() - k,
    {
        let ghost before = s@.take(k as int);
        proof {
            lemma_split_len(before, c);
            assert(s@.take(k + 1).drop_last() =~= before);
        }
        if s[k] == c {
            let mut fresh: Vec<char> = Vec::new();
            std::mem::swap(&mut fresh, &mut cur);
            done.push(fresh);
            proof {
                assert(views(done@).push(cur@) =~= split(before, c).push(Seq::<char>::empty()));
            }
        } else {
            cur.push(s[k]);
            proof {
                let sp = split(before, c);
                assert(views(done@).push(cur@) =~= sp.update(sp.len() - 1, sp.last().push(s@[k as int])));
            }
        }
        k += 1;
    }
    proof {
        assert(s@.take(s.len() as int) =~= s@);
    }
    done.push(cur);
    proof {
        assert(views(done@) =~= split(s@, c));
    }
    done
}


/// `s` without one trailing carriage return.
pub open spec fn strip_cr(s: Seq<char>) -> Seq<char> {
    if s.len() > 0 && s.last() == '\r' {
        s.drop_last()
    } else {
        s
    }
}

/// The lines of `s` (`str::lines`): pieces between `'\n'`, a final line ending
/// being optional; a line that ended with `"\r\n"` loses its `'\r'`.
pub open spec fn lines(s: Seq<char>) -> Seq<Seq<char>> {
    if s.len() == 0 {
        Seq::empty()
    } else if s.last() == '\n' {
        split(s.drop_last(), '\n').map_values(|l: Seq<char>| strip_cr(l))
    } else {
        let p = split(s, '\n');
        p.take(p.len() - 1).map_values(|l: Seq<char>| strip_cr(l)).push(p.last())
    }
}

fn strip_cr_chars(v: Vec<char>) -> (res: Vec<char>)
    ensures
        res@ == strip_cr(v@),
{
    let mut v = v;
    if v.len() > 0 && v[v.len() - 1] == '\r' {
        v.pop();
    }
    v
}

/// `str::lines` on a character vector.
pub fn lines_of(s: &Vec<char>) -> (res: Vec<Vec<char>>)
    ensures
        views(res@) == lines(s@),
{
    if s.len() == 0 {
        let res: Vec<Vec<char>> = Vec::new();
        assert(views(res@) =~= lines(s@));
        return res;
    }
    let ends_nl = s[s.len() - 1] == '\n';
    let body = if ends_nl {
        sub_chars(s, 0, s.len() - 1)
    } else {
        sub_chars(s, 0, s.len())
    };
    assert(body@ == if ends_nl { s@.drop_last() } else { s@ });
    let pieces = split_chars(&body, '\n');
    let ghost p = split(body@, '\n');
    proof {
        lemma_split_len(body@, '\n');
    }
    let n = pieces.len();
    let last_kept: usize = if ends_nl { n } else { n - 1 };
    let mut res: Vec<Vec<char>> = Vec::new();
    let mut k: usize = 0;
    while k < n
        invariant
            n == pieces.len() == p.len(),
            views(pieces@) == p,
            k <= n,
            views(res@) =~= Seq::new(
                k as nat,
                |i: int| if i < last_kept { strip_cr(p[i]) } else { p[i] },
            ),
        decreases n - k,
    {
        let piece = pieces[k].clone();
        assert(piece@ == p[k as int]);
        let ghost before = res@;
        if k < last_kept {
            res.push(strip_cr_chars(piece));
        } else {
            res.push(piece);
        }
        assert(views(res@) =~= views(before).push(
            if (k as int) < last_kept { strip_cr(p[k as int]) } else { p[k as int] },
        ));
        k += 1;
    }
    proof {
        assert(views(res@) =~= lines(s@));
    }
    res
}

/// `s` begins with `p`.
pub open spec fn starts_with(s: Seq<char>, p: Seq<char>) -> bool {
    p.len() <= s.len() && s.take(p.len() as int) == p
}

/// `s` ends with `p`.
pub open spec fn ends_with(s: Seq<char>, p: Seq<char>) -> bool {
    p.len() <= s.len() && s.skip(s.len() - p.len()) == p
}

pub fn has_prefix(s: &Vec<char>, p: &str) -> (res: bool)
    ensures
        res == starts_with(s@, p@),
{
    let pv = chars_of(p);
    if pv.len() > s.len() {
        return false;
    }
    let head = sub_chars(s, 0, pv.len());
    chars_eq(&head, &pv)
}

pub fn has_suffix(s: &Vec<char>, p: &str) -> (res: bool)
    ensures
        res == ends_with(s@, p@),
{
    let pv = chars_of(p);
    if pv.len() > s.len() {
        return false;
    }
    let tail = sub_chars(s, s.len() - pv.len(), s.len());
    chars_eq(&tail, &pv)
}

/// The index of the first occurrence of `c` in `s`.
pub open spec fn find(s: Seq<char>, c: char) -> Option<int>
    decreases s.len(),
{
    if s.len() == 0 {
        None
    } else {
        match find(s.drop_last(), c) {
            Some(i) => Some(i),
            None => if s.last() == c {
                Some(s.len() - 1)
            } else {
                None
            },
        }
    }
}

/// `s` holds `c`.
pub open spec fn contains(s: Seq<char>, c: char) -> bool {
    exists|i: int| 0 <= i < s.len() && s[i] == c
}

pub proof fn lemma_find(s: Seq<char>, c: char)
    ensures
        find(s, c) matches Some(i) ==> 0 <= i < s.len() && s[i] == c && forall|j: int|
            0 <= j < i ==> s[j] != c,
        find(s, c) is None <==> !contains(s, c),
    decreases s.len(),
{
    if s.len() > 0 {
        lemma_find(s.drop_last(), c);
        if find(s.drop_last(), c) is None {
            assert forall|j: int| 0 <= j < s.len() - 1 implies s[j] != c by {
                if s[j] == c {
                    assert(s.drop_last()[j] == c);
                }
            }
        } else {
            let i = find(s.drop_last(), c)->0;
            assert(s.drop_last()[i] == s[i]);
            assert forall|j: int| 0 <= j < i implies s[j] != c by {
                assert(s.drop_last()[j] == s[j]);
            }
        }
    }
}

/// The index of the first `c` in `s` (`str::find` with a `char`).
pub fn find_char(s: &Vec<char>, c: char) -> (res: Option<usize>)
    ensures
        res matches Some(i) ==> find(s@, c) == Some(i as int) && i < s.len() && s@[i as int] == c,
        res is None ==> find(s@, c) is None,
{
    let mut k: usize = 0;
    while k < s.len()
        invariant
            k <= s.len(),
            find(s@.take(k as int), c) is None,
        decreases s.len() - k,
    {
        assert(s@.take(k + 1).drop_last() =~= s@.take(k as int));
        if s[k] == c {
            proof {
                lemma_find(s@.take(k + 1), c);
                lemma_find(s@, c);
                assert(s@.take(k + 1)[k as int] == c);
                if find(s@, c) is Some {
                    let i = find(s@, c)->0;
                    if i < k {
                        assert(s@.take(k as int)[i] == c);
                        lemma_find(s@.take(k as int), c);
                    }
                    if i > k {
                        assert(s@[k as int] == c);
                    }
                }
            }
            return Some(k);
        }
        k += 1;
    }
    assert(s@.take(s.len() as int) =~= s@);
    None
}

/// `str::split_once` with a `char`: the text before and after the first `c`.
pub open spec fn split_once(s: Seq<char>, c: char) -> Option<(Seq<char>, Seq<char>)> {
    match find(s, c) {
        Some(i) => Some((s.take(i), s.skip(i + 1))),
        None => None,
    }
}

pub fn split_once_chars(s: &Vec<char>, c: char) -> (res: Option<(Vec<char>, Vec<char>)>)
    ensures
        match res {
            Some((a, b)) => split_once(s@, c) == Some((a@, b@)),
            None => split_once(s@, c) is None,
        },
{
    match find_char(s, c) {
        Some(i) => Some((sub_chars(s, 0, i), sub_chars(s, i + 1, s.len()))),
        None => None,
    }
}

/// `s` with every `a` replaced by `b`.
pub open spec fn replace_char(s: Seq<char>, a: char, b: char) -> Seq<char> {
    s.map_values(|x: char| if x == a { b } else { x })
}

pub fn replace_char_chars(s: &Vec<char>, a: char, b: char) -> (res: Vec<char>)
    ensures
        res@ == replace_char(s@, a, b),
{
    let mut res: Vec<char> = Vec::new();
    let mut k: usize = 0;
    while k < s.len()
        invariant
            k <= s.len(),
            res@ =~= replace_char(s@.take(k as int), a, b),
        decreases s.len() - k,
    {
        if s[k] == a {
            res.push(b);
        } else {
            res.push(s[k]);
        }
        k += 1;
    }
    assert(s@.take(s.len() as int) =~= s@);
    res
}


// ------------------------------------------------------------------
// Case mapping
// ------------------------------------------------------------------

/// What `char::to_uppercase` yields for `c`: the characters of its Unicode
/// uppercase mapping.
pub uninterp spec fn upper_of(c: char) -> Seq<char>;

/// The ASCII uppercase of `c` (`char::to_ascii_uppercase`).
pub open spec fn ascii_upper(c: char) -> char {
    if 'a' <= c && c <= 'z' {
        ((c as u32) - 32) as char
    } else {
        c
    }
}

/// The characters that `char::to_uppercase` yields for `c`: for an ASCII
/// character its ASCII uppercase, as the documentation gives it; for any
/// other character the named result `upper_of(c)`.
pub open spec fn upper_char(c: char) -> Seq<char> {
    if (c as u32) < 128 {
        seq![ascii_upper(c)]
    } else {
        upper_of(c)
    }
}

/// `char::to_uppercase`, collected. Its contract names the result by
/// `upper_of`; for an ASCII character the documentation of
/// `char::to_uppercase` gives the ASCII uppercase, which is stated too.
#[verifier::external_body]
fn char_to_upper(c: char) -> (res: Vec<char>)
    ensures
        res@ == upper_of(c),
        (c as u32) < 128 ==> res@ == seq![ascii_upper(c)],
{
    c.to_uppercase().collect()
}

/// The uppercase of `s`: each character replaced by its uppercase mapping
/// (`str::to_uppercase`), which for an ASCII character is its ASCII
/// uppercase.
pub open spec fn upper(s: Seq<char>) -> Seq<char>
    decreases s.len(),
{
    if s.len() == 0 {
        Seq::empty()
    } else {
        upper(s.drop_last()) + upper_char(s.last())
    }
}

/// Every character of `s` is ASCII.
pub open spec fn is_ascii_text(s: Seq<char>) -> bool {
    forall|i: int| 0 <= i < s.len() ==> (#[trigger] s[i] as u32) < 128
}

/// The uppercase of an ASCII text is its ASCII uppercase, character by
/// character.
pub proof fn lemma_upper_ascii(s: Seq<char>)
    requires
        is_ascii_text(s),
    ensures
        upper(s) == s.map_values(|c: char| ascii_upper(c)),
    decreases s.len(),
{
    if s.len() > 0 {
        let init = s.drop_last();
        assert forall|i: int| 0 <= i < init.len() implies (#[trigger] init[i] as u32) < 128 by {
            assert(init[i] == s[i]);
        }
        lemma_upper_ascii(init);
        assert((s[s.len() - 1] as u32) < 128);
        assert(s.map_values(|c: char| ascii_upper(c)) =~= init.map_values(|c: char| ascii_upper(c))
            + seq![ascii_upper(s.last())]);
    }
}

/// The ASCII uppercase of an ASCII character is ASCII, no lowercase letter,
/// and whitespace, `*`, `,` or a newline exactly when the character is.
pub proof fn lemma_ascii_upper_char(c: char)
    requires
        (c as u32) < 128,
    ensures
        (ascii_upper(c) as u32) < 128,
        !('a' <= ascii_upper(c) && ascii_upper(c) <= 'z'),
        is_ws(ascii_upper(c)) == is_ws(c),
        (ascii_upper(c) == '*') == (c == '*'),
        (ascii_upper(c) == ',') == (c == ','),
        (ascii_upper(c) == '\n') == (c == '\n'),
{
    if 'a' <= c && c <= 'z' {
        let u = ((c as u32) - 32) as char;
        assert(65 <= (u as u32) <= 90);
    }
}

pub fn to_upper(s: &Vec<char>) -> (res: Vec<char>)
    ensures
        res@ == upper(s@),
{
    let mut res: Vec<char> = Vec::new();
    let mut k: usize = 0;
    while k < s.len()
        invariant
            k <= s.len(),
            res@ == upper(s@.take(k as int)),
        decreases s.len() - k,
    {
        let mut u = char_to_upper(s[k]);
        assert(s@.take(k + 1).drop_last() =~= s@.take(k as int));
        res.append(&mut u);
        k += 1;
    }
    assert(s@.take(s.len() as int) =~= s@);
    res
}

// ------------------------------------------------------------------
// Integer syntax (`usize::from_str`)
// ------------------------------------------------------------------

/// The ways `usize::from_str` can fail (`std::num::IntErrorKind`).
#[derive(Debug, Clone, Copy, PartialEq, Eq, Structural)]
pub enum IntErrorKind {
    Empty,
    InvalidDigit,
    PosOverflow,
}

impl IntErrorKind {
    /// The message of the corresponding `ParseIntError`.
    pub open spec fn spec_message(self) -> Seq<char> {
        match self {
            IntErrorKind::Empty => "cannot parse integer from empty string"@,
            IntErrorKind::InvalidDigit => "invalid digit found in string"@,
            IntErrorKind::PosOverflow => "number too large to fit in target type"@,
        }
    }

    pub fn message(&self) -> (res: String)
        ensures
            res@ == self.spec_message(),
    {
        match self {
            IntErrorKind::Empty => String::from_str("cannot parse integer from empty string"),
            IntErrorKind::InvalidDigit => String::from_str("invalid digit found in string"),
            IntErrorKind::PosOverflow => String::from_str(
                "number too large to fit in target type",
            ),
        }
    }
}

pub open spec fn is_digit(c: char) -> bool {
    '0' <= c && c <= '9'
}

pub open spec fn digit_value(c: char) -> int {
    (c as int) - ('0' as int)
}

/// Reads `d` left to right as decimal digits; the first character that is no
/// digit, or the first digit after which the value exceeds `usize::MAX`,
/// decides the error.
pub open spec fn scan_digits(d: Seq<char>) -> Result<usize, IntErrorKind>
    decreases d.len(),
{
    if d.len() == 0 {
        Ok(0)
    } else {
        match scan_digits(d.drop_last()) {
            Err(e) => Err(e),
            Ok(v) => if !is_digit(d.last()) {
                Err(IntErrorKind::InvalidDigit)
            } else if v * 10 + digit_value(d.last()) > usize::MAX {
                Err(IntErrorKind::PosOverflow)
            } else {
                Ok((v * 10 + digit_value(d.last())) as usize)
            },
        }
    }
}

/// `usize::from_str`: an optional `+` followed by decimal digits.
pub open spec fn parse_usize(s: Seq<char>) -> Result<usize, IntErrorKind> {
    if s.len() == 0 {
        Err(IntErrorKind::Empty)
    } else if s.len() == 1 && (s[0] == '+' || s[0] == '-') {
        Err(IntErrorKind::InvalidDigit)
    } else if s[0] == '+' {
        scan_digits(s.drop_first())
    } else {
        scan_digits(s)
    }
}

fn scan_digits_exec(s: &Vec<char>, start: usize) -> (res: Result<usize, IntErrorKind>)
    requires
        start <= s.len(),
    ensures
        res == scan_digits(s@.skip(start as int)),
{
    let ghost d = s@.skip(start as int);
    let mut v: usize = 0;
    let mut k: usize = start;
    while k < s.len()
        invariant
            start <= k <= s.len(),
            d == s@.skip(start as int),
            scan_digits(d.take(k - start)) == Ok::<usize, IntErrorKind>(v),
        decreases s.len() - k,
    {
        let c = s[k];
        assert(d.take(k - start + 1).drop_last() =~= d.take(k - start));
        assert(d.take(k - start + 1).last() == c);
        if !('0' <= c && c <= '9') {
            proof {
                lemma_scan_err_extends(d, (k - start + 1) as int);
            }
            return Err(IntErrorKind::InvalidDigit);
        }
        let dv = (c as u32 - '0' as u32) as usize;
        if v > (usize::MAX - dv) / 10 {
            proof {
                assert(v * 10 + dv > usize::MAX) by (nonlinear_arith)
                    requires
                        v > (usize::MAX - dv) / 10,
                        dv <= 9,
                ;
                lemma_scan_err_extends(d, (k - start + 1) as int);
            }
            return Err(IntErrorKind::PosOverflow);
        }
        assert(v * 10 + dv <= usize::MAX) by (nonlinear_arith)
            requires
                v <= (usize::MAX - dv) / 10,
                dv <= 9,
        ;
        v = v * 10 + dv;
        k += 1;
    }
    assert(d.take(k - start) =~= d);
    Ok(v)
}

proof fn lemma_scan_err_extends(d: Seq<char>, n: int)
    requires
        0 <= n <= d.len(),
        scan_digits(d.take(n)) is Err,
    ensures
        scan_digits(d) == scan_digits(d.take(n)),
    decreases d.len() - n,
{
    if n < d.len() {
        assert(d.take(n + 1).drop_last() =~= d.take(n));
        lemma_scan_err_extends(d, n + 1);
    } else {
        assert(d.take(n) =~= d);
    }
}

/// `str::parse::<usize>` on a character vector.
pub fn parse_usize_chars(s: &Vec<char>) -> (res: Result<usize, IntErrorKind>)
    ensures
        res == parse_usize(s@),
{
    if s.len() == 0 {
        return Err(IntErrorKind::Empty);
    }
    if s.len() == 1 && (s[0] == '+' || s[0] == '-') {
        return Err(IntErrorKind::InvalidDigit);
    }
    if s[0] == '+' {
        assert(s@.skip(1) =~= s@.drop_first());
        scan_digits_exec(s, 1)
    } else {
        assert(s@.skip(0) =~= s@);
        scan_digits_exec(s, 0)
    }
}

// ------------------------------------------------------------------
// Float syntax (`f64::from_str`)
// ------------------------------------------------------------------

pub open spec fn ascii_lower(c: char) -> char {
    if 'A' <= c && c <= 'Z' {
        ((c as u32) + 32) as char
    } else {
        c
    }
}

/// `s` equals the lowercase ASCII word `w`, ignoring ASCII case.
pub open spec fn eq_ignore_case(s: Seq<char>, w: Seq<char>) -> bool {
    s.len() == w.len() && forall|i: int| 0 <= i < s.len() ==> ascii_lower(s[i]) == #[trigger] w[i]
}

/// Digits with at most one `.`, and at least one digit.
pub open spec fn is_mantissa(m: Seq<char>) -> bool {
    &&& forall|i: int| 0 <= i < m.len() ==> (is_digit(#[trigger] m[i]) || m[i] == '.')
    &&& forall|i: int, j: int| 0 <= i < j < m.len() && m[i] == '.' ==> m[j] != '.'
    &&& exists|i: int| 0 <= i < m.len() && is_digit(#[trigger] m[i])
}

/// `e` or `E`, an optional sign, then one digit or more.
pub open spec fn is_exponent(x: Seq<char>) -> bool {
    &&& x.len() >= 2
    &&& (x[0] == 'e' || x[0] == 'E')
    &&& exp_digits(x).len() >= 1
    &&& forall|i: int| 0 <= i < exp_digits(x).len() ==> is_digit(#[trigger] exp_digits(x)[i])
}

/// What follows the exponent mark and its optional sign.
pub open spec fn exp_digits(x: Seq<char>) -> Seq<char> {
    if x[1] == '+' || x[1] == '-' {
        x.skip(2)
    } else {
        x.skip(1)
    }
}

pub open spec fn is_exp_mark(c: char) -> bool {
    c == 'e' || c == 'E'
}

/// The index of the first `e` or `E` in `b`, or its length.
pub open spec fn exp_pos(b: Seq<char>) -> int
    decreases b.len(),
{
    if b.len() == 0 {
        0
    } else {
        let p = exp_pos(b.drop_last());
        if p < b.len() - 1 {
            p
        } else if is_exp_mark(b.last()) {
            b.len() - 1
        } else {
            b.len() as int
        }
    }
}

proof fn lemma_exp_pos_bounds(b: Seq<char>)
    ensures
        0 <= exp_pos(b) <= b.len(),
        exp_pos(b) < b.len() ==> is_exp_mark(b[exp_pos(b)]),
        forall|j: int| 0 <= j < exp_pos(b) ==> !is_exp_mark(#[trigger] b[j]),
    decreases b.len(),
{
    if b.len() > 0 {
        lemma_exp_pos_bounds(b.drop_last());
        assert forall|j: int| 0 <= j < exp_pos(b) implies !is_exp_mark(#[trigger] b[j]) by {
            if j < b.len() - 1 {
                assert(b.drop_last()[j] == b[j]);
            }
        }
        if exp_pos(b.drop_last()) < b.len() - 1 {
            assert(b.drop_last()[exp_pos(b.drop_last())] == b[exp_pos(b.drop_last())]);
        }
    }
}

proof fn lemma_exp_pos_prefix(b: Seq<char>, n: int)
    requires
        0 <= n <= b.len(),
        exp_pos(b.take(n)) < n,
    ensures
        exp_pos(b) == exp_pos(b.take(n)),
    decreases b.len() - n,
{
    if n < b.len() {
        lemma_exp_pos_bounds(b.take(n + 1));
        assert(b.take(n + 1).drop_last() =~= b.take(n));
        lemma_exp_pos_prefix(b, n + 1);
    } else {
        assert(b.take(n) =~= b);
    }
}

/// A decimal number: mantissa, then an optional exponent.
pub open spec fn is_number(b: Seq<char>) -> bool {
    is_mantissa(b.take(exp_pos(b))) && (exp_pos(b) == b.len() || is_exponent(b.skip(exp_pos(b))))
}

/// The grammar that `f64::from_str` documents:
/// `Sign? ( 'inf' | 'infinity' | 'nan' | Number )`, case-insensitive.
pub open spec fn is_float_literal(s: Seq<char>) -> bool {
    let b = if s.len() > 0 && (s[0] == '+' || s[0] == '-') { s.drop_first() } else { s };
    ||| eq_ignore_case(b, "inf"@)
    ||| eq_ignore_case(b, "infinity"@)
    ||| eq_ignore_case(b, "nan"@)
    ||| is_number(b)
}

/// The message of the `ParseFloatError` that `f64::from_str` gives `s`.
pub open spec fn float_error_message(s: Seq<char>) -> Seq<char> {
    if s.len() == 0 {
        "cannot parse float from empty string"@
    } else {
        "invalid float literal"@
    }
}


pub fn eq_ignore_case_exec(s: &Vec<char>, w: &str) -> (res: bool)
    ensures
        res == eq_ignore_case(s@, w@),
{
    let wv = chars_of(w);
    if s.len() != wv.len() {
        return false;
    }
    let mut k: usize = 0;
    while k < s.len()
        invariant
            s.len() == wv.len(),
            wv@ == w@,
            k <= s.len(),
            forall|i: int| 0 <= i < k ==> ascii_lower(s@[i]) == #[trigger] wv@[i],
        decreases s.len() - k,
    {
        let c = s[k];
        let l = if 'A' <= c && c <= 'Z' {
            (((c as u32) + 32) as u8) as char
        } else {
            c
        };
        if l != wv[k] {
            return false;
        }
        k += 1;
    }
    true
}

fn is_mantissa_exec(m: &Vec<char>) -> (res: bool)
    ensures
        res == is_mantissa(m@),
{
    let mut dot = false;
    let mut digit = false;
    let mut k: usize = 0;
    while k < m.len()
        invariant
            k <= m.len(),
            forall|i: int| 0 <= i < k ==> (is_digit(#[trigger] m@[i]) || m@[i] == '.'),
            forall|i: int, j: int| 0 <= i < j < k && m@[i] == '.' ==> m@[j] != '.',
            dot <==> exists|i: int| 0 <= i < k && m@[i] == '.',
            digit <==> exists|i: int| 0 <= i < k && is_digit(#[trigger] m@[i]),
        decreases m.len() - k,
    {
        let c = m[k];
        if c == '.' {
            if dot {
                return false;
            }
            dot = true;
        } else if '0' <= c && c <= '9' {
            digit = true;
        } else {
            return false;
        }
        k += 1;
    }
    digit
}

fn is_exponent_exec(x: &Vec<char>) -> (res: bool)
    ensures
        res == is_exponent(x@),
{
    if x.len() < 2 || !(x[0] == 'e' || x[0] == 'E') {
        return false;
    }
    let start: usize = if x[1] == '+' || x[1] == '-' { 2 } else { 1 };
    if start >= x.len() {
        return false;
    }
    let mut k = start;
    assert(exp_digits(x@) == x@.skip(start as int));
    while k < x.len()
        invariant
            start <= k <= x.len(),
            exp_digits(x@) == x@.skip(start as int),
            forall|i: int| start <= i < k ==> is_digit(#[trigger] x@[i]),
        decreases x.len() - k,
    {
        if !('0' <= x[k] && x[k] <= '9') {
            assert(exp_digits(x@)[k - start] == x@[k as int]);
            return false;
        }
        k += 1;
    }
    assert(exp_digits(x@) == x@.skip(start as int));
    assert forall|i: int| 0 <= i < exp_digits(x@).len() implies is_digit(
        #[trigger] exp_digits(x@)[i],
    ) by {
        assert(x@.skip(start as int)[i] == x@[i + start]);
    }
    true
}

/// Whether `f64::from_str` accepts `s`.
pub fn is_float_literal_chars(s: &Vec<char>) -> (res: bool)
    ensures
        res == is_float_literal(s@),
{
    let start: usize = if s.len() > 0 && (s[0] == '+' || s[0] == '-') { 1 } else { 0 };
    let b = sub_chars(s, start, s.len());
    assert(b@ == if s@.len() > 0 && (s@[0] == '+' || s@[0] == '-') { s@.drop_first() } else { s@ });
    if eq_ignore_case_exec(&b, "inf") || eq_ignore_case_exec(&b, "infinity") || eq_ignore_case_exec(
        &b,
        "nan",
    ) {
        return true;
    }
    let mut e: usize = 0;
    while e < b.len() && !(b[e] == 'e' || b[e] == 'E')
        invariant
            e <= b.len(),
            exp_pos(b@.take(e as int)) == e,
        decreases b.len() - e,
    {
        assert(b@.take(e + 1).drop_last() =~= b@.take(e as int));
        e += 1;
    }
    proof {
        if e < b.len() {
            assert(b@.take(e + 1).drop_last() =~= b@.take(e as int));
            lemma_exp_pos_prefix(b@, e + 1);
        } else {
            assert(b@.take(e as int) =~= b@);
        }
    }
    let m = sub_chars(&b, 0, e);
    if !is_mantissa_exec(&m) {
        return false;
    }
    if e == b.len() {
        return true;
    }
    let x = sub_chars(&b, e, b.len());
    is_exponent_exec(&x)
}

/// Every trimmed comma-separated piece of `line` is a number (`usize`).
pub open spec fn all_numbers(line: Seq<char>) -> bool {
    forall|i: int| 0 <= i < split(line, ',').len() ==> parse_usize(trim(#[trigger] split(line, ',')[i])) is Ok
}

/// The `i`-th number of a data line.
pub open spec fn number_at(line: Seq<char>, i: int) -> usize {
    parse_usize(trim(split(line, ',')[i]))->Ok_0
}

} // verus!
