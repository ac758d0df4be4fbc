//! Verified character-level text utilities.
//!
//! All parsing in this crate works over `Vec<char>` / `&[char]` values whose
//! mathematical model is `Seq<char>`; strings cross into and out of this
//! representation through [`str_to_chars`] and [`chars_to_string`].
use vstd::prelude::*;

verus! {

broadcast use vstd::string::axiom_spec_iter;

/// ASCII whitespace, the only whitespace this crate's trimming recognizes.
pub open spec fn is_space(c: char) -> bool {
    c == ' ' || c == '\t' || c == '\r' || c == '\n'
}

pub fn is_space_char(c: char) -> (r: bool)
    ensures
        r == is_space(c),
{
    c == ' ' || c == '\t' || c == '\r' || c == '\n'
}

/// Collects the characters of a string slice.
pub fn str_to_chars(s: &str) -> (r: Vec<char>)
    ensures
        r@ == s@,
{
    let mut r: Vec<char> = Vec::new();
    for c in it: s.chars()
        invariant
            it.seq() == s@,
            r@ == it.seq().subrange(0, it.index()),
    {
        r.push(c);
        assert(r@ =~= it.seq().subrange(0, it.index() + 1));
    }
    assert(r@ =~= s@);
    r
}

/// Relies on `String::push`: appends exactly one character to the string.
#[verifier::external_body]
fn push_char(s: &mut String, c: char)
    ensures
        final(s)@ == old(s)@.push(c),
{
    s.push(c);
}

/// Builds a `String` from a character slice.
pub fn chars_to_string(v: &[char]) -> (r: String)
    ensures
        r@ == v@,
{
    let mut r = String::new();
    let n = v.len();
    for i in 0..n
        invariant
            n == v@.len(),
            r@ == v@.subrange(0, i as int),
    {
        push_char(&mut r, v[i]);
        assert(r@ =~= v@.subrange(0, i + 1));
    }
    assert(r@ =~= v@);
    r
}

/// Character-for-character equality of two slices.
pub fn eq_chars(a: &[char], b: &[char]) -> (r: bool)
    ensures
        r == (a@ == b@),
{
    if a.len() != b.len() {
        assert(a@ != b@) by {
            assert(a@.len() != b@.len());
        }
        return false;
    }
    let n = a.len();
    for i in 0..n
        invariant
            n == a@.len() && n == b@.len(),
            forall|j: int| 0 <= j < i ==> a@[j] == b@[j],
    {
        if a[i] != b[i] {
            return false;
        }
    }
    assert(a@ =~= b@);
    true
}

/// Equality of a character slice against a string slice's characters.
pub fn chars_eq_str(v: &[char], s: &str) -> (r: bool)
    ensures
        r == (v@ == s@),
{
    let sc = str_to_chars(s);
    eq_chars(v, sc.as_slice())
}

/// Lower-casing of one character, ASCII letters only.
pub open spec fn lower_char(c: char) -> char {
    if 'A' <= c && c <= 'Z' {
        (((c as u32) + 32) as u8) as char
    } else {
        c
    }
}

/// Upper-casing of one character, ASCII letters only.
pub open spec fn upper_char(c: char) -> char {
    if 'a' <= c && c <= 'z' {
        (((c as u32) - 32) as u8) as char
    } else {
        c
    }
}

pub open spec fn lower_seq(s: Seq<char>) -> Seq<char> {
    s.map_values(|c: char| lower_char(c))
}

pub open spec fn upper_seq(s: Seq<char>) -> Seq<char> {
    s.map_values(|c: char| upper_char(c))
}

fn lower_char_exec(c: char) -> (r: char)
    ensures
        r == lower_char(c),
{
    if 'A' <= c && c <= 'Z' {
        (((c as u32) + 32) as u8) as char
    } else {
        c
    }
}

fn upper_char_exec(c: char) -> (r: char)
    ensures
        r == upper_char(c),
{
    if 'a' <= c && c <= 'z' {
        (((c as u32) - 32) as u8) as char
    } else {
        c
    }
}

/// ASCII lower-casing of a whole slice.
pub fn to_lower(v: &[char]) -> (r: Vec<char>)
    ensures
        r@ == lower_seq(v@),
{
    let mut r: Vec<char> = Vec::new();
    let n = v.len();
    for i in 0..n
        invariant
            n == v@.len(),
            r@ == lower_seq(v@.subrange(0, i as int)),
    {
        r.push(lower_char_exec(v[i]));
        assert(r@ =~= lower_seq(v@.subrange(0, i + 1))) by {
            assert(v@.subrange(0, i + 1) =~= v@.subrange(0, i as int).push(v@[i as int]));
        }
    }
    assert(v@.subrange(0, n as int) =~= v@);
    r
}

/// ASCII upper-casing of a whole slice.
pub fn to_upper(v: &[char]) -> (r: Vec<char>)
    ensures
        r@ == upper_seq(v@),
{
    let mut r: Vec<char> = Vec::new();
    let n = v.len();
    for i in 0..n
        invariant
            n == v@.len(),
            r@ == upper_seq(v@.subrange(0, i as int)),
    {
        r.push(upper_char_exec(v[i]));
        assert(r@ =~= upper_seq(v@.subrange(0, i + 1))) by {
            assert(v@.subrange(0, i + 1) =~= v@.subrange(0, i as int).push(v@[i as int]));
        }
    }
    assert(v@.subrange(0, n as int) =~= v@);
    r
}

/// Case-insensitive (ASCII) equality.
pub fn eq_ignore_case(a: &[char], b: &[char]) -> (r: bool)
    ensures
        r == (lower_seq(a@) == lower_seq(b@)),
{
    let la = to_lower(a);
    let lb = to_lower(b);
    eq_chars(la.as_slice(), lb.as_slice())
}

/// Whether `p` is a prefix of `v`.
pub fn starts_with(v: &[char], p: &[char]) -> (r: bool)
    ensures
        r == p@.is_prefix_of(v@),
{
    if p.len() > v.len() {
        return false;
    }
    let n = p.len();
    for i in 0..n
        invariant
            n == p@.len(),
            n <= v@.len(),
            forall|j: int| 0 <= j < i ==> v@[j] == p@[j],
    {
        if v[i] != p[i] {
            assert(!p@.is_prefix_of(v@)) by {
                assert(v@.subrange(0, n as int)[i as int] == v@[i as int]);
            }
            return false;
        }
    }
    assert(p@ =~= v@.subrange(0, n as int));
    true
}

/// Whether `p` is a suffix of `v`.
pub fn ends_with(v: &[char], p: &[char]) -> (r: bool)
    ensures
        r == p@.is_suffix_of(v@),
{
    if p.len() > v.len() {
        return false;
    }
    let vlen = v.len();
    let start = vlen - p.len();
    let n = p.len();
    for i in 0..n
        invariant
            n == p@.len(),
            vlen == v@.len(),
            start + n == vlen,
            forall|j: int| 0 <= j < i ==> v@[start + j] == p@[j],
    {
        if v[start + i] != p[i] {
            assert(!p@.is_suffix_of(v@)) by {
                assert(v@.subrange(start as int, v@.len() as int)[i as int] == v@[start + i]);
            }
            return false;
        }
    }
    assert(p@ =~= v@.subrange(start as int, v@.len() as int));
    true
}

/// What remains of `s` after leading ASCII whitespace is dropped.
pub open spec fn trim_start_spec(s: Seq<char>) -> Seq<char>
    decreases s.len(),
{
    if s.len() == 0 {
        s
    } else if is_space(s[0]) {
        trim_start_spec(s.drop_first())
    } else {
        s
    }
}

/// What remains of `s` after trailing ASCII whitespace is dropped.
pub open spec fn trim_end_spec(s: Seq<char>) -> Seq<char>
    decreases s.len(),
{
    if s.len() == 0 {
        s
    } else if is_space(s.last()) {
        trim_end_spec(s.drop_last())
    } else {
        s
    }
}

/// `s` with ASCII whitespace dropped from both ends.
pub open spec fn trim_spec(s: Seq<char>) -> Seq<char> {
    trim_end_spec(trim_start_spec(s))
}

/// Trims ASCII whitespace from both ends of a character slice.
pub fn trim(v: &[char]) -> (r: Vec<char>)
    ensures
        r@ == trim_spec(v@),
{
    let mut lo: usize = 0;
    let mut hi: usize = v.len();
    assert(v@.subrange(0, v@.len() as int) =~= v@);
    while lo < hi && is_space_char(v[lo])
        invariant
            0 <= lo <= hi <= v@.len(),
            hi == v@.len(),
            trim_start_spec(v@) == trim_start_spec(v@.subrange(lo as int, hi as int)),
        decreases hi - lo,
    {
        proof {
            let cur = v@.subrange(lo as int, hi as int);
            assert(cur.drop_first() =~= v@.subrange(lo + 1, hi as int));
        }
        lo = lo + 1;
    }
    proof {
        let cur = v@.subrange(lo as int, hi as int);
        assert(trim_start_spec(cur) == cur);
    }
    while lo < hi && is_space_char(v[hi - 1])
        invariant
            0 <= lo <= hi <= v@.len(),
            trim_spec(v@) == trim_end_spec(v@.subrange(lo as int, hi as int)),
        decreases hi,
    {
        proof {
            let cur = v@.subrange(lo as int, hi as int);
            assert(cur.drop_last() =~= v@.subrange(lo as int, hi - 1));
        }
        hi = hi - 1;
    }
    proof {
        let cur = v@.subrange(lo as int, hi as int);
        assert(trim_end_spec(cur) == cur);
    }
    let mut r: Vec<char> = Vec::new();
    let mut i: usize = lo;
    while i < hi
        invariant
            lo <= i <= hi <= v@.len(),
            r@ == v@.subrange(lo as int, i as int),
        decreases hi - i,
    {
        r.push(v[i]);
        assert(r@ =~= v@.subrange(lo as int, i + 1));
        i = i + 1;
    }
    r
}

} // verus!

verus! {

/// Copy of `v[lo..hi]` as a fresh vector.
pub fn sub_vec(v: &[char], lo: usize, hi: usize) -> (r: Vec<char>)
    requires
        lo <= hi <= v@.len(),
    ensures
        r@ == v@.subrange(lo as int, hi as int),
{
    let mut r: Vec<char> = Vec::new();
    let mut i: usize = lo;
    while i < hi
        invariant
            lo <= i <= hi <= v@.len(),
            r@ == v@.subrange(lo as int, i as int),
        decreases hi - i,
    {
        r.push(v[i]);
        assert(r@ =~= v@.subrange(lo as int, i + 1));
        i = i + 1;
    }
    r
}

/// The pattern `pat` occurs in `s` starting at index `i`.
pub open spec fn occurs_at(s: Seq<char>, pat: Seq<char>, i: int) -> bool {
    0 <= i && i + pat.len() <= s.len() && s.subrange(i, i + pat.len()) == pat
}

/// The pattern `pat` occurs somewhere in `s`.
pub open spec fn contains_sub(s: Seq<char>, pat: Seq<char>) -> bool {
    exists|i: int| occurs_at(s, pat, i)
}

fn match_at(v: &[char], pat: &[char], i: usize) -> (r: bool)
    requires
        i + pat@.len() <= v@.len(),
    ensures
        r == occurs_at(v@, pat@, i as int),
{
    let m = pat.len();
    let n = v.len();
    for k in 0..m
        invariant
            m == pat@.len(),
            n == v@.len(),
            i + m <= n,
            forall|j: int| 0 <= j < k ==> v@[i + j] == pat@[j],
    {
        if v[i + k] != pat[k] {
            assert(!occurs_at(v@, pat@, i as int)) by {
                assert(v@.subrange(i as int, i + m)[k as int] == v@[i + k]);
            }
            return false;
        }
    }
    assert(v@.subrange(i as int, i + m) =~= pat@);
    true
}

/// Index of the first occurrence of `pat` in `v`, if any.
pub fn find_sub(v: &[char], pat: &[char]) -> (r: Option<usize>)
    ensures
        match r {
            Some(i) => occurs_at(v@, pat@, i as int) && forall|j: int|
                0 <= j < i ==> !occurs_at(v@, pat@, j),
            None => !contains_sub(v@, pat@),
        },
{
    let m = pat.len();
    let n = v.len();
    if m > n {
        assert(!contains_sub(v@, pat@));
        return None;
    }
    if m == 0 {
        assert(v@.subrange(0, 0) =~= pat@);
        return Some(0);
    }
    let mut i: usize = 0;
    while i <= n - m
        invariant
            1 <= m <= n,
            n == v@.len(),
            m == pat@.len(),
            i <= n - m + 1,
            forall|j: int| 0 <= j < i ==> !occurs_at(v@, pat@, j),
        decreases n - m - i + 1,
    {
        if match_at(v, pat, i) {
            return Some(i);
        }
        i = i + 1;
    }
    assert(forall|j: int| occurs_at(v@, pat@, j) ==> j <= n - m);
    None
}

/// Whether `pat` occurs in `v`.
pub fn contains_chars(v: &[char], pat: &[char]) -> (r: bool)
    ensures
        r == contains_sub(v@, pat@),
{
    find_sub(v, pat).is_some()
}


} // verus!

verus! {

/// Index of the first occurrence of `c` in `s`, or `-1` when absent.
pub open spec fn find_char_spec(s: Seq<char>, c: char) -> int
    decreases s.len(),
{
    if s.len() == 0 {
        -1
    } else if s[0] == c {
        0
    } else {
        let r = find_char_spec(s.drop_first(), c);
        if r < 0 {
            -1
        } else {
            r + 1
        }
    }
}

pub proof fn lemma_find_char(s: Seq<char>, c: char)
    ensures
        find_char_spec(s, c) >= -1,
        find_char_spec(s, c) == -1 ==> forall|j: int| 0 <= j < s.len() ==> s[j] != c,
        find_char_spec(s, c) >= 0 ==> {
            &&& find_char_spec(s, c) < s.len()
            &&& s[find_char_spec(s, c)] == c
            &&& forall|j: int| 0 <= j < find_char_spec(s, c) ==> s[j] != c
        },
    decreases s.len(),
{
    if s.len() > 0 && s[0] != c {
        lemma_find_char(s.drop_first(), c);
        assert(forall|j: int| 1 <= j < s.len() ==> s[j] == s.drop_first()[j - 1]);
    }
}

/// Index of the first occurrence of `c` at or after `from`, if any.
pub fn find_char_from(v: &[char], from: usize, c: char) -> (r: Option<usize>)
    requires
        from <= v@.len(),
    ensures
        match r {
            Some(j) => from <= j < v@.len() && v@[j as int] == c && forall|k: int|
                from <= k < j ==> v@[k] != c,
            None => forall|k: int| from <= k < v@.len() ==> v@[k] != c,
        },
{
    let n = v.len();
    let mut j = from;
    while j < n
        invariant
            from <= j <= n,
            n == v@.len(),
            forall|k: int| from <= k < j ==> v@[k] != c,
        decreases n - j,
    {
        if v[j] == c {
            return Some(j);
        }
        j = j + 1;
    }
    None
}

/// A line with one trailing carriage return removed, as `str::lines` does.
pub open spec fn chop_cr(s: Seq<char>) -> Seq<char> {
    if s.len() > 0 && s.last() == '\r' {
        s.drop_last()
    } else {
        s
    }
}

/// The lines of `s`: split on newline, each with a trailing carriage return
/// removed, with no empty final line for text ending in a newline.
pub open spec fn split_lines_spec(s: Seq<char>) -> Seq<Seq<char>>
    decreases s.len(),
{
    if s.len() == 0 {
        Seq::empty()
    } else {
        let i = find_char_spec(s, '\n');
        if 0 <= i < s.len() {
            seq![chop_cr(s.subrange(0, i))] + split_lines_spec(
                s.subrange(i + 1, s.len() as int),
            )
        } else {
            seq![chop_cr(s)]
        }
    }
}

fn chop_cr_vec(mut line: Vec<char>) -> (r: Vec<char>)
    ensures
        r@ == chop_cr(line@),
{
    if line.len() > 0 && line[line.len() - 1] == '\r' {
        line.pop();
    }
    line
}

/// Splits text into lines as `str::lines` does.
pub fn split_lines(v: &[char]) -> (r: Vec<Vec<char>>)
    ensures
        r.deep_view() == split_lines_spec(v@),
{
    let mut r: Vec<Vec<char>> = Vec::new();
    let n = v.len();
    let mut pos: usize = 0;
    assert(v@.subrange(0, n as int) =~= v@);
    while pos < n
        invariant
            pos <= n,
            n == v@.len(),
            split_lines_spec(v@) == r.deep_view() + split_lines_spec(
                v@.subrange(pos as int, n as int),
            ),
        decreases n - pos,
    {
        let ghost rest = v@.subrange(pos as int, n as int);
        let line_end: usize;
        let next_pos: usize;
        match find_char_from(v, pos, '\n') {
            Some(j) => {
                line_end = j;
                next_pos = j + 1;
                proof {
                    lemma_find_char(rest, '\n');
                    assert(rest[j - pos] == '\n');
                    assert(forall|k: int| 0 <= k < j - pos ==> rest[k] == v@[pos + k] && rest[k]
                        != '\n');
                    assert(find_char_spec(rest, '\n') == j - pos) by {
                        let f = find_char_spec(rest, '\n');
                        if f < j - pos {
                            assert(rest[f] == '\n');
                        }
                        if f > j - pos {
                            assert(rest[j - pos] != '\n');
                        }
                        if f == -1 {
                            assert(rest[j - pos] != '\n');
                        }
                    }
                    assert(rest.subrange(0, j - pos) =~= v@.subrange(pos as int, j as int));
                    assert(rest.subrange(j - pos + 1, rest.len() as int) =~= v@.subrange(
                        j + 1,
                        n as int,
                    ));
                }
            },
            None => {
                line_end = n;
                next_pos = n;
                proof {
                    lemma_find_char(rest, '\n');
                    let f = find_char_spec(rest, '\n');
                    if f >= 0 {
                        assert(rest[f] == v@[pos + f]);
                    }
                    assert(f == -1);
                    assert(rest.subrange(0, rest.len() as int) =~= rest);
                    assert(v@.subrange(pos as int, line_end as int) =~= rest);
                }
            },
        }
        let line = chop_cr_vec(sub_vec(v, pos, line_end));
        r.push(line);
        proof {
            assert(r.deep_view() =~~= r.deep_view().subrange(0, r.deep_view().len() - 1) + seq![
                chop_cr(v@.subrange(pos as int, line_end as int)),
            ]);
            assert(split_lines_spec(v@) =~~= r.deep_view() + split_lines_spec(
                v@.subrange(next_pos as int, n as int),
            ));
        }
        pos = next_pos;
    }
    assert(split_lines_spec(v@.subrange(n as int, n as int)) =~= Seq::<Seq<char>>::empty());
    assert(r.deep_view() =~~= split_lines_spec(v@));
    r
}

} // verus!

verus! {

/// Appends all of `src` to `dst`.
pub fn append_slice(dst: &mut Vec<char>, src: &[char])
    ensures
        final(dst)@ == old(dst)@ + src@,
{
    let n = src.len();
    for i in 0..n
        invariant
            n == src@.len(),
            dst@ == old(dst)@ + src@.subrange(0, i as int),
    {
        dst.push(src[i]);
        assert(dst@ =~= old(dst)@ + src@.subrange(0, i + 1));
    }
    assert(dst@ =~= old(dst)@ + src@);
}

/// Appends the characters of a string slice to `dst`.
pub fn append_str(dst: &mut Vec<char>, s: &str)
    ensures
        final(dst)@ == old(dst)@ + s@,
{
    let chars = str_to_chars(s);
    append_slice(dst, chars.as_slice());
}

/// Index of the first ASCII whitespace character, or `s.len()` when none.
pub open spec fn first_space_idx(s: Seq<char>) -> int
    decreases s.len(),
{
    if s.len() == 0 {
        0
    } else if is_space(s[0]) {
        0
    } else {
        1 + first_space_idx(s.drop_first())
    }
}

pub proof fn lemma_first_space(s: Seq<char>)
    ensures
        0 <= first_space_idx(s) <= s.len(),
        forall|j: int| 0 <= j < first_space_idx(s) ==> !is_space(s[j]),
        first_space_idx(s) < s.len() ==> is_space(s[first_space_idx(s)]),
    decreases s.len(),
{
    if s.len() > 0 && !is_space(s[0]) {
        lemma_first_space(s.drop_first());
        assert(forall|j: int| 1 <= j < s.len() ==> s[j] == s.drop_first()[j - 1]);
    }
}

/// The whitespace-separated tokens of `s`, as `str::split_whitespace` yields
/// them for ASCII whitespace.
pub open spec fn split_ws_spec(s: Seq<char>) -> Seq<Seq<char>>
    decreases s.len(),
{
    if s.len() == 0 {
        Seq::empty()
    } else if is_space(s[0]) {
        split_ws_spec(s.drop_first())
    } else {
        let i = first_space_idx(s);
        if 1 <= i <= s.len() {
            seq![s.subrange(0, i)] + split_ws_spec(s.subrange(i, s.len() as int))
        } else {
            seq![s]
        }
    }
}

/// Splits a character slice into its ASCII-whitespace-separated tokens.
pub fn split_ws(v: &[char]) -> (r: Vec<Vec<char>>)
    ensures
        r.deep_view() == split_ws_spec(v@),
{
    let mut r: Vec<Vec<char>> = Vec::new();
    let n = v.len();
    let mut pos: usize = 0;
    assert(v@.subrange(0, n as int) =~= v@);
    while pos < n
        invariant
            pos <= n,
            n == v@.len(),
            split_ws_spec(v@) == r.deep_view() + split_ws_spec(v@.subrange(pos as int, n as int)),
        decreases n - pos,
    {
        let ghost rest = v@.subrange(pos as int, n as int);
        if is_space_char(v[pos]) {
            proof {
                assert(rest.drop_first() =~= v@.subrange(pos + 1, n as int));
            }
            pos = pos + 1;
        } else {
            let mut j = pos + 1;
            while j < n && !is_space_char(v[j])
                invariant
                    pos < j <= n,
                    n == v@.len(),
                    forall|k: int| pos <= k < j ==> !is_space(v@[k]),
                decreases n - j,
            {
                j = j + 1;
            }
            proof {
                lemma_first_space(rest);
                let f = first_space_idx(rest);
                assert(forall|k: int| 0 <= k < j - pos ==> rest[k] == v@[pos + k]);
                if f < j - pos {
                    assert(is_space(rest[f]));
                }
                if f > j - pos {
                    assert(j < n) by {
                        if j == n {
                            assert(f <= rest.len());
                        }
                    }
                    assert(rest[j - pos] == v@[j as int]);
                    assert(!is_space(rest[j - pos]));
                    assert(is_space(v@[j as int]));
                }
                assert(f == j - pos);
                assert(rest.subrange(0, f) =~= v@.subrange(pos as int, j as int));
                assert(rest.subrange(f, rest.len() as int) =~= v@.subrange(j as int, n as int));
            }
            let token = sub_vec(v, pos, j);
            r.push(token);
            proof {
                assert(r.deep_view() =~~= r.deep_view().subrange(0, r.deep_view().len() - 1)
                    + seq![v@.subrange(pos as int, j as int)]);
                assert(split_ws_spec(v@) =~~= r.deep_view() + split_ws_spec(
                    v@.subrange(j as int, n as int),
                ));
            }
            pos = j;
        }
    }
    assert(split_ws_spec(v@.subrange(n as int, n as int)) =~= Seq::<Seq<char>>::empty());
    assert(r.deep_view() =~~= split_ws_spec(v@));
    r
}

/// A decimal digit.
pub open spec fn is_digit(c: char) -> bool {
    '0' <= c && c <= '9'
}

pub open spec fn digit_val(c: char) -> int {
    c as int - 48
}

/// A non-empty, all-digit character sequence.
pub open spec fn is_dec_seq(s: Seq<char>) -> bool {
    s.len() > 0 && forall|i: int| 0 <= i < s.len() ==> is_digit(s[i])
}

/// Numeric value of a digit sequence.
pub open spec fn dec_val(s: Seq<char>) -> int
    decreases s.len(),
{
    if s.len() == 0 {
        0
    } else {
        dec_val(s.drop_last()) * 10 + digit_val(s.last())
    }
}

pub proof fn lemma_dec_val_nonneg(s: Seq<char>)
    requires
        forall|i: int| 0 <= i < s.len() ==> is_digit(s[i]),
    ensures
        dec_val(s) >= 0,
    decreases s.len(),
{
    if s.len() > 0 {
        lemma_dec_val_nonneg(s.drop_last());
    }
}

pub proof fn lemma_dec_val_prefix(s: Seq<char>, i: int)
    requires
        0 <= i <= s.len(),
        forall|j: int| 0 <= j < s.len() ==> is_digit(s[j]),
    ensures
        dec_val(s.subrange(0, i)) <= dec_val(s),
    decreases s.len() - i,
{
    if i < s.len() {
        lemma_dec_val_prefix(s, i + 1);
        let p1 = s.subrange(0, i + 1);
        assert(p1.drop_last() =~= s.subrange(0, i));
        lemma_dec_val_nonneg(s.subrange(0, i));
    } else {
        assert(s.subrange(0, i) =~= s);
    }
}

/// Parses a decimal `u64`, failing on non-digits, emptiness or overflow.
pub fn parse_u64(v: &[char]) -> (r: Option<u64>)
    ensures
        match r {
            Some(k) => is_dec_seq(v@) && k == dec_val(v@),
            None => !(is_dec_seq(v@) && dec_val(v@) <= u64::MAX),
        },
{
    let n = v.len();
    if n == 0 {
        return None;
    }
    let mut acc: u64 = 0;
    for i in 0..n
        invariant
            n == v@.len(),
            forall|j: int| 0 <= j < i ==> is_digit(v@[j]),
            acc == dec_val(v@.subrange(0, i as int)),
    {
        let c = v[i];
        if !('0' <= c && c <= '9') {
            assert(!is_dec_seq(v@));
            return None;
        }
        let d: u64 = ((c as u32) - 48) as u64;
        let step = match acc.checked_mul(10) {
            Some(x) => x.checked_add(d),
            None => None,
        };
        proof {
            assert(v@.subrange(0, i + 1).drop_last() =~= v@.subrange(0, i as int));
            assert(dec_val(v@.subrange(0, i + 1)) == acc * 10 + d);
        }
        match step {
            Some(x) => {
                acc = x;
            },
            None => {
                assert(dec_val(v@.subrange(0, i + 1)) > u64::MAX);
                assert(is_dec_seq(v@) ==> dec_val(v@) > u64::MAX) by {
                    if is_dec_seq(v@) {
                        lemma_dec_val_prefix(v@, i + 1);
                    }
                }
                return None;
            },
        }
    }
    assert(v@.subrange(0, n as int) =~= v@);
    Some(acc)
}

/// The decimal digit character for `d`.
pub open spec fn dec_digit_char(d: int) -> char {
    ((48 + d) as u8) as char
}

/// Decimal rendering of a non-negative integer.
pub open spec fn dec_chars(n: int) -> Seq<char>
    decreases n,
{
    if n < 10 {
        seq![dec_digit_char(n)]
    } else {
        dec_chars(n / 10).push(dec_digit_char(n % 10))
    }
}

/// Renders `n` in decimal.
pub fn u64_to_dec(n: u64) -> (r: Vec<char>)
    ensures
        r@ == dec_chars(n as int),
    decreases n,
{
    if n < 10 {
        let c = ((48 + n) as u8) as char;
        let mut r: Vec<char> = Vec::new();
        r.push(c);
        assert(r@ =~= dec_chars(n as int));
        r
    } else {
        let mut r = u64_to_dec(n / 10);
        let c = ((48 + n % 10) as u8) as char;
        r.push(c);
        assert(r@ =~= dec_chars(n as int));
        r
    }
}

/// The lower-case hexadecimal digit character for `d`.
pub open spec fn hex_digit_char(d: int) -> char {
    if d < 10 {
        ((48 + d) as u8) as char
    } else {
        ((87 + d) as u8) as char
    }
}

/// Lower-case hexadecimal rendering of a non-negative integer.
pub open spec fn hex_chars(n: int) -> Seq<char>
    decreases n,
{
    if n < 16 {
        seq![hex_digit_char(n)]
    } else {
        hex_chars(n / 16).push(hex_digit_char(n % 16))
    }
}

/// Renders `n` in lower-case hexadecimal.
pub fn u64_to_hex(n: u64) -> (r: Vec<char>)
    ensures
        r@ == hex_chars(n as int),
    decreases n,
{
    if n < 16 {
        let d = n as u8;
        let c = if d < 10 {
            (48 + d) as char
        } else {
            (87 + d) as char
        };
        let mut r: Vec<char> = Vec::new();
        r.push(c);
        assert(r@ =~= hex_chars(n as int));
        r
    } else {
        let mut r = u64_to_hex(n / 16);
        let d = (n % 16) as u8;
        let c = if d < 10 {
            (48 + d) as char
        } else {
            (87 + d) as char
        };
        r.push(c);
        assert(r@ =~= hex_chars(n as int));
        r
    }
}

} // verus!

verus! {

/// Lexicographic order on character sequences, by code point.
pub open spec fn lex_le(a: Seq<char>, b: Seq<char>) -> bool
    decreases a.len(),
{
    if a.len() == 0 {
        true
    } else if b.len() == 0 {
        false
    } else if a[0] != b[0] {
        a[0] < b[0]
    } else {
        lex_le(a.drop_first(), b.drop_first())
    }
}

pub proof fn lemma_lex_le_total(a: Seq<char>, b: Seq<char>)
    ensures
        lex_le(a, b) || lex_le(b, a),
    decreases a.len(),
{
    if a.len() > 0 && b.len() > 0 && a[0] == b[0] {
        lemma_lex_le_total(a.drop_first(), b.drop_first());
    }
}

pub proof fn lemma_lex_le_antisym(a: Seq<char>, b: Seq<char>)
    requires
        lex_le(a, b),
        lex_le(b, a),
    ensures
        a == b,
    decreases a.len(),
{
    if a.len() > 0 && b.len() > 0 && a[0] == b[0] {
        lemma_lex_le_antisym(a.drop_first(), b.drop_first());
        assert(a =~= seq![a[0]] + a.drop_first());
        assert(b =~= seq![b[0]] + b.drop_first());
    }
}

pub proof fn lemma_lex_le_trans(a: Seq<char>, b: Seq<char>, c: Seq<char>)
    requires
        lex_le(a, b),
        lex_le(b, c),
    ensures
        lex_le(a, c),
    decreases a.len(),
{
    if a.len() > 0 && b.len() > 0 && c.len() > 0 && a[0] == b[0] && b[0] == c[0] {
        lemma_lex_le_trans(a.drop_first(), b.drop_first(), c.drop_first());
    }
}

/// Decides [`lex_le`] on two character slices.
pub fn chars_le(a: &[char], b: &[char]) -> (r: bool)
    ensures
        r == lex_le(a@, b@),
{
    let na = a.len();
    let nb = b.len();
    let min = if na < nb {
        na
    } else {
        nb
    };
    let mut i: usize = 0;
    assert(a@.skip(0) =~= a@);
    assert(b@.skip(0) =~= b@);
    while i < min
        invariant
            i <= min,
            na == a@.len(),
            nb == b@.len(),
            min == if na < nb {
                na
            } else {
                nb
            },
            lex_le(a@, b@) == lex_le(a@.skip(i as int), b@.skip(i as int)),
            lex_le(b@, a@) == lex_le(b@.skip(i as int), a@.skip(i as int)),
        decreases min - i,
    {
        let ghost ra = a@.skip(i as int);
        let ghost rb = b@.skip(i as int);
        if a[i] != b[i] {
            assert(ra[0] == a@[i as int] && rb[0] == b@[i as int]);
            return a[i] < b[i];
        }
        proof {
            assert(ra.drop_first() =~= a@.skip(i + 1));
            assert(rb.drop_first() =~= b@.skip(i + 1));
        }
        i = i + 1;
    }
    proof {
        let ra = a@.skip(min as int);
        let rb = b@.skip(min as int);
        assert(ra.len() == 0 || rb.len() == 0);
    }
    na <= nb
}

/// Adjacent elements are in [`lex_le`] order; with transitivity the whole
/// sequence is.
pub open spec fn lex_sorted(s: Seq<Seq<char>>) -> bool {
    forall|i: int, j: int| 0 <= i < j < s.len() ==> lex_le(s[i], s[j])
}

pub proof fn lemma_lex_le_refl(a: Seq<char>)
    ensures
        lex_le(a, a),
    decreases a.len(),
{
    if a.len() > 0 {
        lemma_lex_le_refl(a.drop_first());
    }
}

/// The deep view of a vector of character vectors reads elementwise.
pub proof fn lemma_deep_elem(v: Vec<Vec<char>>, i: int)
    requires
        0 <= i < v@.len(),
    ensures
        v.deep_view()[i] == v@[i]@,
{
    assert(v.deep_view()[i] =~= v@[i]@);
}

/// Insertion sort by [`lex_le`], preserving the multiset of elements.
pub fn sort_char_seqs(v: Vec<Vec<char>>) -> (r: Vec<Vec<char>>)
    ensures
        lex_sorted(r.deep_view()),
        r.deep_view().to_multiset() == v.deep_view().to_multiset(),
        r@.len() == v@.len(),
{
    broadcast use vstd::seq_lib::group_to_multiset_ensures;
    broadcast use vstd::multiset::group_multiset_axioms;

    let mut out: Vec<Vec<char>> = Vec::new();
    let n = v.len();
    assert(out.deep_view().to_multiset() =~= v.deep_view().subrange(0, 0).to_multiset());
    for idx in 0..n
        invariant
            n == v@.len(),
            out@.len() == idx,
            lex_sorted(out.deep_view()),
            out.deep_view().to_multiset() == v.deep_view().subrange(0, idx as int).to_multiset(),
    {
        let x = sub_vec(v[idx].as_slice(), 0, v[idx].len());
        proof {
            assert(x@ =~= v@[idx as int]@);
            lemma_deep_elem(v, idx as int);
            assert(x.deep_view() =~~= v.deep_view()[idx as int]);
        }
        let m = out.len();
        let mut pos: usize = 0;
        while pos < m && chars_le(out[pos].as_slice(), x.as_slice())
            invariant
                pos <= m,
                m == out@.len(),
                forall|k: int| 0 <= k < pos ==> lex_le(out.deep_view()[k], x.deep_view()),
            decreases m - pos,
        {
            proof {
                lemma_deep_elem(out, pos as int);
                assert(x.deep_view() =~= x@);
            }
            pos = pos + 1;
        }
        proof {
            if pos < m {
                lemma_deep_elem(out, pos as int);
                assert(x.deep_view() =~= x@);
                lemma_lex_le_total(out.deep_view()[pos as int], x.deep_view());
                assert(lex_le(x.deep_view(), out.deep_view()[pos as int]));
            }
        }
        let ghost old_out = out.deep_view();
        let ghost xd = x.deep_view();
        out.insert(pos, x);
        proof {
            let newv = out.deep_view();
            let front = old_out.subrange(0, pos as int);
            let back = old_out.subrange(pos as int, old_out.len() as int);
            assert(newv =~~= front.push(xd) + back);
            assert(front + back =~= old_out);
            assert forall|i: int, j: int| 0 <= i < j < newv.len() implies lex_le(
                newv[i],
                newv[j],
            ) by {
                if j < pos {
                    assert(newv[i] == old_out[i] && newv[j] == old_out[j]);
                } else if j == pos {
                    assert(newv[i] == old_out[i] && newv[j] == xd);
                } else {
                    assert(newv[j] == old_out[j - 1]);
                    if i < pos {
                        assert(newv[i] == old_out[i]);
                        if pos < old_out.len() {
                            if i < pos && pos <= j - 1 {
                                if pos == j - 1 {
                                } else {
                                    assert(lex_le(old_out[pos as int], old_out[j - 1]));
                                }
                                if i == pos {
                                } else {
                                }
                            }
                        }
                        assert(lex_le(old_out[i], old_out[j - 1]));
                    } else if i == pos {
                        assert(newv[i] == xd);
                        if pos == j - 1 {
                            lemma_lex_le_refl(xd);
                            assert(lex_le(xd, old_out[pos as int]));
                        } else {
                            lemma_lex_le_trans(xd, old_out[pos as int], old_out[j - 1]);
                        }
                    } else {
                        assert(newv[i] == old_out[i - 1]);
                        assert(lex_le(old_out[i - 1], old_out[j - 1]));
                    }
                }
            }
            vstd::seq_lib::lemma_multiset_commutative(front.push(xd), back);
            vstd::seq_lib::lemma_multiset_commutative(front, back);
            front.to_multiset_ensures();
            v.deep_view().subrange(0, idx as int).to_multiset_ensures();
            assert(front.push(xd).to_multiset() =~= front.to_multiset().insert(xd));
            assert(newv.to_multiset() == front.push(xd).to_multiset().add(back.to_multiset()));
            assert(old_out.to_multiset() == front.to_multiset().add(back.to_multiset()));
            assert(newv.to_multiset() =~= old_out.to_multiset().insert(xd));
            assert(v.deep_view().subrange(0, idx + 1) =~= v.deep_view().subrange(
                0,
                idx as int,
            ).push(v.deep_view()[idx as int]));
        }
    }
    assert(v.deep_view().subrange(0, n as int) =~= v.deep_view());
    out
}

} // verus!

verus! {

/// Drops adjacent duplicates; on a sorted input the result holds exactly the
/// distinct elements, still in order.
pub fn dedup_adjacent(v: Vec<Vec<char>>) -> (r: Vec<Vec<char>>)
    ensures
        forall|x: Seq<char>| r.deep_view().contains(x) <==> v.deep_view().contains(x),
        lex_sorted(v.deep_view()) ==> lex_sorted(r.deep_view()),
        forall|i: int| 0 <= i < r.deep_view().len() - 1 ==> #[trigger] r.deep_view()[i]
            != r.deep_view()[i + 1],
{
    let mut r: Vec<Vec<char>> = Vec::new();
    let n = v.len();
    for idx in 0..n
        invariant
            n == v@.len(),
            forall|x: Seq<char>|
                r.deep_view().contains(x) <==> v.deep_view().subrange(0, idx as int).contains(x),
            forall|i: int|
                0 <= i < r.deep_view().len() - 1 ==> #[trigger] r.deep_view()[i]
                    != r.deep_view()[i + 1],
            r@.len() > 0 ==> idx > 0 && r.deep_view().last() == v.deep_view()[idx - 1],
            lex_sorted(v.deep_view()) ==> lex_sorted(r.deep_view()),
            r@.len() <= idx,
            lex_sorted(v.deep_view()) ==> (forall|i: int, k: int|
                0 <= i < r.deep_view().len() && idx <= k < v.deep_view().len() ==> lex_le(
                    r.deep_view()[i],
                    v.deep_view()[k],
                )),
    {
        proof {
            lemma_deep_elem(v, idx as int);
        }
        let keep = if r.len() == 0 {
            true
        } else {
            proof {
                lemma_deep_elem(r, r@.len() - 1);
            }
            !eq_chars(r[r.len() - 1].as_slice(), v[idx].as_slice())
        };
        let ghost old_r = r.deep_view();
        if keep {
            let x = sub_vec(v[idx].as_slice(), 0, v[idx].len());
            proof {
                assert(x@ =~= v@[idx as int]@);
                assert(x.deep_view() =~~= v.deep_view()[idx as int]);
            }
            r.push(x);
            proof {
                assert(r.deep_view() =~~= old_r.push(v.deep_view()[idx as int]));
            }
        }
        proof {
            let pre1 = v.deep_view().subrange(0, idx + 1);
            let pre0 = v.deep_view().subrange(0, idx as int);
            assert(pre1 =~= pre0.push(v.deep_view()[idx as int]));
            assert forall|x: Seq<char>| pre1.contains(x) implies r.deep_view().contains(x) by {
                if pre0.contains(x) {
                    assert(old_r.contains(x));
                    let w = choose|w: int| 0 <= w < old_r.len() && old_r[w] == x;
                    assert(r.deep_view()[w] == x);
                } else {
                    assert(x == v.deep_view()[idx as int]);
                    if keep {
                        assert(r.deep_view().last() == x);
                    } else {
                        assert(old_r.last() == x);
                        assert(r.deep_view()[old_r.len() - 1] == x);
                    }
                }
            }
            assert forall|x: Seq<char>| r.deep_view().contains(x) implies pre1.contains(x) by {
                let w = choose|w: int| 0 <= w < r.deep_view().len() && r.deep_view()[w] == x;
                if w < old_r.len() {
                    assert(old_r[w] == x);
                    assert(old_r.contains(x));
                    assert(pre0.contains(x));
                    let u = choose|u: int| 0 <= u < pre0.len() && pre0[u] == x;
                    assert(pre1[u] == x);
                } else {
                    assert(x == v.deep_view()[idx as int]);
                    assert(pre1.last() == x);
                }
            }
        }
    }
    assert(v.deep_view().subrange(0, n as int) =~= v.deep_view());
    r
}

/// The items joined with `sep` between consecutive items.
pub open spec fn join_spec(items: Seq<Seq<char>>, sep: Seq<char>) -> Seq<char>
    decreases items.len(),
{
    if items.len() == 0 {
        Seq::empty()
    } else if items.len() == 1 {
        items[0]
    } else {
        items[0] + sep + join_spec(items.drop_first(), sep)
    }
}

pub proof fn lemma_join_push(items: Seq<Seq<char>>, sep: Seq<char>, x: Seq<char>)
    ensures
        join_spec(items.push(x), sep) == if items.len() == 0 {
            x
        } else {
            join_spec(items, sep) + sep + x
        },
    decreases items.len(),
{
    if items.len() == 0 {
        assert(items.push(x) =~= seq![x]);
        assert(join_spec(seq![x], sep) == x);
    } else {
        lemma_join_push(items.drop_first(), sep, x);
        assert(items.push(x).drop_first() =~= items.drop_first().push(x));
        assert(items.push(x)[0] == items[0]);
        if items.len() == 1 {
            assert(join_spec(items, sep) == items[0]);
        } else {
            assert((items[0] + sep + (join_spec(items.drop_first(), sep) + sep + x)) =~= (items[0]
                + sep + join_spec(items.drop_first(), sep)) + sep + x);
        }
    }
}

/// Joins items with a separator.
pub fn join_chars(items: &Vec<Vec<char>>, sep: &[char]) -> (r: Vec<char>)
    ensures
        r@ == join_spec(items.deep_view(), sep@),
{
    let mut r: Vec<char> = Vec::new();
    let n = items.len();
    for i in 0..n
        invariant
            n == items@.len(),
            r@ == join_spec(items.deep_view().subrange(0, i as int), sep@),
    {
        proof {
            lemma_deep_elem(*items, i as int);
        }
        if i > 0 {
            append_slice(&mut r, sep);
        }
        append_slice(&mut r, items[i].as_slice());
        proof {
            let pre0 = items.deep_view().subrange(0, i as int);
            let pre1 = items.deep_view().subrange(0, i + 1);
            assert(pre1 =~= pre0.push(items.deep_view()[i as int]));
            lemma_join_push(pre0, sep@, items.deep_view()[i as int]);
            if i == 0 {
                assert(r@ =~= join_spec(pre1, sep@));
            }
        }
    }
    assert(items.deep_view().subrange(0, n as int) =~= items.deep_view());
    r
}

} // verus!

verus! {

/// Pushes an element while tracking the vector's deep view.
pub fn push_deep<T: DeepView>(v: &mut Vec<T>, x: T)
    ensures
        final(v).deep_view() == old(v).deep_view().push(x.deep_view()),
        final(v)@.len() == old(v)@.len() + 1,
{
    let ghost xd = x.deep_view();
    let ghost before = v.deep_view();
    v.push(x);
    proof {
        assert(v@.len() == before.len() + 1);
        assert(forall|k: int| 0 <= k < before.len() ==> v.deep_view()[k] == before[k]);
        assert(v.deep_view()[before.len() as int] == xd);
        assert(v.deep_view() =~= before.push(xd));
    }
}

} // verus!

verus! {

/// Trims ASCII whitespace from the front only.
pub fn trim_start(v: &[char]) -> (r: Vec<char>)
    ensures
        r@ == trim_start_spec(v@),
{
    let n = v.len();
    let mut lo: usize = 0;
    assert(v@.subrange(0, n as int) =~= v@);
    while lo < n && is_space_char(v[lo])
        invariant
            0 <= lo <= n,
            n == v@.len(),
            trim_start_spec(v@) == trim_start_spec(v@.subrange(lo as int, n as int)),
        decreases n - lo,
    {
        proof {
            let cur = v@.subrange(lo as int, n as int);
            assert(cur.drop_first() =~= v@.subrange(lo + 1, n as int));
        }
        lo = lo + 1;
    }
    proof {
        let cur = v@.subrange(lo as int, n as int);
        assert(trim_start_spec(cur) == cur);
    }
    sub_vec(v, lo, n)
}

} // verus!

verus! {

/// An occurrence shifts under prefixing.
pub proof fn lemma_occurs_shift(p: Seq<char>, t: Seq<char>, x: Seq<char>, k: int)
    requires
        occurs_at(t, x, k),
    ensures
        occurs_at(p + t, x, p.len() + k),
{
    assert((p + t).subrange(p.len() + k, p.len() + k + x.len() as int) =~= t.subrange(
        k,
        k + x.len() as int,
    ));
}

/// Every joined item occurs inside the join.
pub proof fn lemma_join_contains(items: Seq<Seq<char>>, sep: Seq<char>, i: int)
    requires
        0 <= i < items.len(),
    ensures
        contains_sub(join_spec(items, sep), items[i]),
    decreases items.len(),
{
    let joined = join_spec(items, sep);
    if items.len() == 1 {
        assert(joined.subrange(0, items[0].len() as int) =~= items[0]);
        assert(occurs_at(joined, items[0], 0));
    } else if i == 0 {
        assert(joined.subrange(0, items[0].len() as int) =~= items[0]);
        assert(occurs_at(joined, items[0], 0));
    } else {
        lemma_join_contains(items.drop_first(), sep, i - 1);
        let rest = join_spec(items.drop_first(), sep);
        let k = choose|k: int|
            #![trigger rest.subrange(k, k + items[i].len() as int)]
            occurs_at(rest, items.drop_first()[i - 1], k);
        lemma_occurs_shift(items[0] + sep, rest, items[i], k);
        assert((items[0] + sep) + rest =~= joined);
    }
}

} // verus!
