//! Character-sequence operations with the meaning that Rust's `str` gives them:
//! `lines`, `split`, `trim`, `split_whitespace`, prefix, suffix and substring
//! tests. Each is a spec function over `Seq<char>` and an executable function
//! proved against it.

use vstd::prelude::*;

verus! {

/// Unicode `White_Space`, the property that `char::is_whitespace` tests.
pub open spec fn is_ws(c: char) -> bool {
    let u = c as u32;
    (0x09 <= u && u <= 0x0d) || u == 0x20 || u == 0x85 || u == 0xa0 || u == 0x1680
        || (0x2000 <= u && u <= 0x200a) || u == 0x2028 || u == 0x2029 || u == 0x202f
        || u == 0x205f || u == 0x3000
}

pub fn char_is_ws(c: char) -> (r: bool)
    ensures
        r == is_ws(c),
{
    let u = c as u32;
    (0x09 <= u && u <= 0x0d) || u == 0x20 || u == 0x85 || u == 0xa0 || u == 0x1680 || (0x2000
        <= u && u <= 0x200a) || u == 0x2028 || u == 0x2029 || u == 0x202f || u == 0x205f || u
        == 0x3000
}

/// A separator: one given character, or any whitespace character.
pub open spec fn is_sep(c: char, sep: Option<char>) -> bool {
    match sep {
        Some(x) => c == x,
        None => is_ws(c),
    }
}

/// The pieces of `s` between separators, as `str::split` gives them: always
/// at least one piece, empty pieces kept.
pub open spec fn split_by(s: Seq<char>, sep: Option<char>) -> Seq<Seq<char>>
    decreases s.len(),
{
    if s.len() == 0 {
        seq![Seq::<char>::empty()]
    } else {
        let r = split_by(s.drop_last(), sep);
        if is_sep(s.last(), sep) {
            r.push(Seq::<char>::empty())
        } else {
            r.update(r.len() - 1, r.last().push(s.last()))
        }
    }
}

pub proof fn lemma_split_by_nonempty(s: Seq<char>, sep: Option<char>)
    ensures
        split_by(s, sep).len() >= 1,
    decreases s.len(),
{
    if s.len() > 0 {
        lemma_split_by_nonempty(s.drop_last(), sep);
    }
}

/// The pieces of `ps` that are not empty, in order.
pub open spec fn nonempty(ps: Seq<Seq<char>>) -> Seq<Seq<char>>
    decreases ps.len(),
{
    if ps.len() == 0 {
        Seq::empty()
    } else {
        let r = nonempty(ps.drop_last());
        if ps.last().len() > 0 {
            r.push(ps.last())
        } else {
            r
        }
    }
}

/// A line without the carriage return that ended it.
pub open spec fn strip_cr(l: Seq<char>) -> Seq<char> {
    if l.len() > 0 && l.last() == '\r' {
        l.drop_last()
    } else {
        l
    }
}

/// The lines of `s`, as `str::lines` gives them: split at `\n`, a `\r` just
/// before a `\n` removed, no line after a final `\n`, none at all for "".
pub open spec fn lines(s: Seq<char>) -> Seq<Seq<char>> {
    let p = split_by(s, Some('\n'));
    let n = p.len();
    Seq::new((n - 1) as nat, |k: int| strip_cr(p[k])) + if p[n - 1].len() > 0 {
        seq![p[n - 1]]
    } else {
        Seq::<Seq<char>>::empty()
    }
}

/// The whitespace-separated words of `s`, as `str::split_whitespace` gives them.
pub open spec fn words(s: Seq<char>) -> Seq<Seq<char>> {
    nonempty(split_by(s, None))
}

pub open spec fn trim_start(s: Seq<char>) -> Seq<char>
    decreases s.len(),
{
    if s.len() > 0 && is_ws(s[0]) {
        trim_start(s.drop_first())
    } else {
        s
    }
}

pub open spec fn trim_end(s: Seq<char>) -> Seq<char>
    decreases s.len(),
{
    if s.len() > 0 && is_ws(s.last()) {
        trim_end(s.drop_last())
    } else {
        s
    }
}

/// `s` without leading and trailing whitespace, as `str::trim` gives it.
pub open spec fn trim(s: Seq<char>) -> Seq<char> {
    trim_end(trim_start(s))
}

pub open spec fn starts_with(s: Seq<char>, p: Seq<char>) -> bool {
    p.len() <= s.len() && s.take(p.len() as int) == p
}

pub open spec fn ends_with(s: Seq<char>, p: Seq<char>) -> bool {
    p.len() <= s.len() && s.skip(s.len() - p.len()) == p
}

pub open spec fn occurs_at(h: Seq<char>, n: Seq<char>, i: int) -> bool {
    0 <= i && i + n.len() <= h.len() && h.subrange(i, i + n.len()) == n
}

/// `n` occurs in `h` as a contiguous run, as `str::contains` tests.
pub open spec fn contains(h: Seq<char>, n: Seq<char>) -> bool {
    exists|i: int| occurs_at(h, n, i)
}

/// The distinct items of `s`, each at its first occurrence.
pub open spec fn dedup(s: Seq<Seq<char>>) -> Seq<Seq<char>>
    decreases s.len(),
{
    if s.len() == 0 {
        Seq::empty()
    } else {
        let r = dedup(s.drop_last());
        if r.contains(s.last()) {
            r
        } else {
            r.push(s.last())
        }
    }
}

/// The character sequences held by a vector of character vectors.
pub open spec fn views(v: Seq<Vec<char>>) -> Seq<Seq<char>> {
    Seq::new(v.len(), |i: int| v[i]@)
}

/// The characters of a string slice, in order.
pub fn chars_of(s: &str) -> (v: Vec<char>)
    ensures
        v@ == s@,
{
    let mut v: Vec<char> = Vec::new();
    for c in it: s.chars()
        invariant
            v@ == it.seq().take(it.index() as int),
            it.seq() == s@,
    {
        v.push(c);
    }
    v
}

/// Appends one character to a `String` (`String::push`).
#[verifier::external_body]
fn push_char(s: &mut String, c: char)
    ensures
        final(s)@ == old(s)@.push(c),
{
    s.push(c);
}

/// A `String` that holds the given characters.
pub fn string_of(v: &Vec<char>) -> (s: String)
    ensures
        s@ == v@,
{
    let mut s = String::new();
    for i in 0..v.len()
        invariant
            s@ == v@.take(i as int),
    {
        push_char(&mut s, v[i]);
        assert(v@.take(i as int).push(v@[i as int]) == v@.take(i + 1));
    }
    assert(v@.take(v.len() as int) == v@);
    s
}

/// `Vec<String>` holding the given character vectors.
pub fn strings_of(v: &Vec<Vec<char>>) -> (r: Vec<String>)
    ensures
        r.deep_view() == views(v@),
{
    let mut r: Vec<String> = Vec::new();
    for i in 0..v.len()
        invariant
            r@.len() == i,
            forall|k: int| 0 <= k < i ==> (#[trigger] r@[k])@ == v@[k]@,
    {
        let s = string_of(&v[i]);
        r.push(s);
    }
    assert(r.deep_view() =~= views(v@));
    r
}

/// A copy of a character vector.
pub fn copy_chars(v: &Vec<char>) -> (r: Vec<char>)
    ensures
        r@ == v@,
{
    let mut r: Vec<char> = Vec::new();
    for i in 0..v.len()
        invariant
            r@ == v@.take(i as int),
    {
        r.push(v[i]);
        assert(r@ =~= v@.take(i + 1));
    }
    assert(v@.take(v.len() as int) =~= v@);
    r
}

pub fn chars_eq(a: &Vec<char>, b: &Vec<char>) -> (r: bool)
    ensures
        r == (a@ == b@),
{
    if a.len() != b.len() {
        return false;
    }
    for i in 0..a.len()
        invariant
            a.len() == b.len(),
            forall|k: int| 0 <= k < i ==> a@[k] == b@[k],
    {
        if a[i] != b[i] {
            return false;
        }
    }
    assert(a@ == b@);
    true
}

pub fn has_prefix(s: &Vec<char>, p: &Vec<char>) -> (r: bool)
    ensures
        r == starts_with(s@, p@),
{
    if p.len() > s.len() {
        return false;
    }
    for i in 0..p.len()
        invariant
            p.len() <= s.len(),
            forall|k: int| 0 <= k < i ==> s@[k] == p@[k],
    {
        if s[i] != p[i] {
            assert(s@.take(p.len() as int)[i as int] != p@[i as int]);
            return false;
        }
    }
    assert(s@.take(p.len() as int) == p@);
    true
}

pub fn has_suffix(s: &Vec<char>, p: &Vec<char>) -> (r: bool)
    ensures
        r == ends_with(s@, p@),
{
    if p.len() > s.len() {
        return false;
    }
    let off = s.len() - p.len();
    for i in 0..p.len()
        invariant
            p.len() <= s.len(),
            off == s.len() - p.len(),
            forall|k: int| 0 <= k < i ==> s@[off + k] == p@[k],
    {
        if s[off + i] != p[i] {
            assert(s@.skip(off as int)[i as int] != p@[i as int]);
            return false;
        }
    }
    assert(s@.skip(off as int) == p@);
    true
}

fn occurs_at_exec(h: &Vec<char>, n: &Vec<char>, i: usize) -> (r: bool)
    requires
        i + n.len() <= h.len(),
    ensures
        r == occurs_at(h@, n@, i as int),
{
    for k in 0..n.len()
        invariant
            i + n.len() <= h.len(),
            forall|j: int| 0 <= j < k ==> h@[i + j] == n@[j],
    {
        if h[i + k] != n[k] {
            assert(h@.subrange(i as int, i + n.len())[k as int] != n@[k as int]);
            return false;
        }
    }
    assert(h@.subrange(i as int, i + n.len()) == n@);
    true
}

pub fn has_substring(h: &Vec<char>, n: &Vec<char>) -> (r: bool)
    ensures
        r == contains(h@, n@),
{
    if n.len() > h.len() {
        return false;
    }
    let last = h.len() - n.len();
    let mut i: usize = 0;
    loop
        invariant
            last == h.len() - n.len(),
            n.len() <= h.len(),
            i <= last,
            forall|j: int| 0 <= j < i ==> !occurs_at(h@, n@, j),
        decreases last - i,
    {
        if occurs_at_exec(h, n, i) {
            return true;
        }
        if i == last {
            assert forall|j: int| !occurs_at(h@, n@, j) by {
                if 0 <= j <= i {
                }
            }
            return false;
        }
        i = i + 1;
    }
}

/// `str::contains` over two string slices.
pub fn str_contains(h: &str, n: &str) -> (r: bool)
    ensures
        r == contains(h@, n@),
{
    let hv = chars_of(h);
    let nv = chars_of(n);
    has_substring(&hv, &nv)
}

/// `str::split` at a separator character, or at each whitespace character.
pub fn split_by_exec(s: &Vec<char>, sep: Option<char>) -> (r: Vec<Vec<char>>)
    ensures
        views(r@) == split_by(s@, sep),
{
    let mut done: Vec<Vec<char>> = Vec::new();
    let mut cur: Vec<char> = Vec::new();
    for i in 0..s.len()
        invariant
            views(done@).push(cur@) == split_by(s@.take(i as int), sep),
    {
        let c = s[i];
        assert(s@.take(i + 1).drop_last() == s@.take(i as int));
        let is_s = match sep {
            Some(x) => c == x,
            None => char_is_ws(c),
        };
        if is_s {
            let piece = cur;
            done.push(piece);
            cur = Vec::new();
        } else {
            cur.push(c);
        }
        assert(views(done@).push(cur@) =~= split_by(s@.take(i + 1), sep));
    }
    assert(s@.take(s.len() as int) == s@);
    done.push(cur);
    done
}

/// The pieces that are not empty.
pub fn nonempty_exec(ps: Vec<Vec<char>>) -> (r: Vec<Vec<char>>)
    ensures
        views(r@) == nonempty(views(ps@)),
{
    let mut r: Vec<Vec<char>> = Vec::new();
    for i in 0..ps.len()
        invariant
            views(r@) == nonempty(views(ps@).take(i as int)),
    {
        assert(views(ps@).take(i + 1).drop_last() == views(ps@).take(i as int));
        if ps[i].len() > 0 {
            r.push(copy_chars(&ps[i]));
        }
        assert(views(r@) =~= nonempty(views(ps@).take(i + 1)));
    }
    assert(views(ps@).take(ps.len() as int) == views(ps@));
    r
}

/// `str::split_whitespace`.
pub fn words_exec(s: &Vec<char>) -> (r: Vec<Vec<char>>)
    ensures
        views(r@) == words(s@),
{
    let ps = split_by_exec(s, None);
    nonempty_exec(ps)
}

fn strip_cr_exec(l: Vec<char>) -> (r: Vec<char>)
    ensures
        r@ == strip_cr(l@),
{
    let mut l = l;
    if l.len() > 0 && l[l.len() - 1] == '\r' {
        l.pop();
    }
    l
}

/// `str::lines`.
pub fn lines_exec(s: &Vec<char>) -> (r: Vec<Vec<char>>)
    ensures
        views(r@) == lines(s@),
{
    let p = split_by_exec(s, Some('\n'));
    proof {
        lemma_split_by_nonempty(s@, Some('\n'));
    }
    let ghost pv = views(p@);
    let n = p.len();
    let mut r: Vec<Vec<char>> = Vec::new();
    for k in 0..n - 1
        invariant
            n == p.len(),
            n >= 1,
            pv == views(p@),
            pv == split_by(s@, Some('\n')),
            r@.len() == k,
            forall|j: int| 0 <= j < k ==> (#[trigger] r@[j])@ == strip_cr(pv[j]),
    {
        let l = strip_cr_exec(copy_chars(&p[k]));
        r.push(l);
    }
    if p[n - 1].len() > 0 {
        r.push(copy_chars(&p[n - 1]));
    }
    assert(views(r@) =~= lines(s@));
    r
}

proof fn lemma_trim_start_skip(s: Seq<char>, i: int)
    requires
        0 <= i <= s.len(),
        forall|k: int| 0 <= k < i ==> is_ws(#[trigger] s[k]),
    ensures
        trim_start(s) == trim_start(s.skip(i)),
    decreases i,
{
    if i > 0 {
        assert(is_ws(s[0]));
        assert(s.skip(1) == s.drop_first());
        assert forall|k: int| 0 <= k < i - 1 implies is_ws(#[trigger] s.drop_first()[k]) by {
            assert(s.drop_first()[k] == s[k + 1]);
        }
        lemma_trim_start_skip(s.drop_first(), i - 1);
        assert(s.drop_first().skip(i - 1) == s.skip(i));
    } else {
        assert(s.skip(0) == s);
    }
}

proof fn lemma_trim_end_take(s: Seq<char>, j: int)
    requires
        0 <= j <= s.len(),
        forall|k: int| j <= k < s.len() ==> is_ws(#[trigger] s[k]),
    ensures
        trim_end(s) == trim_end(s.take(j)),
    decreases s.len() - j,
{
    if j < s.len() {
        lemma_trim_end_take(s.drop_last(), j);
        assert(s.drop_last().take(j) == s.take(j));
    } else {
        assert(s.take(j) == s);
    }
}

proof fn lemma_trim_start_shape(s: Seq<char>) -> (k: int)
    ensures
        0 <= k <= s.len(),
        forall|m: int| 0 <= m < k ==> is_ws(#[trigger] s[m]),
        k < s.len() ==> !is_ws(s[k]),
        trim_start(s) == s.skip(k),
    decreases s.len(),
{
    if s.len() > 0 && is_ws(s[0]) {
        let k1 = lemma_trim_start_shape(s.drop_first());
        assert forall|m: int| 0 <= m < k1 + 1 implies is_ws(#[trigger] s[m]) by {
            if m > 0 {
                assert(s[m] == s.drop_first()[m - 1]);
            }
        }
        if k1 + 1 < s.len() {
            assert(s[k1 + 1] == s.drop_first()[k1]);
        }
        assert(s.drop_first().skip(k1) =~= s.skip(k1 + 1));
        k1 + 1
    } else {
        assert(s.skip(0) =~= s);
        0
    }
}

proof fn lemma_trim_end_shape(s: Seq<char>) -> (j: int)
    ensures
        0 <= j <= s.len(),
        forall|m: int| j <= m < s.len() ==> is_ws(#[trigger] s[m]),
        j > 0 ==> !is_ws(s[j - 1]),
        trim_end(s) == s.take(j),
    decreases s.len(),
{
    if s.len() > 0 && is_ws(s.last()) {
        let j1 = lemma_trim_end_shape(s.drop_last());
        assert forall|m: int| j1 <= m < s.len() implies is_ws(#[trigger] s[m]) by {
            if m < s.len() - 1 {
                assert(s[m] == s.drop_last()[m]);
            }
        }
        if j1 > 0 {
            assert(s[j1 - 1] == s.drop_last()[j1 - 1]);
        }
        assert(s.drop_last().take(j1) =~= s.take(j1));
        j1
    } else {
        assert(s.take(s.len() as int) =~= s);
        s.len() as int
    }
}

/// What `trim` keeps: where `s` holds a non-whitespace character, the run of
/// `s` from its first to its last non-whitespace character, with only
/// whitespace outside it; else nothing.
pub proof fn law_trim_keeps_the_core(s: Seq<char>)
    ensures
        (forall|m: int| 0 <= m < s.len() ==> is_ws(#[trigger] s[m])) ==> trim(s).len() == 0,
        (exists|m: int| 0 <= m < s.len() && !is_ws(#[trigger] s[m])) ==> exists|i: int, j: int|
            {
                &&& 0 <= i < j <= s.len()
                &&& trim(s) == s.subrange(i, j)
                &&& !is_ws(s[i])
                &&& !is_ws(s[j - 1])
                &&& forall|m: int| 0 <= m < i ==> is_ws(#[trigger] s[m])
                &&& forall|m: int| j <= m < s.len() ==> is_ws(#[trigger] s[m])
            },
{
    let k = lemma_trim_start_shape(s);
    let t = s.skip(k);
    let j = lemma_trim_end_shape(t);
    assert forall|m: int| j <= m < t.len() implies is_ws(#[trigger] s[k + m]) by {
        assert(t[m] == s[k + m]);
    }
    if k == s.len() {
        assert(t.len() == 0);
        assert(trim(s).len() == 0);
        assert forall|m: int| 0 <= m < s.len() implies is_ws(#[trigger] s[m]) by {}
    } else {
        assert(t[0] == s[k]);
        if j == 0 {
            assert(is_ws(t[0]));
        }
        assert(j >= 1);
        assert(trim(s) == t.take(j));
        assert(t.take(j) =~= s.subrange(k, k + j));
        assert(t[j - 1] == s[k + j - 1]);
        assert forall|m: int| k + j <= m < s.len() implies is_ws(#[trigger] s[m]) by {
            assert(is_ws(t[m - k]));
            assert(t[m - k] == s[m]);
        }
        assert(!is_ws(s[k + j - 1]));
        if forall|m: int| 0 <= m < s.len() ==> is_ws(#[trigger] s[m]) {
            assert(is_ws(s[k]));
        }
        assert(0 <= k < k + j <= s.len());
    }
}

/// `str::trim`.
pub fn trim_exec(s: &Vec<char>) -> (r: Vec<char>)
    ensures
        r@ == trim(s@),
{
    let n = s.len();
    let mut i: usize = 0;
    while i < n && char_is_ws(s[i])
        invariant
            n == s.len(),
            i <= n,
            forall|k: int| 0 <= k < i ==> is_ws(#[trigger] s@[k]),
        decreases n - i,
    {
        i = i + 1;
    }
    proof {
        lemma_trim_start_skip(s@, i as int);
    }
    let ghost t = s@.skip(i as int);
    assert(trim_start(t) == t);
    let mut j: usize = n;
    while j > i && char_is_ws(s[j - 1])
        invariant
            n == s.len(),
            i <= j <= n,
            t == s@.skip(i as int),
            forall|k: int| j <= k < n ==> is_ws(#[trigger] s@[k]),
        decreases j,
    {
        j = j - 1;
    }
    proof {
        assert forall|k: int| j - i <= k < t.len() implies is_ws(#[trigger] t[k]) by {
            assert(t[k] == s@[k + i]);
        }
        lemma_trim_end_take(t, j - i);
        assert(t.take(j - i) == s@.subrange(i as int, j as int));
    }
    let mut r: Vec<char> = Vec::new();
    for k in i..j
        invariant
            i <= j <= n,
            n == s.len(),
            r@ == s@.subrange(i as int, k as int),
    {
        r.push(s[k]);
        assert(r@ =~= s@.subrange(i as int, k + 1));
    }
    r
}

/// The distinct pieces, each at its first occurrence.
pub fn dedup_exec(v: &Vec<Vec<char>>) -> (r: Vec<Vec<char>>)
    ensures
        views(r@) == dedup(views(v@)),
{
    let mut r: Vec<Vec<char>> = Vec::new();
    for i in 0..v.len()
        invariant
            views(r@) == dedup(views(v@).take(i as int)),
    {
        assert(views(v@).take(i + 1).drop_last() == views(v@).take(i as int));
        let found = index_of(&r, &v[i]);
        if found.is_none() {
            r.push(copy_chars(&v[i]));
        }
        assert(views(r@) =~= dedup(views(v@).take(i + 1)));
    }
    assert(views(v@).take(v.len() as int) == views(v@));
    r
}

/// The first position of `x` in `v`.
pub fn index_of(v: &Vec<Vec<char>>, x: &Vec<char>) -> (r: Option<usize>)
    ensures
        r matches Some(i) ==> i < v.len() && views(v@)[i as int] == x@ && forall|k: int|
            0 <= k < i ==> views(v@)[k] != x@,
        r is None <==> !views(v@).contains(x@),
{
    for i in 0..v.len()
        invariant
            forall|k: int| 0 <= k < i ==> views(v@)[k] != x@,
    {
        if chars_eq(&v[i], x) {
            return Some(i);
        }
    }
    None
}

} // verus!
