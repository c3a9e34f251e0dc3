//! Verified text utilities: whitespace trimming, substring search, and line
//! splitting over character sequences, with executable counterparts working
//! on `Vec<char>`.

use vstd::prelude::*;

verus! {

/// The characters `str::trim` removes: Unicode `White_Space`.
pub open spec fn is_ws(c: char) -> bool {
    let u = c as u32;
    (0x09 <= u <= 0x0d) || u == 0x20 || u == 0x85 || u == 0xa0 || u == 0x1680 || (0x2000 <= u
        <= 0x200a) || u == 0x2028 || u == 0x2029 || u == 0x202f || u == 0x205f || u == 0x3000
}

/// Executable whitespace test, matching [`is_ws`].
pub fn is_ws_char(c: char) -> (b: bool)
    ensures
        b == is_ws(c),
{
    let u = c as u32;
    (0x09 <= u && u <= 0x0d) || u == 0x20 || u == 0x85 || u == 0xa0 || u == 0x1680 || (0x2000 <= u
        && u <= 0x200a) || u == 0x2028 || u == 0x2029 || u == 0x202f || u == 0x205f || u == 0x3000
}

/// `s` without its leading whitespace.
pub open spec fn trim_front(s: Seq<char>) -> Seq<char>
    decreases s.len(),
{
    if s.len() > 0 && is_ws(s[0]) {
        trim_front(s.drop_first())
    } else {
        s
    }
}

/// `s` without its trailing whitespace.
pub open spec fn trim_back(s: Seq<char>) -> Seq<char>
    decreases s.len(),
{
    if s.len() > 0 && is_ws(s.last()) {
        trim_back(s.drop_last())
    } else {
        s
    }
}

/// `s` without leading and trailing whitespace, as `str::trim` leaves it.
pub open spec fn trimmed(s: Seq<char>) -> Seq<char> {
    trim_back(trim_front(s))
}

/// A sequence with no whitespace at either end is its own trim; in particular
/// `trimmed` is idempotent.
pub open spec fn trim_stable(s: Seq<char>) -> bool {
    s.len() == 0 || (!is_ws(s[0]) && !is_ws(s.last()))
}

pub proof fn lemma_trim_front_skip(s: Seq<char>, k: int)
    requires
        0 <= k <= s.len(),
        forall|j: int| 0 <= j < k ==> is_ws(s[j]),
        k < s.len() ==> !is_ws(s[k]),
    ensures
        trim_front(s) =~= s.skip(k),
    decreases k,
{
    if k == 0 {
        if s.len() > 0 && is_ws(s[0]) {
            assert(false);
        }
        assert(trim_front(s) == s);
        assert(s.skip(0) =~= s);
    } else {
        assert(is_ws(s[0]));
        lemma_trim_front_skip(s.drop_first(), k - 1);
        assert(s.drop_first().skip(k - 1) =~= s.skip(k));
    }
}

pub proof fn lemma_trim_back_take(s: Seq<char>, k: int)
    requires
        0 <= k <= s.len(),
        forall|j: int| k <= j < s.len() ==> is_ws(s[j]),
        k > 0 ==> !is_ws(s[k - 1]),
    ensures
        trim_back(s) =~= s.take(k),
    decreases s.len() - k,
{
    if k == s.len() {
        if s.len() > 0 && is_ws(s.last()) {
            assert(false);
        }
        assert(s.take(k) =~= s);
    } else {
        assert(is_ws(s.last()));
        lemma_trim_back_take(s.drop_last(), k);
        assert(s.drop_last().take(k) =~= s.take(k));
    }
}

/// A trim-stable sequence is its own trim.
pub proof fn lemma_trim_stable(s: Seq<char>)
    requires
        trim_stable(s),
    ensures
        trimmed(s) =~= s,
{
    lemma_trim_front_skip(s, 0);
    assert(trim_front(s) =~= s);
    lemma_trim_back_take(s, s.len() as int);
}

/// Trimming a trim-stable sequence padded with whitespace on both sides gives
/// the sequence back.
pub proof fn lemma_trim_padded(pad: Seq<char>, s: Seq<char>)
    requires
        forall|j: int| 0 <= j < pad.len() ==> is_ws(#[trigger] pad[j]),
        trim_stable(s),
    ensures
        trimmed(pad + s) =~= s,
{
    let w = pad + s;
    if s.len() == 0 {
        lemma_trim_front_skip(w, pad.len() as int);
        assert(w.skip(pad.len() as int) =~= s);
        lemma_trim_back_take(s, 0);
    } else {
        assert(!is_ws(w[pad.len() as int]));
        lemma_trim_front_skip(w, pad.len() as int);
        assert(w.skip(pad.len() as int) =~= s);
        lemma_trim_stable(s);
    }
}

/// The first index at or after 0 where `c` occurs in `s`, or -1.
pub open spec fn find_char(s: Seq<char>, c: char) -> int
    decreases s.len(),
{
    if s.len() == 0 {
        -1
    } else if s[0] == c {
        0
    } else {
        let r = find_char(s.drop_first(), c);
        if r < 0 {
            -1
        } else {
            r + 1
        }
    }
}

pub proof fn lemma_find_char(s: Seq<char>, c: char)
    ensures
        find_char(s, c) < 0 ==> forall|j: int| 0 <= j < s.len() ==> s[j] != c,
        find_char(s, c) >= 0 ==> 0 <= find_char(s, c) < s.len() && s[find_char(s, c)] == c
            && forall|j: int| 0 <= j < find_char(s, c) ==> s[j] != c,
    decreases s.len(),
{
    if s.len() > 0 && s[0] != c {
        let t = s.drop_first();
        lemma_find_char(t, c);
        let rt = find_char(t, c);
        if rt < 0 {
            assert forall|j: int| 0 <= j < s.len() implies s[j] != c by {
                if j > 0 {
                    assert(t[j - 1] == s[j]);
                }
            }
        } else {
            assert(s[rt + 1] == t[rt]);
            assert forall|j: int| 0 <= j < rt + 1 implies s[j] != c by {
                if j > 0 {
                    assert(t[j - 1] == s[j]);
                }
            }
        }
    }
}

/// `find_char` returns exactly the first occurrence.
pub proof fn lemma_find_char_is(s: Seq<char>, c: char, k: int)
    requires
        0 <= k < s.len(),
        s[k] == c,
        forall|j: int| 0 <= j < k ==> s[j] != c,
    ensures
        find_char(s, c) == k,
{
    lemma_find_char(s, c);
    let r = find_char(s, c);
    if r < 0 {
    } else if r < k {
    } else if r > k {
    }
}

/// Whether `s` starts with `p`.
pub open spec fn starts_with(s: Seq<char>, p: Seq<char>) -> bool {
    s.len() >= p.len() && s.take(p.len() as int) == p
}

/// The first index where `p` occurs as a contiguous subsequence of `s`, or -1.
pub open spec fn find_sub(s: Seq<char>, p: Seq<char>) -> int
    decreases s.len(),
{
    if s.len() < p.len() {
        -1
    } else if s.take(p.len() as int) =~= p {
        0
    } else {
        let r = find_sub(s.drop_first(), p);
        if r < 0 {
            -1
        } else {
            r + 1
        }
    }
}

/// `p` occurs in `s` starting at `k`.
pub open spec fn occurs_at(s: Seq<char>, p: Seq<char>, k: int) -> bool {
    0 <= k <= s.len() - p.len() && s.subrange(k, k + p.len()) =~= p
}

pub proof fn lemma_find_sub(s: Seq<char>, p: Seq<char>)
    requires
        p.len() > 0,
    ensures
        find_sub(s, p) < 0 ==> forall|j: int| !occurs_at(s, p, j),
        find_sub(s, p) >= 0 ==> occurs_at(s, p, find_sub(s, p)) && forall|j: int|
            0 <= j < find_sub(s, p) ==> !occurs_at(s, p, j),
    decreases s.len(),
{
    let r = find_sub(s, p);
    if s.len() < p.len() {
        assert forall|j: int| !occurs_at(s, p, j) by {}
    } else if s.take(p.len() as int) =~= p {
        assert(s.subrange(0, p.len() as int) =~= s.take(p.len() as int));
        assert(occurs_at(s, p, 0));
    } else {
        let t = s.drop_first();
        lemma_find_sub(t, p);
        assert forall|j: int| 1 <= j implies (occurs_at(s, p, j) <==> occurs_at(t, p, j - 1)) by {
            if 0 <= j - 1 <= t.len() - p.len() {
                assert(s.subrange(j, j + p.len()) =~= t.subrange(j - 1, j - 1 + p.len()));
            }
        }
        assert(!occurs_at(s, p, 0)) by {
            if occurs_at(s, p, 0) {
                assert(s.subrange(0, p.len() as int) =~= s.take(p.len() as int));
            }
        }
        if find_sub(t, p) >= 0 {
            assert(occurs_at(t, p, r - 1));
            assert(occurs_at(s, p, r));
        }
    }
}

/// `find_sub` returns exactly the first occurrence.
pub proof fn lemma_find_sub_is(s: Seq<char>, p: Seq<char>, k: int)
    requires
        p.len() > 0,
        occurs_at(s, p, k),
        forall|j: int| 0 <= j < k ==> !occurs_at(s, p, j),
    ensures
        find_sub(s, p) == k,
{
    lemma_find_sub(s, p);
    let r = find_sub(s, p);
    if r < 0 {
    } else if r < k {
    } else if r > k {
    }
}

/// A line break at `k`: used to relate an executable newline scan to
/// [`find_char`].
pub proof fn lemma_newline_scan(s: Seq<char>, k: int)
    requires
        0 <= k <= s.len(),
        forall|j: int| 0 <= j < k ==> s[j] != '\n',
        k < s.len() ==> s[k] == '\n',
    ensures
        k < s.len() ==> find_char(s, '\n') == k,
        k == s.len() ==> find_char(s, '\n') < 0,
{
    if k < s.len() {
        lemma_find_char_is(s, '\n', k);
    } else {
        lemma_find_char(s, '\n');
        if find_char(s, '\n') >= 0 {
        }
    }
}

/// One line's content: a trailing carriage return is dropped when the line
/// was ended by a newline.
pub open spec fn strip_cr(l: Seq<char>) -> Seq<char> {
    if l.len() > 0 && l.last() == '\r' {
        l.drop_last()
    } else {
        l
    }
}

/// The lines of `s`, as `str::lines` yields them: split at `\n`, dropping a
/// `\r` directly before each split, with an optional final line ending.
pub open spec fn split_lines(s: Seq<char>) -> Seq<Seq<char>>
    decreases s.len(),
{
    if s.len() == 0 {
        Seq::empty()
    } else {
        let k = find_char(s, '\n');
        if 0 <= k < s.len() {
            seq![strip_cr(s.take(k))] + split_lines(s.skip(k + 1))
        } else {
            seq![s]
        }
    }
}

/// The text whose lines are `ls`, each line ended by a newline.
pub open spec fn lines_text(ls: Seq<Seq<char>>) -> Seq<char>
    decreases ls.len(),
{
    if ls.len() == 0 {
        Seq::empty()
    } else {
        lines_text(ls.drop_last()) + ls.last() + seq!['\n']
    }
}

pub proof fn lemma_lines_text_first(ls: Seq<Seq<char>>)
    requires
        ls.len() > 0,
    ensures
        lines_text(ls) =~= ls[0] + seq!['\n'] + lines_text(ls.drop_first()),
    decreases ls.len(),
{
    if ls.len() == 1 {
        assert(ls.drop_last().len() == 0);
        assert(ls.drop_first().len() == 0);
    } else {
        lemma_lines_text_first(ls.drop_last());
        assert(ls.drop_last()[0] =~= ls[0]);
        assert(ls.drop_last().drop_first() =~= ls.drop_first().drop_last());
        assert(lines_text(ls) =~= lines_text(ls.drop_last()) + ls.last() + seq!['\n']);
        assert(ls.drop_first().last() =~= ls.last());
    }
}

/// Splitting a newline-joined list of newline-free lines gives the lines
/// back, provided no line ends in a carriage return.
pub proof fn lemma_split_lines_text(ls: Seq<Seq<char>>)
    requires
        forall|i: int, j: int|
            0 <= i < ls.len() && 0 <= j < ls[i].len() ==> #[trigger] ls[i][j] != '\n',
        forall|i: int|
            0 <= i < ls.len() && ls[i].len() > 0 ==> (#[trigger] ls[i]).last() != '\r',
    ensures
        split_lines(lines_text(ls)) =~= ls,
    decreases ls.len(),
{
    if ls.len() == 0 {
    } else {
        let l0 = ls[0];
        let rest = ls.drop_first();
        lemma_lines_text_first(ls);
        let s = lines_text(ls);
        assert(s =~= l0 + seq!['\n'] + lines_text(rest));
        assert(s.len() > 0);
        assert forall|j: int| 0 <= j < l0.len() implies s[j] != '\n' by {
            assert(s[j] == l0[j]);
        }
        assert(s[l0.len() as int] == '\n');
        lemma_newline_scan(s, l0.len() as int);
        let k = find_char(s, '\n');
        assert(k == l0.len());
        assert(s.take(k) =~= l0);
        assert(strip_cr(l0) =~= l0);
        assert(s.skip(k + 1) =~= lines_text(rest));
        lemma_split_lines_text(rest);
        assert(split_lines(s) =~= seq![l0] + split_lines(lines_text(rest)));
    }
}

/// Collects the characters of a string slice.
pub fn str_to_chars(s: &str) -> (v: Vec<char>)
    ensures
        v@ == s@,
{
    let mut v: Vec<char> = Vec::new();
    for c in it: s.chars()
        invariant
            v@ =~= it.seq().take(it.index() as int),
            it.seq() == s@,
    {
        v.push(c);
    }
    proof {
        assert(v@ =~= s@);
    }
    v
}

/// Whether `v[lo..]` starts with the characters of `pat`.
pub fn range_matches(v: &Vec<char>, lo: usize, hi: usize, pat: &Vec<char>) -> (b: bool)
    requires
        lo <= hi <= v@.len(),
    ensures
        b == (lo + pat@.len() <= hi && v@.subrange(lo as int, lo + pat@.len()) =~= pat@),
{
    if pat.len() > hi - lo {
        return false;
    }
    let mut i: usize = 0;
    while i < pat.len()
        invariant
            lo <= hi <= v@.len(),
            i <= pat@.len(),
            lo + pat@.len() <= hi,
            forall|j: int| 0 <= j < i ==> v@[lo + j] == pat@[j],
        decreases pat@.len() - i,
    {
        if v[lo + i] != pat[i] {
            assert(v@.subrange(lo as int, lo + pat@.len())[i as int] != pat@[i as int]);
            return false;
        }
        i = i + 1;
    }
    proof {
        assert(v@.subrange(lo as int, lo + pat@.len()) =~= pat@);
    }
    true
}

/// The index of the first newline in `v[start..]`, or `v.len()` when there is
/// none.
pub fn find_newline(v: &Vec<char>, start: usize) -> (i: usize)
    requires
        start <= v@.len(),
    ensures
        start <= i <= v@.len(),
        forall|j: int| start <= j < i ==> v@[j] != '\n',
        i < v@.len() ==> v@[i as int] == '\n',
{
    let mut i: usize = start;
    while i < v.len()
        invariant
            start <= i <= v@.len(),
            forall|j: int| start <= j < i ==> v@[j] != '\n',
        decreases v@.len() - i,
    {
        if v[i] == '\n' {
            return i;
        }
        i = i + 1;
    }
    i
}

/// The index of the first occurrence of `c` in `v[lo..hi)`, or `hi` when
/// there is none.
pub fn find_char_in(v: &Vec<char>, lo: usize, hi: usize, c: char) -> (i: usize)
    requires
        lo <= hi <= v@.len(),
    ensures
        lo <= i <= hi,
        forall|j: int| lo <= j < i ==> v@[j] != c,
        i < hi ==> v@[i as int] == c,
    {
    let mut i: usize = lo;
    while i < hi
        invariant
            lo <= i <= hi <= v@.len(),
            forall|j: int| lo <= j < i ==> v@[j] != c,
        decreases hi - i,
    {
        if v[i] == c {
            return i;
        }
        i = i + 1;
    }
    i
}

/// The trim bounds of `v[lo..hi)`: the subrange `[a, b)` is the trimmed
/// content.
pub fn trim_bounds(v: &Vec<char>, lo: usize, hi: usize) -> (r: (usize, usize))
    requires
        lo <= hi <= v@.len(),
    ensures
        lo <= r.0 <= r.1 <= hi,
        trimmed(v@.subrange(lo as int, hi as int)) =~= v@.subrange(r.0 as int, r.1 as int),
        trim_stable(v@.subrange(r.0 as int, r.1 as int)),
{
    let ghost s = v@.subrange(lo as int, hi as int);
    let mut a: usize = lo;
    while a < hi && is_ws_char(v[a])
        invariant
            lo <= a <= hi <= v@.len(),
            forall|j: int| lo <= j < a ==> is_ws(v@[j]),
        decreases hi - a,
    {
        a = a + 1;
    }
    let mut b: usize = hi;
    while b > a && is_ws_char(v[b - 1])
        invariant
            lo <= a <= b <= hi <= v@.len(),
            forall|j: int| b <= j < hi ==> is_ws(v@[j]),
        decreases b,
    {
        b = b - 1;
    }
    proof {
        lemma_trim_front_skip(s, a - lo);
        assert(s.skip(a - lo) =~= v@.subrange(a as int, hi as int));
        let t = v@.subrange(a as int, hi as int);
        lemma_trim_back_take(t, b - a);
        assert(t.take(b - a) =~= v@.subrange(a as int, b as int));
    }
    (a, b)
}

/// A copy of `s` without leading or trailing whitespace, as `str::trim`
/// returns it.
pub fn trim_copy(s: &str) -> (r: String)
    ensures
        r@ =~= trimmed(s@),
        trim_stable(r@),
{
    let v = str_to_chars(s);
    let (a, b) = trim_bounds(&v, 0, v.len());
    proof {
        assert(v@.subrange(0, v@.len() as int) =~= s@);
    }
    let piece = s.substring_char(a, b);
    piece.to_owned()
}

} // verus!
