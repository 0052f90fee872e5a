//! Character-level primitives over texts held as sequences of `char`:
//! whitespace trimming, searching for delimiter marks, literal replacement.
use vstd::prelude::*;

verus! {

/// The delimiter character of the macro grammar.
pub const MARK: char = '#';

/// Unicode's White_Space property: the characters that `char::is_whitespace`
/// accepts and that `str::trim` strips.
pub open spec fn is_space(c: char) -> bool {
    let u = c as u32;
    ||| 0x09 <= u <= 0x0d
    ||| u == 0x20
    ||| u == 0x85
    ||| u == 0xa0
    ||| u == 0x1680
    ||| 0x2000 <= u <= 0x200a
    ||| u == 0x2028
    ||| u == 0x2029
    ||| u == 0x202f
    ||| u == 0x205f
    ||| u == 0x3000
}

/// `s` without its leading whitespace.
pub open spec fn trim_start(s: Seq<char>) -> Seq<char>
    decreases s.len(),
{
    if s.len() > 0 && is_space(s[0]) {
        trim_start(s.drop_first())
    } else {
        s
    }
}

/// `s` without its trailing whitespace.
pub open spec fn trim_end(s: Seq<char>) -> Seq<char>
    decreases s.len(),
{
    if s.len() > 0 && is_space(s.last()) {
        trim_end(s.drop_last())
    } else {
        s
    }
}

/// `s` without leading and trailing whitespace; interior whitespace is kept.
pub open spec fn trim(s: Seq<char>) -> Seq<char> {
    trim_end(trim_start(s))
}

/// The first position at or after `i` that holds a single mark.
pub open spec fn next_mark(t: Seq<char>, i: int) -> Option<int>
    decreases t.len() - i,
{
    if i < 0 || i >= t.len() {
        None
    } else if t[i] == MARK {
        Some(i)
    } else {
        next_mark(t, i + 1)
    }
}

/// Whether a double mark begins at position `k` of `t`.
pub open spec fn double_at(t: Seq<char>, k: int) -> bool {
    0 <= k && k + 1 < t.len() && t[k] == MARK && t[k + 1] == MARK
}

/// The first position at or after `i` where a double mark begins.
pub open spec fn next_double(t: Seq<char>, i: int) -> Option<int>
    decreases t.len() - i,
{
    if i < 0 || i + 1 >= t.len() {
        None
    } else if double_at(t, i) {
        Some(i)
    } else {
        next_double(t, i + 1)
    }
}

/// `rep` before every character of `s` and once more at its end: what
/// replacing the empty pattern gives.
pub open spec fn interleave(s: Seq<char>, rep: Seq<char>) -> Seq<char>
    decreases s.len(),
{
    if s.len() == 0 {
        rep
    } else {
        rep + seq![s[0]] + interleave(s.drop_first(), rep)
    }
}

/// Every occurrence of `pat` in `s` replaced by `rep`, as `str::replace`
/// does: matches are found left to right and do not overlap, and the
/// replacement text is never searched again.
pub open spec fn replace_all(s: Seq<char>, pat: Seq<char>, rep: Seq<char>) -> Seq<char>
    decreases s.len(),
{
    if pat.len() == 0 {
        interleave(s, rep)
    } else if s.len() == 0 {
        s
    } else if pat.len() <= s.len() && s.take(pat.len() as int) == pat {
        rep + replace_all(s.skip(pat.len() as int), pat, rep)
    } else {
        seq![s[0]] + replace_all(s.drop_first(), pat, rep)
    }
}

/// `next_mark` finds the first single mark at or after `i`, and finds none
/// exactly when there is none.
pub proof fn lemma_next_mark(t: Seq<char>, i: int)
    requires
        0 <= i,
    ensures
        match next_mark(t, i) {
            Some(m) => i <= m < t.len() && t[m] == MARK && forall|k: int|
                i <= k < m ==> t[k] != MARK,
            None => forall|k: int| i <= k < t.len() ==> t[k] != MARK,
        },
    decreases t.len() - i,
{
    if i < t.len() && t[i] != MARK {
        lemma_next_mark(t, i + 1);
    }
}

/// `next_double` finds the first double mark at or after `i`, and finds none
/// exactly when there is none.
pub proof fn lemma_next_double(t: Seq<char>, i: int)
    requires
        0 <= i,
    ensures
        match next_double(t, i) {
            Some(d) => i <= d && double_at(t, d) && forall|k: int|
                i <= k < d ==> !#[trigger] double_at(t, k),
            None => forall|k: int| i <= k ==> !#[trigger] double_at(t, k),
        },
    decreases t.len() - i,
{
    if i + 1 < t.len() && !double_at(t, i) {
        lemma_next_double(t, i + 1);
    }
}

/// The characters of `s`, in order.
pub fn chars_of(s: &str) -> (r: Vec<char>)
    ensures
        r@ == s@,
{
    let mut r: Vec<char> = Vec::new();
    for c in it: s.chars()
        invariant
            r@ == it.seq().take(it.index() as int),
            it.seq() == s@,
    {
        r.push(c);
    }
    r
}

/// Relies on `String::from_iter`: the string holds the given characters in order.
#[verifier::external_body]
pub(crate) fn string_of(cs: Vec<char>) -> (r: String)
    ensures
        r@ == cs@,
{
    String::from_iter(cs)
}

/// Whether `c` is whitespace.
pub fn is_space_char(c: char) -> (r: bool)
    ensures
        r == is_space(c),
{
    let u = c as u32;
    (0x09 <= u && u <= 0x0d) || u == 0x20 || u == 0x85 || u == 0xa0 || u == 0x1680 || (0x2000
        <= u && u <= 0x200a) || u == 0x2028 || u == 0x2029 || u == 0x202f || u == 0x205f || u
        == 0x3000
}

/// Appends `src[lo..hi]` to `out`.
pub fn push_range(out: &mut Vec<char>, src: &Vec<char>, lo: usize, hi: usize)
    requires
        lo <= hi <= src.len(),
    ensures
        final(out)@ == old(out)@ + src@.subrange(lo as int, hi as int),
{
    let mut i: usize = lo;
    while i < hi
        invariant
            lo <= i <= hi <= src.len(),
            out@ == old(out)@ + src@.subrange(lo as int, i as int),
        decreases hi - i,
    {
        out.push(src[i]);
        i = i + 1;
        assert(out@ =~= old(out)@ + src@.subrange(lo as int, i as int));
    }
}

/// The text `t[lo..hi]` without leading and trailing whitespace.
pub fn trimmed(t: &Vec<char>, lo: usize, hi: usize) -> (r: Vec<char>)
    requires
        lo <= hi <= t.len(),
    ensures
        r@ == trim(t@.subrange(lo as int, hi as int)),
{
    let mut a: usize = lo;
    while a < hi && is_space_char(t[a])
        invariant
            lo <= a <= hi <= t.len(),
            trim_start(t@.subrange(lo as int, hi as int)) == trim_start(
                t@.subrange(a as int, hi as int),
            ),
        decreases hi - a,
    {
        assert(t@.subrange(a as int, hi as int).drop_first() =~= t@.subrange(
            a + 1,
            hi as int,
        ));
        a = a + 1;
    }
    let mut b: usize = hi;
    while a < b && is_space_char(t[b - 1])
        invariant
            lo <= a <= b <= hi <= t.len(),
            trim_start(t@.subrange(lo as int, hi as int)) == t@.subrange(a as int, hi as int),
            trim(t@.subrange(lo as int, hi as int)) == trim_end(t@.subrange(a as int, b as int)),
        decreases b - a,
    {
        assert(t@.subrange(a as int, b as int).drop_last() =~= t@.subrange(
            a as int,
            b - 1,
        ));
        b = b - 1;
    }
    let mut r: Vec<char> = Vec::new();
    push_range(&mut r, t, a, b);
    assert(r@ =~= t@.subrange(a as int, b as int));
    r
}

/// The first position at or after `i` that holds a single mark.
pub fn find_mark(t: &Vec<char>, i: usize) -> (r: Option<usize>)
    requires
        i <= t.len(),
    ensures
        match r {
            Some(j) => next_mark(t@, i as int) == Some(j as int),
            None => next_mark(t@, i as int) is None,
        },
{
    let mut j: usize = i;
    while j < t.len()
        invariant
            i <= j <= t.len(),
            next_mark(t@, i as int) == next_mark(t@, j as int),
        decreases t.len() - j,
    {
        if t[j] == MARK {
            return Some(j);
        }
        j = j + 1;
    }
    None
}

/// The first position at or after `i` where a double mark begins.
pub fn find_double(t: &Vec<char>, i: usize) -> (r: Option<usize>)
    requires
        i <= t.len(),
    ensures
        match r {
            Some(j) => next_double(t@, i as int) == Some(j as int),
            None => next_double(t@, i as int) is None,
        },
{
    let mut j: usize = i;
    while t.len() - j >= 2
        invariant
            i <= j <= t.len(),
            next_double(t@, i as int) == next_double(t@, j as int),
        decreases t.len() - j,
    {
        if t[j] == MARK && t[j + 1] == MARK {
            return Some(j);
        }
        j = j + 1;
    }
    None
}

/// Whether `pat` occurs in `t` at position `i`.
pub fn occurs_at(t: &Vec<char>, i: usize, pat: &Vec<char>) -> (r: bool)
    requires
        i <= t.len(),
    ensures
        r == (i + pat.len() <= t.len() && t@.subrange(i as int, i + pat.len()) == pat@),
{
    if pat.len() > t.len() - i {
        return false;
    }
    let mut k: usize = 0;
    while k < pat.len()
        invariant
            i + pat.len() <= t.len(),
            k <= pat.len(),
            t@.subrange(i as int, i + k) == pat@.take(k as int),
        decreases pat.len() - k,
    {
        if t[i + k] != pat[k] {
            assert(t@.subrange(i as int, i + pat.len())[k as int] != pat@[k as int]);
            return false;
        }
        k = k + 1;
        assert(t@.subrange(i as int, i + k) =~= pat@.take(k as int));
    }
    assert(pat@.take(k as int) =~= pat@);
    true
}

/// Every occurrence of `pat` in `s` replaced by `rep`, left to right.
pub fn replace(s: &Vec<char>, pat: &Vec<char>, rep: &Vec<char>) -> (r: Vec<char>)
    ensures
        r@ == replace_all(s@, pat@, rep@),
{
    let mut out: Vec<char> = Vec::new();
    let mut i: usize = 0;
    assert(s@.skip(0) =~= s@);
    assert(out@ + replace_all(s@, pat@, rep@) =~= replace_all(s@, pat@, rep@));
    if pat.len() == 0 {
        while i < s.len()
            invariant
                i <= s.len(),
                pat@.len() == 0,
                out@ + interleave(s@.skip(i as int), rep@) == replace_all(s@, pat@, rep@),
            decreases s.len() - i,
        {
            let ghost before = out@;
            push_range(&mut out, rep, 0, rep.len());
            out.push(s[i]);
            assert(s@.skip(i as int).drop_first() =~= s@.skip(i + 1));
            assert(rep@.subrange(0, rep@.len() as int) =~= rep@);
            assert(out@ + interleave(s@.skip(i + 1), rep@) =~= before + interleave(
                s@.skip(i as int),
                rep@,
            ));
            i = i + 1;
        }
        assert(s@.skip(i as int) =~= Seq::<char>::empty());
        push_range(&mut out, rep, 0, rep.len());
        assert(rep@.subrange(0, rep@.len() as int) =~= rep@);
        assert(out@ =~= replace_all(s@, pat@, rep@));
        return out;
    }
    while i < s.len()
        invariant
            i <= s.len(),
            pat@.len() > 0,
            out@ + replace_all(s@.skip(i as int), pat@, rep@) == replace_all(s@, pat@, rep@),
        decreases s.len() - i,
    {
        let ghost before = out@;
        let ghost rest = s@.skip(i as int);
        if occurs_at(s, i, pat) {
            assert(rest.take(pat@.len() as int) =~= s@.subrange(i as int, i + pat.len()));
            assert(rest.skip(pat@.len() as int) =~= s@.skip(i + pat.len()));
            push_range(&mut out, rep, 0, rep.len());
            assert(rep@.subrange(0, rep@.len() as int) =~= rep@);
            i = i + pat.len();
            assert(out@ + replace_all(s@.skip(i as int), pat@, rep@) =~= before + replace_all(
                rest,
                pat@,
                rep@,
            ));
        } else {
            assert(pat@.len() <= rest.len() ==> rest.take(pat@.len() as int) =~= s@.subrange(
                i as int,
                i + pat.len(),
            ));
            assert(rest.drop_first() =~= s@.skip(i + 1));
            out.push(s[i]);
            i = i + 1;
            assert(out@ + replace_all(s@.skip(i as int), pat@, rep@) =~= before + replace_all(
                rest,
                pat@,
                rep@,
            ));
        }
    }
    assert(s@.skip(i as int) =~= Seq::<char>::empty());
    assert(out@ + Seq::<char>::empty() =~= out@);
    out
}

} // verus!
