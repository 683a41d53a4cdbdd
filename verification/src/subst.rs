//! Textual substitution primitives over character sequences: locating a
//! pattern, replacing every occurrence of it, and splitting on a separator.
//! Alias resolution and command generation are built on these.

use vstd::prelude::*;

verus! {

/// `s` with every occurrence of `pat` replaced by `val`, scanning left to
/// right over non-overlapping occurrences. An empty pattern replaces
/// nothing.
pub open spec fn replace_all(s: Seq<char>, pat: Seq<char>, val: Seq<char>) -> Seq<char>
    decreases s.len(),
{
    if pat.len() == 0 || s.len() < pat.len() {
        s
    } else if s.subrange(0, pat.len() as int) == pat {
        val + replace_all(s.subrange(pat.len() as int, s.len() as int), pat, val)
    } else {
        seq![s[0]] + replace_all(s.subrange(1, s.len() as int), pat, val)
    }
}

/// `pat` occurs somewhere in `s` as a contiguous run.
pub open spec fn contains_pat(s: Seq<char>, pat: Seq<char>) -> bool {
    exists|i: int|
        0 <= i && i + pat.len() <= s.len() && #[trigger] s.subrange(i, i + pat.len()) == pat
}

/// Compares the window of `s` starting at `i` against `pat`.
fn window_eq(s: &Vec<char>, pat: &Vec<char>, i: usize) -> (r: bool)
    requires
        i + pat.len() <= s.len(),
    ensures
        r <==> s@.subrange(i as int, i + pat@.len()) == pat@,
{
    let m = pat.len();
    let n = s.len();
    let mut j: usize = 0;
    while j < m
        invariant
            j <= m,
            m == pat@.len(),
            n == s@.len(),
            i + m <= n,
            forall|k: int| 0 <= k < j ==> s@[i + k] == pat@[k],
        decreases m - j,
    {
        if s[i + j] != pat[j] {
            assert(s@.subrange(i as int, i + pat@.len())[j as int] == s@[i + j]);
            return false;
        }
        j = j + 1;
    }
    assert(s@.subrange(i as int, i + pat@.len()) =~= pat@);
    true
}

/// Reports whether `pat` occurs in `s`.
pub fn find_pat(s: &Vec<char>, pat: &Vec<char>) -> (r: bool)
    ensures
        r <==> contains_pat(s@, pat@),
{
    let m = pat.len();
    let n = s.len();
    if m > n {
        assert(!contains_pat(s@, pat@));
        return false;
    }
    if m == 0 {
        proof {
            assert(s@.subrange(0, 0 + pat@.len() as int) =~= pat@);
            assert(contains_pat(s@, pat@));
        }
        return true;
    }
    let mut i: usize = 0;
    while i <= n - m
        invariant
            1 <= m <= n,
            n == s@.len(),
            m == pat@.len(),
            i <= n - m + 1,
            forall|k: int| 0 <= k < i ==> #[trigger] s@.subrange(k, k + pat@.len()) != pat@,
        decreases n + 1 - i,
    {
        if window_eq(s, pat, i) {
            assert(contains_pat(s@, pat@));
            return true;
        }
        i = i + 1;
    }
    assert(forall|k: int|
        0 <= k && k + pat@.len() <= s@.len() ==> #[trigger] s@.subrange(k, k + pat@.len())
            != pat@);
    false
}

/// Appends every character of `src` to `dst`.
pub fn append_chars(dst: &mut Vec<char>, src: &Vec<char>)
    ensures
        final(dst)@ == old(dst)@ + src@,
{
    let mut j: usize = 0;
    while j < src.len()
        invariant
            j <= src.len(),
            dst@ == old(dst)@ + src@.subrange(0, j as int),
        decreases src.len() - j,
    {
        dst.push(src[j]);
        assert(old(dst)@ + src@.subrange(0, j as int) + seq![src@[j as int]] =~= old(dst)@
            + src@.subrange(0, j + 1));
        j = j + 1;
    }
    assert(old(dst)@ + src@.subrange(0, src@.len() as int) =~= old(dst)@ + src@);
}

/// Replaces every occurrence of `pat` in `s` by `val`, left to right over
/// non-overlapping occurrences.
pub fn replace_all_exec(s: &Vec<char>, pat: &Vec<char>, val: &Vec<char>) -> (out: Vec<char>)
    ensures
        out@ == replace_all(s@, pat@, val@),
{
    let m = pat.len();
    let n = s.len();
    let mut out: Vec<char> = Vec::new();
    if m == 0 {
        append_chars(&mut out, s);
        assert(Seq::<char>::empty() + s@ =~= s@);
        return out;
    }
    proof {
        assert(s@.subrange(0, n as int) =~= s@);
        assert(Seq::<char>::empty() + replace_all(s@, pat@, val@) =~= replace_all(
            s@,
            pat@,
            val@,
        ));
    }
    let mut i: usize = 0;
    while i < n
        invariant
            i <= n,
            n == s@.len(),
            m == pat@.len(),
            m >= 1,
            out@ + replace_all(s@.subrange(i as int, n as int), pat@, val@) == replace_all(
                s@,
                pat@,
                val@,
            ),
        decreases n - i,
    {
        let ghost tail = s@.subrange(i as int, n as int);
        if m <= n - i && window_eq(s, pat, i) {
            proof {
                assert(tail.subrange(0, m as int) =~= s@.subrange(i as int, i + m));
                assert(tail.subrange(m as int, tail.len() as int) =~= s@.subrange(
                    i + m,
                    n as int,
                ));
                assert(replace_all(tail, pat@, val@) == val@ + replace_all(
                    s@.subrange(i + m, n as int),
                    pat@,
                    val@,
                ));
                assert(out@ + val@ + replace_all(s@.subrange(i + m, n as int), pat@, val@)
                    =~= out@ + (val@ + replace_all(s@.subrange(i + m, n as int), pat@, val@)));
            }
            append_chars(&mut out, val);
            i = i + m;
        } else {
            proof {
                assert(tail.subrange(1, tail.len() as int) =~= s@.subrange(i + 1, n as int));
                if i + m <= n {
                    assert(m <= n - i);
                    assert(tail.subrange(0, m as int) =~= s@.subrange(i as int, i + m));
                    assert(tail.subrange(0, m as int) != pat@);
                }
                assert(replace_all(tail, pat@, val@) == seq![s@[i as int]] + replace_all(
                    s@.subrange(i + 1, n as int),
                    pat@,
                    val@,
                ));
                assert(out@ + seq![s@[i as int]] + replace_all(
                    s@.subrange(i + 1, n as int),
                    pat@,
                    val@,
                ) =~= out@ + (seq![s@[i as int]] + replace_all(
                    s@.subrange(i + 1, n as int),
                    pat@,
                    val@,
                )));
            }
            out.push(s[i]);
            i = i + 1;
        }
    }
    assert(s@.subrange(n as int, n as int) =~= Seq::<char>::empty());
    assert(out@ + Seq::<char>::empty() =~= out@);
    out
}

/// Compares two character vectors for equality of their contents.
pub fn chars_eq(a: &Vec<char>, b: &Vec<char>) -> (r: bool)
    ensures
        r <==> a@ == b@,
{
    let n = a.len();
    if n != b.len() {
        return false;
    }
    let mut i: usize = 0;
    while i < n
        invariant
            i <= n,
            n == a@.len(),
            n == b@.len(),
            forall|k: int| 0 <= k < i ==> a@[k] == b@[k],
        decreases n - i,
    {
        if a[i] != b[i] {
            return false;
        }
        i = i + 1;
    }
    assert(a@ =~= b@);
    true
}

/// The placeholder text that stands for alias `key` inside a template:
/// the key wrapped in braces.
pub open spec fn spec_placeholder(key: Seq<char>) -> Seq<char> {
    seq!['{'] + key + seq!['}']
}

/// Builds the placeholder text for an alias key.
pub fn make_placeholder(key: &Vec<char>) -> (r: Vec<char>)
    ensures
        r@ == spec_placeholder(key@),
{
    let mut r: Vec<char> = Vec::new();
    r.push('{');
    append_chars(&mut r, key);
    r.push('}');
    assert(r@ =~= spec_placeholder(key@));
    r
}

/// Collects the characters of a string slice into a vector.
pub fn str_to_chars(s: &str) -> (r: Vec<char>)
    ensures
        r@ == s@,
{
    let n = s.unicode_len();
    let mut r: Vec<char> = Vec::new();
    let mut i: usize = 0;
    while i < n
        invariant
            i <= n,
            n == s@.len(),
            r@ == s@.subrange(0, i as int),
        decreases n - i,
    {
        r.push(s.get_char(i));
        assert(r@ =~= s@.subrange(0, i + 1));
        i = i + 1;
    }
    assert(r@ =~= s@);
    r
}

/// The pieces of `s` between occurrences of the separator `sep`. Splitting
/// never yields an empty list: a string without the separator is one piece,
/// and adjacent separators enclose an empty piece.
pub open spec fn split_at_char(s: Seq<char>, sep: char) -> Seq<Seq<char>>
    decreases s.len(),
{
    if s.len() == 0 {
        seq![Seq::<char>::empty()]
    } else if s[0] == sep {
        seq![Seq::<char>::empty()] + split_at_char(s.subrange(1, s.len() as int), sep)
    } else {
        let rest = split_at_char(s.subrange(1, s.len() as int), sep);
        seq![seq![s[0]] + rest[0]] + rest.subrange(1, rest.len() as int)
    }
}

/// Splitting always yields at least one piece.
pub proof fn lemma_split_nonempty(s: Seq<char>, sep: char)
    ensures
        split_at_char(s, sep).len() >= 1,
    decreases s.len(),
{
    if s.len() == 0 {
    } else {
        lemma_split_nonempty(s.subrange(1, s.len() as int), sep);
    }
}

/// The split pieces with `c` prefixed onto the first piece.
spec fn prepend_first(c: Seq<char>, ss: Seq<Seq<char>>) -> Seq<Seq<char>>
    recommends
        ss.len() >= 1,
{
    seq![c + ss[0]] + ss.subrange(1, ss.len() as int)
}

/// The character contents of a list of character vectors.
pub open spec fn views_of(ps: Seq<Vec<char>>) -> Seq<Seq<char>> {
    Seq::new(ps.len(), |i: int| ps[i]@)
}

/// Splits `s` at every occurrence of `sep`.
pub fn split_chars(s: &Vec<char>, sep: char) -> (parts: Vec<Vec<char>>)
    ensures
        views_of(parts@) == split_at_char(s@, sep),
        parts@.len() >= 1,
{
    let n = s.len();
    let mut parts: Vec<Vec<char>> = Vec::new();
    let mut cur: Vec<char> = Vec::new();
    let mut i: usize = 0;
    proof {
        assert(s@.subrange(0, n as int) =~= s@);
        lemma_split_nonempty(s@, sep);
        assert(Seq::<char>::empty() + split_at_char(s@, sep)[0] =~= split_at_char(s@, sep)[0]);
        assert(views_of(parts@) + prepend_first(cur@, split_at_char(s@, sep)) =~= prepend_first(
            Seq::<char>::empty(),
            split_at_char(s@, sep),
        ));
        assert(prepend_first(Seq::<char>::empty(), split_at_char(s@, sep)) =~= split_at_char(
            s@,
            sep,
        ));
    }
    while i < n
        invariant
            i <= n,
            n == s@.len(),
            views_of(parts@) + prepend_first(
                cur@,
                split_at_char(s@.subrange(i as int, n as int), sep),
            ) == split_at_char(s@, sep),
        decreases n - i,
    {
        let ghost tail = s@.subrange(i as int, n as int);
        let ghost tail1 = s@.subrange(i + 1, n as int);
        let ghost oldparts = parts@;
        let ghost oldcur = cur@;
        proof {
            assert(tail.subrange(1, tail.len() as int) =~= tail1);
            lemma_split_nonempty(tail1, sep);
        }
        if s[i] == sep {
            proof {
                assert(split_at_char(tail, sep) == seq![Seq::<char>::empty()] + split_at_char(
                    tail1,
                    sep,
                ));
                assert(prepend_first(cur@, split_at_char(tail, sep)) =~= seq![cur@]
                    + split_at_char(tail1, sep));
            }
            let finished = cur;
            cur = Vec::new();
            parts.push(finished);
            proof {
                assert(views_of(parts@) =~= views_of(oldparts) + seq![oldcur]);
                assert(Seq::<char>::empty() + split_at_char(tail1, sep)[0] =~= split_at_char(
                    tail1,
                    sep,
                )[0]);
                assert(prepend_first(Seq::<char>::empty(), split_at_char(tail1, sep))
                    =~= split_at_char(tail1, sep));
                assert((views_of(oldparts) + seq![oldcur]) + split_at_char(tail1, sep)
                    =~= views_of(oldparts) + (seq![oldcur] + split_at_char(tail1, sep)));
                assert(views_of(parts@) + prepend_first(cur@, split_at_char(tail1, sep))
                    =~~= split_at_char(s@, sep));
            }
        } else {
            proof {
                let rest = split_at_char(tail1, sep);
                assert(split_at_char(tail, sep) == seq![seq![tail[0]] + rest[0]] + rest.subrange(
                    1,
                    rest.len() as int,
                ));
                let whole = seq![seq![tail[0]] + rest[0]] + rest.subrange(1, rest.len() as int);
                assert(whole.subrange(1, whole.len() as int) =~= rest.subrange(
                    1,
                    rest.len() as int,
                ));
                assert(cur@ + (seq![tail[0]] + rest[0]) =~= (cur@ + seq![tail[0]]) + rest[0]);
                assert(prepend_first(cur@, split_at_char(tail, sep)) =~~= prepend_first(
                    cur@ + seq![s@[i as int]],
                    rest,
                ));
            }
            cur.push(s[i]);
            assert(views_of(parts@) + prepend_first(cur@, split_at_char(tail1, sep))
                =~~= split_at_char(s@, sep));
        }
        i = i + 1;
    }
    proof {
        let empty_tail = s@.subrange(n as int, n as int);
        assert(empty_tail =~= Seq::<char>::empty());
        assert(split_at_char(empty_tail, sep) == seq![Seq::<char>::empty()]);
        assert(cur@ + Seq::<char>::empty() =~= cur@);
        assert(prepend_first(cur@, split_at_char(empty_tail, sep)) =~= seq![cur@]);
    }
    let ghost oldparts = parts@;
    let ghost oldcur = cur@;
    parts.push(cur);
    proof {
        assert(views_of(parts@) =~= views_of(oldparts) + seq![oldcur]);
        lemma_split_nonempty(s@, sep);
        assert(views_of(parts@) =~= split_at_char(s@, sep));
    }
    parts
}

/// Relies on `String::push`: appends the given character to the end of
/// the string.
pub assume_specification[ String::push ](s: &mut String, c: char)
    ensures
        final(s)@ == old(s)@ + seq![c],
;

/// Builds a string holding exactly the given characters.
pub fn chars_to_string(v: &Vec<char>) -> (r: String)
    ensures
        r@ == v@,
{
    let mut r = String::new();
    let mut i: usize = 0;
    while i < v.len()
        invariant
            i <= v@.len(),
            r@ == v@.subrange(0, i as int),
        decreases v@.len() - i,
    {
        r.push(v[i]);
        assert(r@ =~= v@.subrange(0, i + 1));
        i = i + 1;
    }
    assert(r@ =~= v@);
    r
}

} // verus!
