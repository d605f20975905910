//! Character classes and line splitting for the song text format.
//!
//! The format is line oriented: the input is cut at every `'\n'`, the
//! `'\r'` of a two-character line ending is dropped, and a trailing empty
//! piece after a final `'\n'` is not counted as a line.

use vstd::prelude::*;

verus! {

/// The characters a tag name may consist of: ASCII letters and the digits 1 to 3.
pub open spec fn is_name_char(c: char) -> bool {
    ('A' <= c && c <= 'Z') || ('a' <= c && c <= 'z') || c == '1' || c == '2' || c == '3'
}

/// ASCII decimal digit.
pub open spec fn is_digit(c: char) -> bool {
    '0' <= c && c <= '9'
}

/// Unicode whitespace, the class the line grammar tolerates between tokens.
pub open spec fn is_space(c: char) -> bool {
    ||| c == ' '
    ||| ('\u{9}' <= c && c <= '\u{d}')
    ||| c == '\u{85}'
    ||| c == '\u{a0}'
    ||| c == '\u{1680}'
    ||| ('\u{2000}' <= c && c <= '\u{200a}')
    ||| c == '\u{2028}'
    ||| c == '\u{2029}'
    ||| c == '\u{202f}'
    ||| c == '\u{205f}'
    ||| c == '\u{3000}'
}

/// Exec mirror of [`is_name_char`].
pub fn name_char(c: char) -> (b: bool)
    ensures
        b == is_name_char(c),
{
    ('A' <= c && c <= 'Z') || ('a' <= c && c <= 'z') || c == '1' || c == '2' || c == '3'
}

/// Exec mirror of [`is_digit`].
pub fn digit_char(c: char) -> (b: bool)
    ensures
        b == is_digit(c),
{
    '0' <= c && c <= '9'
}

/// Exec mirror of [`is_space`].
pub fn space_char(c: char) -> (b: bool)
    ensures
        b == is_space(c),
{
    c == ' ' || ('\u{9}' <= c && c <= '\u{d}') || c == '\u{85}' || c == '\u{a0}'
        || c == '\u{1680}' || ('\u{2000}' <= c && c <= '\u{200a}') || c == '\u{2028}'
        || c == '\u{2029}' || c == '\u{202f}' || c == '\u{205f}' || c == '\u{3000}'
}

/// End of the run of decimal digits that starts at `i`: the first index at
/// or after `i` that is out of range or holds a non-digit.
pub open spec fn digit_run(s: Seq<char>, i: int) -> int
    decreases s.len() - i,
{
    if i < 0 || i >= s.len() {
        i
    } else if !is_digit(s[i]) {
        i
    } else {
        digit_run(s, i + 1)
    }
}

pub proof fn lemma_digit_run(s: Seq<char>, i: int)
    requires
        0 <= i <= s.len(),
    ensures
        i <= digit_run(s, i) <= s.len(),
        forall|k: int| i <= k < digit_run(s, i) ==> is_digit(#[trigger] s[k]),
        digit_run(s, i) < s.len() ==> !is_digit(s[digit_run(s, i)]),
    decreases s.len() - i,
{
    if i < s.len() && is_digit(s[i]) {
        lemma_digit_run(s, i + 1);
    }
}

pub proof fn lemma_digit_run_at(s: Seq<char>, i: int, j: int)
    requires
        0 <= i <= j <= s.len(),
        forall|k: int| i <= k < j ==> is_digit(#[trigger] s[k]),
        j < s.len() ==> !is_digit(s[j]),
    ensures
        digit_run(s, i) == j,
    decreases j - i,
{
    if i < j {
        lemma_digit_run_at(s, i + 1, j);
    }
}

/// Exec scan for [`digit_run`].
pub fn digit_run_exec(s: &str, i: usize) -> (r: usize)
    requires
        i <= s@.len(),
    ensures
        r == digit_run(s@, i as int),
        i <= r <= s@.len(),
{
    let n = s.unicode_len();
    let mut j = i;
    while j < n && digit_char(s.get_char(j))
        invariant
            n == s@.len(),
            i <= j <= n,
            forall|k: int| i <= k < j ==> is_digit(#[trigger] s@[k]),
        decreases n - j,
    {
        j += 1;
    }
    proof {
        lemma_digit_run_at(s@, i as int, j as int);
    }
    j
}

/// End of the run of whitespace that starts at `i`.
pub open spec fn space_run(s: Seq<char>, i: int) -> int
    decreases s.len() - i,
{
    if i < 0 || i >= s.len() {
        i
    } else if !is_space(s[i]) {
        i
    } else {
        space_run(s, i + 1)
    }
}

pub proof fn lemma_space_run(s: Seq<char>, i: int)
    requires
        0 <= i <= s.len(),
    ensures
        i <= space_run(s, i) <= s.len(),
        forall|k: int| i <= k < space_run(s, i) ==> is_space(#[trigger] s[k]),
        space_run(s, i) < s.len() ==> !is_space(s[space_run(s, i)]),
    decreases s.len() - i,
{
    if i < s.len() && is_space(s[i]) {
        lemma_space_run(s, i + 1);
    }
}

pub proof fn lemma_space_run_at(s: Seq<char>, i: int, j: int)
    requires
        0 <= i <= j <= s.len(),
        forall|k: int| i <= k < j ==> is_space(#[trigger] s[k]),
        j < s.len() ==> !is_space(s[j]),
    ensures
        space_run(s, i) == j,
    decreases j - i,
{
    if i < j {
        lemma_space_run_at(s, i + 1, j);
    }
}

/// Exec scan for [`space_run`].
pub fn space_run_exec(s: &str, i: usize) -> (r: usize)
    requires
        i <= s@.len(),
    ensures
        r == space_run(s@, i as int),
        i <= r <= s@.len(),
{
    let n = s.unicode_len();
    let mut j = i;
    while j < n && space_char(s.get_char(j))
        invariant
            n == s@.len(),
            i <= j <= n,
            forall|k: int| i <= k < j ==> is_space(#[trigger] s@[k]),
        decreases n - j,
    {
        j += 1;
    }
    proof {
        lemma_space_run_at(s@, i as int, j as int);
    }
    j
}

/// End of the run of tag-name characters that starts at `i`.
pub open spec fn name_run(s: Seq<char>, i: int) -> int
    decreases s.len() - i,
{
    if i < 0 || i >= s.len() {
        i
    } else if !is_name_char(s[i]) {
        i
    } else {
        name_run(s, i + 1)
    }
}

pub proof fn lemma_name_run(s: Seq<char>, i: int)
    requires
        0 <= i <= s.len(),
    ensures
        i <= name_run(s, i) <= s.len(),
        forall|k: int| i <= k < name_run(s, i) ==> is_name_char(#[trigger] s[k]),
        name_run(s, i) < s.len() ==> !is_name_char(s[name_run(s, i)]),
    decreases s.len() - i,
{
    if i < s.len() && is_name_char(s[i]) {
        lemma_name_run(s, i + 1);
    }
}

pub proof fn lemma_name_run_at(s: Seq<char>, i: int, j: int)
    requires
        0 <= i <= j <= s.len(),
        forall|k: int| i <= k < j ==> is_name_char(#[trigger] s[k]),
        j < s.len() ==> !is_name_char(s[j]),
    ensures
        name_run(s, i) == j,
    decreases j - i,
{
    if i < j {
        lemma_name_run_at(s, i + 1, j);
    }
}

/// Exec scan for [`name_run`].
pub fn name_run_exec(s: &str, i: usize) -> (r: usize)
    requires
        i <= s@.len(),
    ensures
        r == name_run(s@, i as int),
        i <= r <= s@.len(),
{
    let n = s.unicode_len();
    let mut j = i;
    while j < n && name_char(s.get_char(j))
        invariant
            n == s@.len(),
            i <= j <= n,
            forall|k: int| i <= k < j ==> is_name_char(#[trigger] s@[k]),
        decreases n - j,
    {
        j += 1;
    }
    proof {
        lemma_name_run_at(s@, i as int, j as int);
    }
    j
}

/// A line piece with a single trailing carriage return removed.
pub open spec fn strip_cr(l: Seq<char>) -> Seq<char> {
    if l.len() > 0 && l.last() == '\r' {
        l.drop_last()
    } else {
        l
    }
}

/// Index of the first `'\n'` in `s`, or `s.len()` when there is none.
pub open spec fn find_nl(s: Seq<char>) -> nat
    decreases s.len(),
{
    if s.len() == 0 {
        0
    } else if s[0] == '\n' {
        0
    } else {
        1 + find_nl(s.skip(1))
    }
}

pub proof fn lemma_find_nl(s: Seq<char>)
    ensures
        find_nl(s) <= s.len(),
        forall|k: int| 0 <= k < find_nl(s) ==> s[k] != '\n',
        find_nl(s) < s.len() ==> s[find_nl(s) as int] == '\n',
    decreases s.len(),
{
    if s.len() == 0 {
    } else if s[0] == '\n' {
    } else {
        lemma_find_nl(s.skip(1));
        assert forall|k: int| 0 <= k < find_nl(s) implies s[k] != '\n' by {
            if k >= 1 {
                assert(s.skip(1)[k - 1] != '\n');
            }
        }
        if find_nl(s) < s.len() {
            assert(s.skip(1)[find_nl(s) - 1] == '\n');
        }
    }
}

/// `find_nl` is pinned down by the first-occurrence description.
pub proof fn lemma_find_nl_at(s: Seq<char>, i: int)
    requires
        0 <= i <= s.len(),
        forall|k: int| 0 <= k < i ==> s[k] != '\n',
        i < s.len() ==> s[i] == '\n',
    ensures
        find_nl(s) == i,
    decreases s.len(),
{
    if s.len() == 0 {
    } else if s[0] == '\n' {
        assert(i == 0);
    } else {
        assert(i >= 1);
        lemma_find_nl_at(s.skip(1), i - 1);
    }
}

/// The lines of `s`: split at every `'\n'`, strip the `'\r'` of a `\r\n`
/// ending, and do not count an empty piece after a final `'\n'`. A final
/// piece without any line ending keeps a trailing `'\r'`: only the two-byte
/// ending is recognized.
pub open spec fn split_lines(s: Seq<char>) -> Seq<Seq<char>>
    decreases s.len(),
{
    if s.len() == 0 {
        Seq::empty()
    } else {
        let i = find_nl(s) as int;
        if i >= s.len() {
            seq![s]
        } else {
            seq![strip_cr(s.take(i))] + split_lines(s.skip(i + 1))
        }
    }
}

/// The views of a sequence of string slices.
pub open spec fn views_of(r: Seq<&str>) -> Seq<Seq<char>> {
    Seq::new(r.len(), |i: int| r[i]@)
}

/// Cut `s` into its lines; the resulting views are exactly [`split_lines`].
pub fn split_lines_exec<'a>(s: &'a str) -> (r: Vec<&'a str>)
    ensures
        views_of(r@) == split_lines(s@),
{
    let n = s.unicode_len();
    let mut r: Vec<&'a str> = Vec::new();
    let mut pos: usize = 0;
    proof {
        assert(views_of(r@) =~= Seq::<Seq<char>>::empty());
        assert(s@.skip(0) =~= s@);
    }
    while pos < n
        invariant
            n == s@.len(),
            pos <= n,
            split_lines(s@) == views_of(r@) + split_lines(s@.skip(pos as int)),
        decreases n - pos,
    {
        let ghost tail = s@.skip(pos as int);
        let mut j = pos;
        while j < n && s.get_char(j) != '\n'
            invariant
                n == s@.len(),
                pos <= j <= n,
                forall|k: int| pos <= k < j ==> s@[k] != '\n',
            decreases n - j,
        {
            j += 1;
        }
        proof {
            assert(tail.len() == n - pos);
            assert forall|k: int| 0 <= k < j - pos implies tail[k] != '\n' by {
                assert(tail[k] == s@[pos + k]);
            }
            if j < n {
                assert(tail[j - pos] == s@[j as int]);
            }
            lemma_find_nl_at(tail, j - pos);
        }
        let end = if j < n && j > pos && s.get_char(j - 1) == '\r' {
            j - 1
        } else {
            j
        };
        let piece = s.substring_char(pos, end);
        proof {
            let seg = s@.subrange(pos as int, j as int);
            assert(seg =~= tail.take(j - pos));
            if j < n {
                if j > pos && s@[j - 1] == '\r' {
                    assert(seg.last() == '\r');
                    assert(strip_cr(seg) =~= s@.subrange(pos as int, end as int));
                } else {
                    assert(strip_cr(seg) =~= s@.subrange(pos as int, end as int));
                }
            } else {
                assert(seg =~= s@.subrange(pos as int, end as int));
            }
            if j < n {
                assert(tail.take(j - pos) == seg);
                assert(tail.skip(j - pos + 1) =~= s@.skip(j + 1));
                assert(split_lines(tail) == seq![strip_cr(seg)] + split_lines(s@.skip(j + 1)));
            } else {
                assert(tail =~= seg);
                assert(split_lines(tail) == seq![seg]);
                assert(s@.skip(n as int) =~= Seq::<char>::empty());
                assert(split_lines(tail) =~= seq![seg] + split_lines(s@.skip(n as int)));
            }
        }
        r.push(piece);
        proof {
            assert(views_of(r@) =~= views_of(r@.drop_last()).push(piece@));
        }
        pos = if j < n {
            j + 1
        } else {
            n
        };
        proof {
            assert(views_of(r@) + split_lines(s@.skip(pos as int)) =~= (views_of(r@.drop_last())
                + split_lines(tail)));
        }
    }
    proof {
        assert(s@.skip(n as int) =~= Seq::<char>::empty());
        assert(views_of(r@) + split_lines(s@.skip(pos as int)) =~= views_of(r@));
    }
    r
}

/// Character-for-character string equality, decided without assuming anything
/// about the byte encoding.
pub fn str_eq(a: &str, b: &str) -> (r: bool)
    ensures
        r == (a@ == b@),
{
    let na = a.unicode_len();
    let nb = b.unicode_len();
    if na != nb {
        return false;
    }
    let mut i: usize = 0;
    while i < na
        invariant
            na == a@.len(),
            na == b@.len(),
            i <= na,
            forall|k: int| 0 <= k < i ==> a@[k] == b@[k],
        decreases na - i,
    {
        if a.get_char(i) != b.get_char(i) {
            return false;
        }
        i += 1;
    }
    proof {
        assert(a@ =~= b@);
    }
    true
}

} // verus!
