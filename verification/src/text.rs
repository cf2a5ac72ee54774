//! The character-level model of a text: substring occurrence and the split
//! of a text into lines, together with the executable routines that realise
//! both.

use vstd::prelude::*;
use vstd::string::StrSliceExecFns;

verus! {

/// `needle` occurs in `hay` as a contiguous substring starting at `i`.
pub open spec fn contains_at(hay: Seq<char>, needle: Seq<char>, i: int) -> bool {
    0 <= i && i + needle.len() <= hay.len() && hay.subrange(i, i + needle.len()) == needle
}

/// `needle` occurs somewhere in `hay` as a contiguous substring.  The empty
/// needle occurs in every text, at position zero.
pub open spec fn contains_substring(hay: Seq<char>, needle: Seq<char>) -> bool {
    exists|i: int| contains_at(hay, needle, i)
}

/// Whether `needle` occurs in `hay` as a contiguous run of characters.
pub fn contains_str(hay: &str, needle: &str) -> (r: bool)
    ensures
        r == contains_substring(hay@, needle@),
{
    let n = hay.unicode_len();
    let m = needle.unicode_len();
    if m > n {
        assert(forall|i: int| !contains_at(hay@, needle@, i));
        return false;
    }
    if m == 0 {
        proof {
            assert(hay@.subrange(0, 0) =~= needle@);
            assert(contains_at(hay@, needle@, 0));
        }
        return true;
    }
    let mut i: usize = 0;
    while i <= n - m
        invariant
            0 < m <= n,
            n == hay@.len(),
            m == needle@.len(),
            i <= n - m + 1,
            forall|k: int| 0 <= k < i ==> !contains_at(hay@, needle@, k),
        decreases n - m - i + 1,
    {
        let mut j: usize = 0;
        let mut candidate = true;
        while candidate && j < m
            invariant
                m <= n,
                n == hay@.len(),
                m == needle@.len(),
                i + m <= n,
                j <= m,
                candidate ==> forall|k: int| 0 <= k < j ==> hay@[i + k] == needle@[k],
                !candidate ==> !contains_at(hay@, needle@, i as int),
            decreases (if candidate { 1int } else { 0int }), m - j,
        {
            if hay.get_char(i + j) != needle.get_char(j) {
                proof {
                    if contains_at(hay@, needle@, i as int) {
                        assert(hay@.subrange(i as int, i + m)[j as int] == needle@[j as int]);
                    }
                }
                candidate = false;
            } else {
                j += 1;
            }
        }
        if candidate {
            proof {
                assert(hay@.subrange(i as int, i + m) =~= needle@);
                assert(contains_at(hay@, needle@, i as int));
            }
            return true;
        }
        i += 1;
    }
    assert(forall|k: int| #[trigger] contains_at(hay@, needle@, k) ==> 0 <= k < i);
    false
}

/// The position of the first occurrence of `a` or `b` in `s` at or after
/// `from`, or `s.len()` when neither occurs there.
pub open spec fn find_stop(s: Seq<char>, from: int, a: char, b: char) -> int
    decreases s.len() - from,
{
    if from < 0 || from >= s.len() {
        s.len() as int
    } else if s[from] == a || s[from] == b {
        from
    } else {
        find_stop(s, from + 1, a, b)
    }
}

pub proof fn lemma_find_stop(s: Seq<char>, from: int, a: char, b: char)
    requires
        0 <= from <= s.len(),
    ensures
        from <= find_stop(s, from, a, b) <= s.len(),
        find_stop(s, from, a, b) < s.len() ==> s[find_stop(s, from, a, b)] == a || s[find_stop(
            s,
            from,
            a,
            b,
        )] == b,
        forall|k: int| from <= k < find_stop(s, from, a, b) ==> s[k] != a && s[k] != b,
    decreases s.len() - from,
{
    if from < s.len() && s[from] != a && s[from] != b {
        lemma_find_stop(s, from + 1, a, b);
    }
}

/// A line terminated by a line feed loses one carriage return directly in
/// front of the line feed, so that both bare and carriage-return line breaks
/// delimit lines.
pub open spec fn strip_trailing_cr(s: Seq<char>) -> Seq<char> {
    if s.len() > 0 && s[s.len() - 1] == '\r' {
        s.subrange(0, s.len() - 1)
    } else {
        s
    }
}

/// The lines of `text` starting at position `from`: each line feed ends a
/// line (with a carriage return directly before it dropped), a final line
/// without a terminator stands as it is, and a final terminator opens no
/// further line.
pub open spec fn spec_lines_from(text: Seq<char>, from: int) -> Seq<Seq<char>>
    decreases text.len() - from,
    when 0 <= from
    via spec_lines_from_dec
{
    if from < 0 || from >= text.len() {
        Seq::empty()
    } else {
        let j = find_stop(text, from, '\n', '\n');
        if j >= text.len() {
            seq![text.subrange(from, text.len() as int)]
        } else {
            seq![strip_trailing_cr(text.subrange(from, j))] + spec_lines_from(text, j + 1)
        }
    }
}

#[via_fn]
proof fn spec_lines_from_dec(text: Seq<char>, from: int) {
    if 0 <= from < text.len() {
        lemma_find_stop(text, from, '\n', '\n');
    }
}

/// The ordered sequence of lines of `text`.
pub open spec fn spec_lines(text: Seq<char>) -> Seq<Seq<char>> {
    spec_lines_from(text, 0)
}

/// Splits `text` into its lines.  Each returned element borrows from
/// `text`, so the lines keep their original characters.
pub fn split_lines<'a>(text: &'a str) -> (lines: Vec<&'a str>)
    ensures
        lines.deep_view() == spec_lines(text@),
{
    let n = text.unicode_len();
    let mut lines: Vec<&'a str> = Vec::new();
    let mut pos: usize = 0;
    proof {
        assert(lines.deep_view() =~= Seq::<Seq<char>>::empty());
        assert(spec_lines(text@) =~= lines.deep_view() + spec_lines_from(text@, 0));
    }
    while pos < n
        invariant
            n == text@.len(),
            pos <= n,
            spec_lines(text@) == lines.deep_view() + spec_lines_from(text@, pos as int),
        decreases n - pos,
    {
        let ghost prev = lines.deep_view();
        let mut j: usize = pos;
        let mut found = false;
        while !found && j < n
            invariant
                n == text@.len(),
                pos <= j <= n,
                forall|k: int| pos <= k < j ==> text@[k] != '\n',
                found ==> j < n && text@[j as int] == '\n',
            decreases n - j + (if found { 0int } else { 1int }),
        {
            if text.get_char(j) == '\n' {
                found = true;
            } else {
                j += 1;
            }
        }
        proof {
            lemma_find_stop(text@, pos as int, '\n', '\n');
            let f = find_stop(text@, pos as int, '\n', '\n');
            if f < j {
                assert(text@[f] != '\n');
            }
            if j < f {
                assert(text@[j as int] != '\n');
            }
            assert(f == j as int);
        }
        let mut end: usize = j;
        if j < n {
            if end > pos && text.get_char(end - 1) == '\r' {
                end -= 1;
            }
        }
        let line: &'a str = text.substring_char(pos, end);
        lines.push(line);
        proof {
            assert(lines.deep_view() =~= prev.push(line@));
            let piece = text@.subrange(pos as int, j as int);
            if (j as int) < n {
                assert(line@ =~= strip_trailing_cr(piece));
                assert(spec_lines_from(text@, pos as int) == seq![strip_trailing_cr(piece)]
                    + spec_lines_from(text@, j + 1));
                assert(spec_lines(text@) =~= lines.deep_view() + spec_lines_from(
                    text@,
                    j + 1,
                ));
            } else {
                assert(line@ =~= text@.subrange(pos as int, n as int));
                assert(spec_lines_from(text@, pos as int) == seq![
                    text@.subrange(pos as int, n as int),
                ]);
                assert(spec_lines_from(text@, n as int) =~= Seq::<Seq<char>>::empty());
                assert(spec_lines(text@) =~= lines.deep_view() + spec_lines_from(
                    text@,
                    n as int,
                ));
            }
        }
        pos = if j < n {
            j + 1
        } else {
            n
        };
    }
    proof {
        assert(spec_lines_from(text@, n as int) =~= Seq::<Seq<char>>::empty());
        assert(spec_lines(text@) =~= lines.deep_view());
    }
    lines
}

} // verus!
