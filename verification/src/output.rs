//! The cosmetic rewriting of a matched line before display: the line is
//! cut at the first question mark — or, when it holds none, at the first
//! exclamation mark or full stop — and a fixed tag is appended.

use vstd::prelude::*;
use vstd::string::StrSliceExecFns;
use vstd::string::StringExecFns;

use crate::text::find_stop;
use crate::text::lemma_find_stop;

verus! {

/// `c` occurs somewhere in `s`.
pub open spec fn contains_char(s: Seq<char>, c: char) -> bool {
    exists|i: int| 0 <= i < s.len() && s[i] == c
}

/// What `format_line` returns: the part of the line before its first
/// question mark with ` BOY???` appended when the line holds one, else the
/// part before its first exclamation mark or full stop (the whole line
/// when it holds neither) with ` BOY!!!` appended.
pub open spec fn format_spec(line: Seq<char>) -> Seq<char> {
    if contains_char(line, '?') {
        line.subrange(0, find_stop(line, 0, '?', '?')) + " BOY???"@
    } else {
        line.subrange(0, find_stop(line, 0, '!', '.')) + " BOY!!!"@
    }
}

fn find_stop_exec(line: &str, a: char, b: char) -> (i: usize)
    ensures
        i == find_stop(line@, 0, a, b),
{
    let n = line.unicode_len();
    let mut i: usize = 0;
    let mut found = false;
    while !found && i < n
        invariant
            n == line@.len(),
            i <= n,
            forall|k: int| 0 <= k < i ==> line@[k] != a && line@[k] != b,
            found ==> i < n && (line@[i as int] == a || line@[i as int] == b),
        decreases n - i + (if found {
            0int
        } else {
            1int
        }),
    {
        let c = line.get_char(i);
        if c == a || c == b {
            found = true;
        } else {
            i += 1;
        }
    }
    proof {
        lemma_find_stop(line@, 0, a, b);
        let f = find_stop(line@, 0, a, b);
        if f < i {
            assert(line@[f] != a && line@[f] != b);
        }
        if i < f {
            assert(line@[i as int] != a && line@[i as int] != b);
        }
    }
    i
}

/// Rewrites one matched line for display.
pub fn format_line(line: &str) -> (r: String)
    ensures
        r@ == format_spec(line@),
{
    let n = line.unicode_len();
    let q = find_stop_exec(line, '?', '?');
    proof {
        lemma_find_stop(line@, 0, '?', '?');
    }
    if q < n {
        let prefix = line.substring_char(0, q);
        String::from_str(prefix).concat(" BOY???")
    } else {
        proof {
            assert(!contains_char(line@, '?'));
        }
        let e = find_stop_exec(line, '!', '.');
        proof {
            lemma_find_stop(line@, 0, '!', '.');
        }
        let prefix = line.substring_char(0, e);
        String::from_str(prefix).concat(" BOY!!!")
    }
}

} // verus!
