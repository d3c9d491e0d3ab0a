//! Line filtering of raw source text: carriage returns are removed and
//! comment lines are deleted, together with every line break.

use vstd::prelude::*;
use crate::text::{chars_of, string_of};

verus! {

/// The character that marks a comment line when it stands first in the line.
pub const COMMENT_MARKER: char = '#';

/// `s` without its carriage returns.
pub open spec fn without_returns(s: Seq<char>) -> Seq<char> {
    s.filter(|c: char| c != '\r')
}

/// The index of the first line break of `s` at or after `from`, or the
/// length of `s` if there is none.
pub open spec fn line_end(s: Seq<char>, from: int) -> int
    decreases s.len() - from,
{
    if from < 0 || from >= s.len() {
        s.len() as int
    } else if s[from] == '\n' {
        from
    } else {
        line_end(s, from + 1)
    }
}

/// Whether `line` is a comment line: its first character is the marker.
pub open spec fn is_comment(line: Seq<char>) -> bool {
    line.len() > 0 && line[0] == COMMENT_MARKER
}

/// The lines of `s` that start at or after `from`, comment lines left out,
/// joined with nothing between them.
pub open spec fn kept_lines(s: Seq<char>, from: int) -> Seq<char>
    decreases s.len() - from,
{
    if from < 0 || from > s.len() {
        Seq::empty()
    } else {
        let end = line_end(s, from);
        let line = s.subrange(from, end);
        let kept = if is_comment(line) {
            Seq::empty()
        } else {
            line
        };
        if end >= s.len() || end < from {
            kept
        } else {
            kept + kept_lines(s, end + 1)
        }
    }
}

/// What `preprocess` returns for the text `s`.
pub open spec fn preprocess_spec(s: Seq<char>) -> Seq<char> {
    kept_lines(without_returns(s), 0)
}

/// Removes the carriage returns.
fn strip_returns(v: &Vec<char>) -> (r: Vec<char>)
    ensures
        r@ == without_returns(v@),
{
    let mut out: Vec<char> = Vec::new();
    let mut i: usize = 0;
    while i < v.len()
        invariant
            i <= v.len(),
            out@ == without_returns(v@.take(i as int)),
        decreases v.len() - i,
    {
        let c = v[i];
        proof {
            let p = |c: char| c != '\r';
            assert(v@.take(i + 1).drop_last() =~= v@.take(i as int));
            reveal(Seq::filter);
            assert(v@.take(i + 1).filter(p) == if p(c) {
                v@.take(i as int).filter(p).push(c)
            } else {
                v@.take(i as int).filter(p)
            });
        }
        if c != '\r' {
            out.push(c);
        }
        i += 1;
    }
    assert(v@.take(v@.len() as int) =~= v@);
    out
}

/// Joins the lines that are no comments.
fn keep_lines(v: &Vec<char>) -> (r: Vec<char>)
    ensures
        r@ == kept_lines(v@, 0),
{
    let mut out: Vec<char> = Vec::new();
    let n = v.len();
    let mut i: usize = 0;
    loop
        invariant_except_break
            i <= n,
            out@ + kept_lines(v@, i as int) == kept_lines(v@, 0),
        invariant
            n == v.len(),
        ensures
            out@ == kept_lines(v@, 0),
        decreases n - i,
    {
        let mut j: usize = i;
        while j < n && v[j] != '\n'
            invariant
                i <= j <= n,
                n == v.len(),
                line_end(v@, j as int) == line_end(v@, i as int),
            decreases n - j,
        {
            j += 1;
        }
        let ghost before = out@;
        let ghost line = v@.subrange(i as int, j as int);
        if !(j > i && v[i] == COMMENT_MARKER) {
            let mut k: usize = i;
            while k < j
                invariant
                    i <= k <= j <= n,
                    n == v.len(),
                    out@ == before + v@.subrange(i as int, k as int),
                decreases j - k,
            {
                out.push(v[k]);
                assert(v@.subrange(i as int, k + 1) =~= v@.subrange(i as int, k as int).push(
                    v@[k as int],
                ));
                k += 1;
            }
        } else {
            assert(is_comment(line));
            assert(v@.subrange(i as int, i as int) =~= Seq::<char>::empty());
        }
        assert(out@ =~= before + (if is_comment(line) {
            Seq::<char>::empty()
        } else {
            line
        }));
        if j >= n {
            assert(out@ + Seq::<char>::empty() =~= out@);
            break;
        }
        assert(out@ + kept_lines(v@, j + 1) =~= before + kept_lines(v@, i as int));
        i = j + 1;
    }
    out
}

/// Cleans raw source text: removes every carriage return, then deletes each
/// line whose first character is the comment marker, and joins the lines that
/// are left without any separator.
pub fn preprocess(file: String) -> (r: String)
    ensures
        r@ == preprocess_spec(file@),
{
    let raw = chars_of(file.as_str());
    let cleaned = strip_returns(&raw);
    let kept = keep_lines(&cleaned);
    string_of(&kept)
}

} // verus!
