//! Line splitting for the textual maze format.
//!
//! A maze file is a sequence of rows separated by newlines. The splitting
//! below follows the usual text-file convention: lines end at `'\n'`, a
//! carriage return directly before a `'\n'` belongs to the line ending, and a
//! final line ending is optional.

use vstd::prelude::*;
use vstd::string::*;

verus! {

/// Drops a single trailing carriage return, if present.
pub open spec fn strip_cr(t: Seq<char>) -> Seq<char> {
    if t.len() > 0 && t.last() == '\r' {
        t.drop_last()
    } else {
        t
    }
}

/// Index of the first newline in `s`, or `s.len()` if there is none.
pub open spec fn find_nl(s: Seq<char>) -> int
    decreases s.len(),
{
    if s.len() == 0 {
        0
    } else if s[0] == '\n' {
        0
    } else {
        1 + find_nl(s.drop_first())
    }
}

/// The rows of `s`: segments between newlines, each stripped of a trailing
/// carriage return; a trailing newline does not open an extra empty row.
pub open spec fn spec_lines(s: Seq<char>) -> Seq<Seq<char>>
    decreases s.len(),
{
    if s.len() == 0 {
        Seq::empty()
    } else {
        let i = find_nl(s);
        proof {
            lemma_find_nl_bounds(s);
        }
        if i == s.len() {
            seq![s]
        } else {
            seq![strip_cr(s.take(i))] + spec_lines(s.skip(i + 1))
        }
    }
}

pub proof fn lemma_find_nl_bounds(s: Seq<char>)
    ensures
        0 <= find_nl(s) <= s.len(),
        forall|j: int| 0 <= j < find_nl(s) ==> s[j] != '\n',
        find_nl(s) < s.len() ==> s[find_nl(s)] == '\n',
    decreases s.len(),
{
    if s.len() == 0 {
    } else if s[0] == '\n' {
    } else {
        lemma_find_nl_bounds(s.drop_first());
        assert forall|j: int| 0 <= j < find_nl(s) implies s[j] != '\n' by {
            if j > 0 {
                assert(s.drop_first()[j - 1] == s[j]);
            }
        }
        if find_nl(s) < s.len() {
            assert(s.drop_first()[find_nl(s) - 1] == s[find_nl(s)]);
        }
    }
}

/// `find_nl` is pinned down by its characteristic properties.
pub proof fn lemma_find_nl_unique(s: Seq<char>, i: int)
    requires
        0 <= i <= s.len(),
        forall|j: int| 0 <= j < i ==> s[j] != '\n',
        i < s.len() ==> s[i] == '\n',
    ensures
        find_nl(s) == i,
    decreases s.len(),
{
    if s.len() == 0 {
    } else if s[0] == '\n' {
    } else {
        assert forall|j: int| 0 <= j < i - 1 implies s.drop_first()[j] != '\n' by {
            assert(s.drop_first()[j] == s[j + 1]);
        }
        if i - 1 < s.drop_first().len() {
            assert(s.drop_first()[i - 1] == s[i]);
        }
        lemma_find_nl_unique(s.drop_first(), i - 1);
    }
}

/// Splits `s` into its rows, as [`spec_lines`] describes.
pub fn split_lines(s: &str) -> (res: Vec<String>)
    ensures
        res.deep_view() == spec_lines(s@),
{
    let n = s.unicode_len();
    let mut res: Vec<String> = Vec::new();
    let mut start: usize = 0;
    let mut i: usize = 0;
    proof {
        assert(s@.skip(0) =~= s@);
        assert(res.deep_view() =~= Seq::<Seq<char>>::empty());
        assert(res.deep_view() + spec_lines(s@) =~= spec_lines(s@));
    }
    while i < n
        invariant
            start <= i <= n,
            n == s@.len(),
            forall|j: int| start <= j < i ==> s@[j] != '\n',
            spec_lines(s@) == res.deep_view() + spec_lines(s@.skip(start as int)),
        decreases n - i,
    {
        let c = s.get_char(i);
        if c == '\n' {
            let line_end = if i > start && s.get_char(i - 1) == '\r' {
                i - 1
            } else {
                i
            };
            let line = s.substring_char(start, line_end).to_owned();
            proof {
                let seg = s@.skip(start as int);
                assert forall|j: int| 0 <= j < i - start implies seg[j] != '\n' by {
                    assert(seg[j] == s@[start + j]);
                }
                assert(seg[i - start] == s@[i as int]);
                lemma_find_nl_unique(seg, i - start);
                assert(seg.take(i - start) =~= s@.subrange(start as int, i as int));
                assert(strip_cr(seg.take(i - start)) =~= s@.subrange(
                    start as int,
                    line_end as int,
                ));
                assert(seg.skip(i - start + 1) =~= s@.skip(i + 1));
                assert(res.deep_view().push(line@) =~= res.deep_view() + seq![line@]);
                assert(spec_lines(seg) == seq![line@] + spec_lines(s@.skip(i + 1)));
                assert(res.deep_view() + spec_lines(seg) =~= (res.deep_view() + seq![line@])
                    + spec_lines(s@.skip(i + 1)));
            }
            let ghost old_res = res.deep_view();
            res.push(line);
            proof {
                assert(res.deep_view() =~= old_res.push(line@));
            }
            start = i + 1;
        }
        i += 1;
    }
    if start < n {
        let line = s.substring_char(start, n).to_owned();
        proof {
            let seg = s@.skip(start as int);
            assert forall|j: int| 0 <= j < seg.len() implies seg[j] != '\n' by {
                assert(seg[j] == s@[start + j]);
            }
            lemma_find_nl_unique(seg, seg.len() as int);
            assert(seg =~= s@.subrange(start as int, n as int));
            assert(spec_lines(seg) == seq![seg]);
            assert(res.deep_view().push(line@) =~= res.deep_view() + seq![seg]);
        }
        let ghost old_res = res.deep_view();
        res.push(line);
        proof {
            assert(res.deep_view() =~= old_res.push(line@));
        }
    } else {
        proof {
            assert(s@.skip(start as int) =~= Seq::<char>::empty());
            assert(res.deep_view() + spec_lines(s@.skip(start as int)) =~= res.deep_view());
        }
    }
    res
}

} // verus!
