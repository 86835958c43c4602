//! Splitting file content into lines: a line ends at a newline or at a
//! carriage return followed by a newline, and a final line ending is
//! optional.

use vstd::prelude::*;
use vstd::string::*;

verus! {

/// A line with its terminating carriage return removed.
pub open spec fn chomp_cr(line: Seq<char>) -> Seq<char> {
    if line.len() > 0 && line.last() == '\r' {
        line.drop_last()
    } else {
        line
    }
}

/// Index of the first newline (the length if there is none).
pub open spec fn first_nl(s: Seq<char>) -> int
    decreases s.len(),
{
    if s.len() == 0 {
        0
    } else if s[0] == '\n' {
        0
    } else {
        1 + first_nl(s.skip(1))
    }
}

pub proof fn lemma_first_nl(s: Seq<char>)
    ensures
        0 <= first_nl(s) <= s.len(),
        forall|k: int| 0 <= k < first_nl(s) ==> s[k] != '\n',
        first_nl(s) < s.len() ==> s[first_nl(s)] == '\n',
    decreases s.len(),
{
    if s.len() > 0 && s[0] != '\n' {
        lemma_first_nl(s.skip(1));
        assert forall|k: int| 0 <= k < first_nl(s) implies s[k] != '\n' by {
            if k > 0 {
                assert(s.skip(1)[k - 1] != '\n');
            }
        }
    }
}

/// The lines of a text: split at each newline, with a carriage return
/// immediately before a newline stripped; text after the last newline forms
/// a final line, and empty text has no lines.
pub open spec fn spec_lines(s: Seq<char>) -> Seq<Seq<char>>
    decreases s.len(),
{
    if s.len() == 0 {
        Seq::empty()
    } else {
        let i = first_nl(s);
        if 0 <= i < s.len() {
            seq![chomp_cr(s.take(i))] + spec_lines(s.skip(i + 1))
        } else {
            seq![s]
        }
    }
}

/// Splits `content` into its lines.
pub fn split_lines(content: &str) -> (r: Vec<String>)
    ensures
        r.deep_view() == spec_lines(content@),
{
    let n = content.unicode_len();
    let mut out: Vec<String> = Vec::new();
    let mut start: usize = 0;
    let mut i: usize = 0;
    proof {
        assert(out.deep_view() =~= Seq::<Seq<char>>::empty());
        assert(content@.skip(0) =~= content@);
        assert(Seq::<Seq<char>>::empty() + spec_lines(content@) =~= spec_lines(content@));
    }
    while i < n
        invariant
            n == content@.len(),
            start <= i <= n,
            forall|k: int| start <= k < i ==> content@[k] != '\n',
            out.deep_view() + spec_lines(content@.skip(start as int)) == spec_lines(content@),
        decreases n - i,
    {
        let c = content.get_char(i);
        if c == '\n' {
            let line_end = if i > start && {
                let p = content.get_char(i - 1);
                p == '\r'
            } {
                i - 1
            } else {
                i
            };
            let line = content.substring_char(start, line_end);
            let piece = String::from_str(line);
            let ghost old_dv = out.deep_view();
            out.push(piece);
            proof {
                let rest = content@.skip(start as int);
                lemma_first_nl(rest);
                let j = first_nl(rest);
                let j2 = i - start;
                if j < j2 {
                    assert(content@[start + j] != '\n');
                    assert(rest[j] == content@[start + j]);
                }
                if j2 < j {
                    assert(rest[j2] != '\n');
                }
                assert(j == j2);
                assert(rest.take(j) =~= content@.subrange(start as int, i as int));
                assert(line@ =~= chomp_cr(rest.take(j)));
                assert(rest.skip(j + 1) =~= content@.skip(i + 1));
                assert(spec_lines(rest) == seq![chomp_cr(rest.take(j))] + spec_lines(
                    content@.skip(i + 1),
                ));
                assert(out.deep_view() =~= old_dv.push(line@));
                assert(old_dv.push(line@) + spec_lines(content@.skip(i + 1)) =~= old_dv + (seq![
                    chomp_cr(rest.take(j)),
                ] + spec_lines(content@.skip(i + 1))));
            }
            start = i + 1;
        }
        i += 1;
    }
    if start < n {
        let line = content.substring_char(start, n);
        let piece = String::from_str(line);
        let ghost old_dv = out.deep_view();
        out.push(piece);
        proof {
            let rest = content@.skip(start as int);
            lemma_first_nl(rest);
            if first_nl(rest) < rest.len() {
                assert(rest[first_nl(rest)] == '\n');
                assert(content@[start + first_nl(rest)] == '\n');
            }
            assert(spec_lines(rest) =~= seq![rest]);
            assert(line@ =~= rest);
            assert(out.deep_view() =~= old_dv.push(rest));
            assert(old_dv.push(rest) =~= old_dv + seq![rest]);
        }
    } else {
        proof {
            assert(content@.skip(start as int) =~= Seq::<char>::empty());
            assert(out.deep_view() + spec_lines(Seq::<char>::empty()) =~= out.deep_view());
        }
    }
    out
}

} // verus!
