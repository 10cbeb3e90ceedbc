//! Line writer: accumulates output lines with depth-proportional
//! indentation and joins them with newlines.

use vstd::prelude::*;

verus! {

/// A run of `n` spaces.
pub open spec fn spec_spaces(n: nat) -> Seq<char>
    decreases n,
{
    if n == 0 {
        Seq::empty()
    } else {
        spec_spaces((n - 1) as nat).push(' ')
    }
}

/// The sequence `s` repeated `n` times.
pub open spec fn spec_repeat(s: Seq<char>, n: nat) -> Seq<char>
    decreases n,
{
    if n == 0 {
        Seq::empty()
    } else {
        spec_repeat(s, (n - 1) as nat) + s
    }
}

/// The indentation prefix of a line: the per-level unit repeated `depth`
/// times, where the unit is `indent` spaces.
pub open spec fn spec_indent(indent: nat, depth: nat) -> Seq<char> {
    spec_repeat(spec_spaces(indent), depth)
}

/// Lines joined by a single newline; no trailing newline.
pub open spec fn spec_join_lines(lines: Seq<Seq<char>>) -> Seq<char>
    decreases lines.len(),
{
    if lines.len() == 0 {
        Seq::empty()
    } else if lines.len() == 1 {
        lines[0]
    } else {
        spec_join_lines(lines.drop_last()) + seq!['\n'] + lines.last()
    }
}

/// Accumulates indented output lines.
pub struct LineWriter {
    lines: Vec<String>,
    indentation_string: String,
}

impl LineWriter {
    /// The accumulated lines, each already carrying its indentation.
    pub closed spec fn lines_view(&self) -> Seq<Seq<char>> {
        Seq::new(self.lines@.len(), |i: int| self.lines@[i]@)
    }

    /// The per-level indentation unit.
    pub closed spec fn unit(&self) -> Seq<char> {
        self.indentation_string@
    }

    /// A fresh writer whose indentation unit is `indent_size` spaces.
    pub fn new(indent_size: usize) -> (w: LineWriter)
        ensures
            w.lines_view() =~= Seq::<Seq<char>>::empty(),
            w.unit() == spec_spaces(indent_size as nat),
    {
        let mut unit = String::new();
        let mut i: usize = 0;
        while i < indent_size
            invariant
                i <= indent_size,
                unit@ == spec_spaces(i as nat),
            decreases indent_size - i,
        {
            unit.append(" ");
            proof {
                reveal_strlit(" ");
                assert(unit@ =~= spec_spaces((i + 1) as nat));
            }
            i = i + 1;
        }
        LineWriter { lines: Vec::new(), indentation_string: unit }
    }

    /// Appends one line: the indentation unit repeated `depth` times,
    /// then `content`.
    pub fn push(&mut self, depth: usize, content: String)
        ensures
            final(self).unit() == old(self).unit(),
            final(self).lines_view() =~= old(self).lines_view().push(
                spec_repeat(old(self).unit(), depth as nat) + content@,
            ),
    {
        let mut line = String::new();
        let mut i: usize = 0;
        while i < depth
            invariant
                i <= depth,
                line@ == spec_repeat(self.indentation_string@, i as nat),
                self == old(self),
            decreases depth - i,
        {
            line.append(self.indentation_string.as_str());
            i = i + 1;
        }
        line.append(content.as_str());
        self.lines.push(line);
    }

    /// The accumulated output: lines joined by newlines, with no trailing
    /// newline.
    pub fn to_string(self) -> (r: String)
        ensures
            r@ == spec_join_lines(self.lines_view()),
    {
        let mut out = String::new();
        let mut i: usize = 0;
        while i < self.lines.len()
            invariant
                i <= self.lines.len(),
                out@ == spec_join_lines(self.lines_view().take(i as int)),
            decreases self.lines.len() - i,
        {
            if i > 0 {
                out.append("\n");
            }
            out.append(self.lines[i].as_str());
            proof {
                reveal_strlit("\n");
                let lv = self.lines_view();
                assert(lv.take(i + 1).drop_last() =~= lv.take(i as int));
                assert(lv.take(i + 1).last() == lv[i as int]);
                assert(out@ =~= spec_join_lines(lv.take(i + 1)));
            }
            i = i + 1;
        }
        proof {
            assert(self.lines_view().take(self.lines@.len() as int) =~= self.lines_view());
        }
        out
    }
}

} // verus!
