//! Run-length encoded table from bytecode offsets to source lines.
use vstd::prelude::*;

verus! {

/// A run of consecutive bytecode bytes that all stem from the same line.
#[derive(Debug)]
pub struct LineEntry {
    pub line: usize,
    pub count: usize,
}

/// Maps every byte offset of a chunk to the source line it was written for.
#[derive(Debug)]
pub struct LineTracker {
    entries: Vec<LineEntry>,
}

/// The line of every byte, one element per byte, spelled out from the runs.
pub open spec fn expand(entries: Seq<LineEntry>) -> Seq<usize>
    decreases entries.len(),
{
    if entries.len() == 0 {
        Seq::empty()
    } else {
        let last = entries.last();
        expand(entries.drop_last()) + Seq::new(last.count as nat, |_i: int| last.line)
    }
}

/// The number of maximal stretches of equal neighbours in `lines`.
pub open spec fn run_total(lines: Seq<usize>) -> nat
    decreases lines.len(),
{
    if lines.len() == 0 {
        0
    } else {
        let rest = lines.drop_last();
        run_total(rest) + if rest.len() > 0 && rest.last() == lines.last() {
            0nat
        } else {
            1nat
        }
    }
}

/// The runs are non-empty, two neighbouring runs never share a line, there is
/// one run per maximal stretch of equal lines, and the total number of bytes
/// fits in a `usize`.
pub open spec fn runs_wf(entries: Seq<LineEntry>) -> bool {
    &&& forall|i: int| 0 <= i < entries.len() ==> #[trigger] entries[i].count > 0
    &&& forall|i: int|
        0 <= i < entries.len() - 1 ==> #[trigger] entries[i].line != entries[i + 1].line
    &&& entries.len() == run_total(expand(entries))
    &&& expand(entries).len() <= usize::MAX
}

/// The line of the byte at `offset`, if there is such a byte.
pub open spec fn spec_line_at(lines: Seq<usize>, offset: int) -> Option<usize> {
    if 0 <= offset < lines.len() {
        Some(lines[offset])
    } else {
        None
    }
}

/// Reading the line of a byte gives back the line that was pushed for it,
/// and pushing leaves the lines of the earlier bytes as they were.
pub proof fn lemma_line_at_push(lines: Seq<usize>, line: usize, offset: int)
    ensures
        spec_line_at(lines.push(line), offset) == if offset == lines.len() {
            Some(line)
        } else {
            spec_line_at(lines, offset)
        },
{
}

proof fn lemma_expand_prefix(entries: Seq<LineEntry>, j: int)
    requires
        0 <= j <= entries.len(),
    ensures
        expand(entries.take(j)).len() <= expand(entries).len(),
        forall|k: int|
            0 <= k < expand(entries.take(j)).len() ==> #[trigger] expand(entries.take(j))[k]
                == expand(entries)[k],
    decreases entries.len(),
{
    if j < entries.len() {
        lemma_expand_prefix(entries.drop_last(), j);
        assert(entries.drop_last().take(j) =~= entries.take(j));
    } else {
        assert(entries.take(j) =~= entries);
    }
}

impl View for LineTracker {
    type V = Seq<usize>;

    closed spec fn view(&self) -> Seq<usize> {
        expand(self.entries@)
    }
}

impl LineTracker {
    /// The table's internal invariant, which every table keeps.
    #[verifier::type_invariant]
    pub closed spec fn wf(&self) -> bool {
        runs_wf(self.entries@)
    }

    /// The number of runs the table holds.
    pub closed spec fn run_count(&self) -> nat {
        self.entries@.len()
    }

    /// The runs the table holds, in byte order.
    pub closed spec fn runs(&self) -> Seq<LineEntry> {
        self.entries@
    }

    /// The table is the run-length encoding of its lines: every run is
    /// non-empty, neighbouring runs differ in their line, the runs spelled out
    /// give back the line of every byte (so their counts add up to the number
    /// of bytes), and there are exactly as many runs as the lines have maximal
    /// stretches of equal neighbours.
    pub proof fn lemma_run_length(&self)
        requires
            self.wf(),
        ensures
            forall|i: int| 0 <= i < self.runs().len() ==> #[trigger] self.runs()[i].count > 0,
            forall|i: int|
                0 <= i < self.runs().len() - 1 ==> #[trigger] self.runs()[i].line != self.runs()[i
                    + 1].line,
            expand(self.runs()) == self@,
            self.runs().len() == self.run_count(),
            self.run_count() == run_total(self@),
    {
    }

    /// An empty table.
    pub fn new() -> (t: Self)
        ensures
            t@ == Seq::<usize>::empty(),
            t.run_count() == 0,
    {
        Self { entries: Vec::new() }
    }

    /// Records that the next byte belongs to `line`; a byte on the same line as
    /// the previous one extends the last run instead of opening a new one.
    pub fn push(&mut self, line: usize)
        requires
            old(self)@.len() < usize::MAX,
        ensures
            final(self)@ == old(self)@.push(line),
            final(self).run_count() == if old(self)@.len() > 0 && old(self)@.last() == line {
                old(self).run_count()
            } else {
                old(self).run_count() + 1
            },
    {
        proof {
            use_type_invariant(&*self);
        }
        let ghost old_entries = self.entries@;
        let mut entries: Vec<LineEntry> = Vec::new();
        std::mem::swap(&mut entries, &mut self.entries);
        let n = entries.len();
        proof {
            if n > 0 {
                lemma_last_line(entries@);
            }
        }
        if n > 0 && entries[n - 1].line == line {
            let count = entries[n - 1].count;
            entries.set(n - 1, LineEntry { line, count: count + 1 });
            proof {
                assert(entries@.drop_last() =~= old_entries.drop_last());
                let last = entries@.last();
                assert(Seq::new(last.count as nat, |_i: int| last.line) =~= Seq::new(
                    count as nat,
                    |_i: int| line,
                ).push(line));
                assert(expand(entries@) =~= expand(old_entries).push(line));
                assert(expand(old_entries).push(line).drop_last() =~= expand(old_entries));
            }
        } else {
            entries.push(LineEntry { line, count: 1 });
            proof {
                assert(entries@.drop_last() =~= old_entries);
                let last = entries@.last();
                assert(Seq::new(last.count as nat, |_i: int| last.line) =~= seq![line]);
                assert(expand(entries@) =~= expand(old_entries).push(line));
                assert(expand(old_entries).push(line).drop_last() =~= expand(old_entries));
            }
        }
        self.entries = entries;
    }
}

/// The last byte of non-empty runs is on the line of the last run.
proof fn lemma_last_line(e: Seq<LineEntry>)
    requires
        runs_wf(e),
        e.len() > 0,
    ensures
        expand(e).len() > 0,
        expand(e).last() == e.last().line,
{
    assert(e.last().count > 0);
    let tail = Seq::new(e.last().count as nat, |_i: int| e.last().line);
    assert(expand(e) == expand(e.drop_last()) + tail);
    assert(expand(e)[expand(e).len() - 1] == tail[tail.len() - 1]);
}

impl LineTracker {
    /// The line of the byte at `offset`, or `None` past the last byte.
    pub fn line_at(&self, offset: usize) -> (r: Option<usize>)
        ensures
            r == spec_line_at(self@, offset as int),
    {
        proof {
            use_type_invariant(self);
        }
        let ghost e = self.entries@;
        let mut acc: usize = 0;
        let mut i: usize = 0;
        while i < self.entries.len()
            invariant
                e == self.entries@,
                runs_wf(e),
                0 <= i <= e.len(),
                acc == expand(e.take(i as int)).len(),
                offset >= acc,
            decreases e.len() - i,
        {
            proof {
                lemma_expand_prefix(e, i + 1);
                assert(e.take(i + 1).drop_last() =~= e.take(i as int));
            }
            acc = acc + self.entries[i].count;
            if offset < acc {
                proof {
                    let t = e.take(i + 1);
                    let run = Seq::new(e[i as int].count as nat, |_k: int| e[i as int].line);
                    assert(expand(t) == expand(t.drop_last()) + run);
                    assert(expand(t)[offset as int] == run[offset - expand(t.drop_last()).len()]);
                }
                return Some(self.entries[i].line);
            }
            i = i + 1;
        }
        proof {
            assert(e.take(i as int) =~= e);
        }
        None
    }
}

} // verus!
