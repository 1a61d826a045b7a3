//! The per-file outcome: one word count per line, and their total.

use vstd::prelude::*;

use crate::utils::count_words;
use crate::utils::word_count;

verus! {

/// The sum of a sequence of per-line word counts.
pub open spec fn sum_counts(s: Seq<usize>) -> int
    decreases s.len(),
{
    if s.len() == 0 {
        0
    } else {
        sum_counts(s.drop_last()) + s.last()
    }
}

/// The views of a sequence of lines, as sequences of characters.
pub open spec fn line_views(lines: Seq<String>) -> Seq<Seq<char>> {
    lines.map_values(|l: String| l@)
}

/// The total number of words over a sequence of lines.
pub open spec fn total_word_count(lines: Seq<Seq<char>>) -> nat
    decreases lines.len(),
{
    if lines.len() == 0 {
        0
    } else {
        total_word_count(lines.drop_last()) + word_count(lines.last())
    }
}

/// The outcome of processing one file: the word count of each of its lines,
/// in file order, and the total word count. A zero-line file yields an empty
/// `line_counts` and a zero total.
#[derive(Debug)]
pub struct FileProcessingResult {
    /// Number of words in each line.
    pub line_counts: Vec<usize>,
    /// Total number of words in the file.
    pub total_words: usize,
}

impl View for FileProcessingResult {
    type V = (Seq<usize>, usize);

    open spec fn view(&self) -> (Seq<usize>, usize) {
        (self.line_counts@, self.total_words)
    }
}

impl FileProcessingResult {
    /// The type's invariant: the total is the sum of the per-line counts.
    pub open spec fn wf(self) -> bool {
        self.total_words == sum_counts(self.line_counts@)
    }

    /// An outcome with no lines yet: empty counts, zero total.
    pub fn new() -> (r: Self)
        ensures
            r.wf(),
            r.line_counts@ =~= Seq::<usize>::empty(),
            r.total_words == 0,
    {
        FileProcessingResult { line_counts: Vec::new(), total_words: 0 }
    }

    /// Records one more line: appends its word count and adds it to the
    /// total. The caller keeps the running total within `usize`.
    pub fn add_line(&mut self, line: &str)
        requires
            old(self).wf(),
            old(self).total_words + word_count(line@) <= usize::MAX,
        ensures
            final(self).wf(),
            final(self).line_counts@ == old(self).line_counts@.push(
                (word_count(line@) as usize),
            ),
            final(self).total_words == old(self).total_words + word_count(line@),
    {
        let n = count_words(line);
        proof {
            assert(self.line_counts@.push(n).drop_last() =~= self.line_counts@);
        }
        self.total_words = self.total_words + n;
        self.line_counts.push(n);
    }

    /// Processes a whole file given as its sequence of lines: one count per
    /// line, in order, and their sum as the total.
    pub fn from_lines(lines: &Vec<String>) -> (r: Self)
        requires
            total_word_count(line_views(lines@)) <= usize::MAX,
        ensures
            r.wf(),
            r.line_counts@.len() == lines@.len(),
            forall|i: int|
                0 <= i < lines@.len() ==> r.line_counts@[i] == word_count(lines@[i]@),
            r.total_words == total_word_count(line_views(lines@)),
    {
        let ghost all = line_views(lines@);
        let mut r = FileProcessingResult::new();
        let mut j: usize = 0;
        while j < lines.len()
            invariant
                j <= lines@.len(),
                all == line_views(lines@),
                all.len() == lines@.len(),
                forall|k: int| 0 <= k < lines@.len() ==> all[k] == lines@[k]@,
                total_word_count(all) <= usize::MAX,
                r.wf(),
                r.line_counts@.len() == j,
                forall|k: int| 0 <= k < j ==> r.line_counts@[k] == word_count(lines@[k]@),
                r.total_words == total_word_count(all.take(j as int)),
            decreases lines@.len() - j,
        {
            proof {
                lemma_twc_take_succ(all, j as int);
                lemma_twc_take_le(all, j + 1 as int);
            }
            let line: &String = &lines[j];
            r.add_line(line.as_str());
            j = j + 1;
        }
        proof {
            assert(all.take(lines@.len() as int) =~= all);
        }
        r
    }
}

/// Extending a prefix of `s` by one line adds that line's word count.
proof fn lemma_twc_take_succ(s: Seq<Seq<char>>, j: int)
    requires
        0 <= j < s.len(),
    ensures
        total_word_count(s.take(j + 1)) == total_word_count(s.take(j)) + word_count(s[j]),
{
    assert(s.take(j + 1).drop_last() =~= s.take(j));
    assert(s.take(j + 1).last() == s[j]);
}

/// The word total of a prefix never exceeds the total of the whole.
proof fn lemma_twc_take_le(s: Seq<Seq<char>>, j: int)
    requires
        0 <= j <= s.len(),
    ensures
        total_word_count(s.take(j)) <= total_word_count(s),
    decreases s.len() - j,
{
    if j == s.len() {
        assert(s.take(j) =~= s);
    } else {
        lemma_twc_take_succ(s, j);
        lemma_twc_take_le(s, j + 1);
    }
}

} // verus!
