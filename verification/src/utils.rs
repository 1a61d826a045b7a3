//! Counting the words of a single line.
//!
//! A word is a maximal run of non-whitespace characters; whitespace is the
//! set of characters carrying the Unicode `White_Space` property, the same
//! set that `str::split_whitespace` separates on. `word_count` is the
//! mathematical definition, `count_words` the verified implementation.

use vstd::prelude::*;

verus! {

/// Whether `c` is a whitespace character: one of the code points with the
/// Unicode `White_Space` property (horizontal tab through carriage return,
/// space, next line, no-break space, ogham space mark, the en-quad..hair
/// space range, the line and paragraph separators, narrow no-break space,
/// medium mathematical space, and ideographic space).
pub open spec fn is_ws(c: char) -> bool {
    let u = c as u32;
    ||| (0x09 <= u && u <= 0x0D)
    ||| u == 0x20
    ||| u == 0x85
    ||| u == 0xA0
    ||| u == 0x1680
    ||| (0x2000 <= u && u <= 0x200A)
    ||| u == 0x2028
    ||| u == 0x2029
    ||| u == 0x202F
    ||| u == 0x205F
    ||| u == 0x3000
}

/// Whether position `i` of `s` starts a word: it holds a non-whitespace
/// character that is either at the start of the line or preceded by
/// whitespace. Each maximal whitespace-free run has exactly one such
/// position, its first.
pub open spec fn is_word_start(s: Seq<char>, i: int) -> bool {
    &&& !is_ws(s[i])
    &&& (i == 0 || is_ws(s[i - 1]))
}

/// The number of words in `s`: the number of maximal whitespace-free runs,
/// counted by their start positions.
pub open spec fn word_count(s: Seq<char>) -> nat
    decreases s.len(),
{
    if s.len() == 0 {
        0
    } else {
        word_count(s.take(s.len() - 1)) + (if is_word_start(s, s.len() - 1) {
            1nat
        } else {
            0nat
        })
    }
}

/// A line has no more words than characters: each word occupies at least
/// one character. Lets a caller bound a running word total by the lengths
/// of the lines it has seen.
pub proof fn lemma_word_count_le_len(s: Seq<char>)
    ensures
        word_count(s) <= s.len(),
    decreases s.len(),
{
    if s.len() > 0 {
        lemma_word_count_le_len(s.take(s.len() - 1));
    }
}

/// Decides `is_ws` for a single character.
fn is_whitespace_char(c: char) -> (r: bool)
    ensures
        r == is_ws(c),
{
    let u = c as u32;
    (0x09 <= u && u <= 0x0D) || u == 0x20 || u == 0x85 || u == 0xA0 || u == 0x1680 || (0x2000 <= u
        && u <= 0x200A) || u == 0x2028 || u == 0x2029 || u == 0x202F || u == 0x205F || u == 0x3000
}

/// Counts the words of `line`: the number of maximal whitespace-free runs.
/// An empty or all-whitespace line has no words.
pub fn count_words(line: &str) -> (count: usize)
    ensures
        count == word_count(line@),
{
    let len = line.unicode_len();
    let mut count: usize = 0;
    let mut i: usize = 0;
    let mut prev_ws = true;
    while i < len
        invariant
            len == line@.len(),
            i <= len,
            count <= i,
            count == word_count(line@.take(i as int)),
            prev_ws == (i == 0 || is_ws(line@[i as int - 1])),
        decreases len - i,
    {
        let c = line.get_char(i);
        let ws = is_whitespace_char(c);
        if !ws && prev_ws {
            count = count + 1;
        }
        proof {
            let pre = line@.take(i as int);
            let post = line@.take(i + 1 as int);
            assert(post.take(post.len() - 1) =~= pre);
            assert(post[post.len() - 1] == line@[i as int]);
        }
        prev_ws = ws;
        i = i + 1;
    }
    proof {
        assert(line@.take(len as int) =~= line@);
    }
    count
}

} // verus!
