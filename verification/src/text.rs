//! Character classes and scanning helpers shared by the header grammar and
//! the placeholder grammar.

use vstd::prelude::*;

verus! {

/// A word character: an ASCII letter, an ASCII digit, or an underscore.
/// Header field names, header type names and placeholder names are runs of
/// these characters. This is a deliberate restriction of the grammar to
/// ASCII: a name holding a letter outside ASCII is not recognized.
pub open spec fn is_word_char(c: char) -> bool {
    c == '_' || ('0' <= c && c <= '9') || ('a' <= c && c <= 'z') || ('A' <= c && c <= 'Z')
}

/// Executable form of `is_word_char`.
pub fn is_word_char_exec(c: char) -> (r: bool)
    ensures
        r == is_word_char(c),
{
    c == '_' || ('0' <= c && c <= '9') || ('a' <= c && c <= 'z') || ('A' <= c && c <= 'Z')
}

/// The end of the run of word characters that starts at `i`: the first
/// position at or after `i` that is out of range or holds a non-word
/// character.
pub open spec fn word_run_end(s: Seq<char>, i: int) -> int
    decreases s.len() - i,
{
    if i < 0 || i >= s.len() {
        i
    } else if is_word_char(s[i]) {
        word_run_end(s, i + 1)
    } else {
        i
    }
}

/// `word_run_end` stays between its start and the length of the sequence,
/// every character of the run is a word character, and the run is maximal.
pub proof fn lemma_word_run_end(s: Seq<char>, i: int)
    requires
        0 <= i <= s.len(),
    ensures
        i <= word_run_end(s, i) <= s.len(),
        forall|m: int| i <= m < word_run_end(s, i) ==> is_word_char(s[m]),
        word_run_end(s, i) < s.len() ==> !is_word_char(s[word_run_end(s, i)]),
    decreases s.len() - i,
{
    if i < s.len() && is_word_char(s[i]) {
        lemma_word_run_end(s, i + 1);
    }
}

/// Finds the end of the word run that starts at position `from`.
pub fn word_run_end_exec(s: &str, n: usize, from: usize) -> (r: usize)
    requires
        n == s@.len(),
        from <= n,
    ensures
        r == word_run_end(s@, from as int),
{
    let mut j = from;
    while j < n && is_word_char_exec(s.get_char(j))
        invariant
            from <= j <= n,
            n == s@.len(),
            word_run_end(s@, from as int) == word_run_end(s@, j as int),
        decreases n - j,
    {
        j = j + 1;
    }
    proof {
        lemma_word_run_end(s@, j as int);
    }
    j
}

} // verus!
