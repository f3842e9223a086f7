use vstd::prelude::*;
use vstd::string::StrSliceExecFns;
use vstd::utf8::encode_utf8;

verus! {

/// How many space characters `s` holds.
pub open spec fn spaces(s: Seq<char>) -> int
    decreases s.len(),
{
    if s.len() == 0 {
        0
    } else {
        spaces(s.drop_last()) + if s.last() == ' ' {
            1int
        } else {
            0int
        }
    }
}

/// The words of the first `n` lines: splitting a line at each single space
/// gives one more piece than it has spaces.
pub open spec fn words_upto(lines: Seq<String>, n: int) -> int
    decreases n,
{
    if n <= 0 {
        0
    } else {
        words_upto(lines, n - 1) + spaces(lines[n - 1]@) + 1
    }
}

/// The bytes of the first `n` lines, in UTF-8.
pub open spec fn bytes_upto(lines: Seq<String>, n: int) -> int
    decreases n,
{
    if n <= 0 {
        0
    } else {
        bytes_upto(lines, n - 1) + encode_utf8(lines[n - 1]@).len()
    }
}

proof fn lemma_spaces_bounded(s: Seq<char>)
    ensures
        0 <= spaces(s) <= s.len(),
    decreases s.len(),
{
    if s.len() > 0 {
        lemma_spaces_bounded(s.drop_last());
    }
}

proof fn lemma_totals_grow(lines: Seq<String>, k: int, m: int)
    requires
        0 <= k <= m <= lines.len(),
    ensures
        words_upto(lines, k) <= words_upto(lines, m),
        bytes_upto(lines, k) <= bytes_upto(lines, m),
    decreases m - k,
{
    if k < m {
        lemma_totals_grow(lines, k, m - 1);
        lemma_spaces_bounded(lines[m - 1]@);
    }
}

/// Counts the space characters of `s`.
fn count_spaces(s: &str) -> (r: usize)
    ensures
        r == spaces(s@),
{
    let n = s.unicode_len();
    let mut count: usize = 0;
    let mut i: usize = 0;
    while i < n
        invariant
            n == s@.len(),
            i <= n,
            count == spaces(s@.subrange(0, i as int)),
            count <= i,
        decreases n - i,
    {
        assert(s@.subrange(0, i + 1).drop_last() =~= s@.subrange(0, i as int));
        if s.get_char(i) == ' ' {
            count += 1;
        }
        i += 1;
    }
    assert(s@.subrange(0, n as int) =~= s@);
    count
}

/// The number of words and of bytes in `lines`, where each line has one
/// word more than it has single spaces.
pub fn lines_2_words(lines: &Vec<String>) -> (r: (usize, usize))
    requires
        words_upto(lines@, lines@.len() as int) <= usize::MAX,
        bytes_upto(lines@, lines@.len() as int) <= usize::MAX,
    ensures
        r.0 == words_upto(lines@, lines@.len() as int),
        r.1 == bytes_upto(lines@, lines@.len() as int),
{
    let mut words: usize = 0;
    let mut chars: usize = 0;
    let mut i: usize = 0;
    while i < lines.len()
        invariant
            i <= lines.len(),
            words_upto(lines@, lines@.len() as int) <= usize::MAX,
            bytes_upto(lines@, lines@.len() as int) <= usize::MAX,
            words == words_upto(lines@, i as int),
            chars == bytes_upto(lines@, i as int),
        decreases lines.len() - i,
    {
        proof {
            lemma_totals_grow(lines@, i + 1, lines@.len() as int);
        }
        let line: &str = lines[i].as_str();
        chars += line.len();
        words += count_spaces(line) + 1;
        i += 1;
    }
    (words, chars)
}

} // verus!
