//! Splitting a line of mesh text into fields, and reading the decimal
//! numbers that address vertices.

use vstd::prelude::*;

verus! {

/// Whether a byte is ASCII white space.
pub open spec fn is_blank(b: u8) -> bool {
    b == 32 || (9 <= b && b <= 13)
}

/// Whether a byte is a decimal digit.
pub open spec fn is_digit(b: u8) -> bool {
    48 <= b && b <= 57
}

/// Number of bytes of `s` from `from` up to the next `sep`, or up to the
/// end of `s` where there is none.
pub open spec fn run_length(s: Seq<u8>, sep: u8, from: int) -> nat
    decreases s.len() - from,
{
    if from >= s.len() || s[from] == sep {
        0
    } else {
        1 + run_length(s, sep, from + 1)
    }
}

/// Position of the first `sep` in `s` at or after `from`, or the length of
/// `s` where there is none.
pub open spec fn next_sep(s: Seq<u8>, sep: u8, from: int) -> int {
    from + run_length(s, sep, from)
}

/// Position of the first byte of `s` in `lo..hi` that is not white space,
/// or `hi` where all are.
pub open spec fn skip_blanks(s: Seq<u8>, lo: int, hi: int) -> int
    decreases hi - lo,
{
    if lo >= hi || !is_blank(s[lo]) {
        lo
    } else {
        skip_blanks(s, lo + 1, hi)
    }
}

/// One past the last byte of `s` in `lo..hi` that is not white space, or
/// `lo` where all are.
pub open spec fn drop_blanks(s: Seq<u8>, lo: int, hi: int) -> int
    decreases hi - lo,
{
    if hi <= lo || !is_blank(s[hi - 1]) {
        hi
    } else {
        drop_blanks(s, lo, hi - 1)
    }
}

/// The tokens of `line` from the field that starts at `from` onwards: the
/// fields between single spaces, each with the white space around it
/// removed, empty ones left out. A token is given by where it starts and
/// where it ends in `line`.
pub open spec fn tokens_from(line: Seq<u8>, from: int) -> Seq<(usize, usize)>
    decreases line.len() - from,
{
    let end = next_sep(line, 32, from);
    let a = skip_blanks(line, from, end);
    let b = drop_blanks(line, a, end);
    let rest = if from <= end < line.len() {
        tokens_from(line, end + 1)
    } else {
        Seq::empty()
    };
    if 0 <= a < b <= usize::MAX {
        seq![(a as usize, b as usize)] + rest
    } else {
        rest
    }
}

/// The first field of `line`: everything before its first space.
pub open spec fn keyword(line: Seq<u8>) -> Seq<u8> {
    line.subrange(0, next_sep(line, 32, 0))
}

/// The tokens of `line` after its first field.
pub open spec fn arguments(line: Seq<u8>) -> Seq<(usize, usize)> {
    if next_sep(line, 32, 0) < line.len() {
        tokens_from(line, next_sep(line, 32, 0) + 1)
    } else {
        Seq::empty()
    }
}

/// The bytes of the token `range` of `line`.
pub open spec fn token_bytes(line: Seq<u8>, range: (usize, usize)) -> Seq<u8> {
    line.subrange(range.0 as int, range.1 as int)
}

/// Whether `range` addresses bytes of `line`.
pub open spec fn in_line(line: Seq<u8>, range: (usize, usize)) -> bool {
    range.0 <= range.1 <= line.len()
}

/// `next_sep` finds the first separator: it lies between `from` and the
/// end, no byte before it is a separator, and the byte at it is one unless
/// it is the end.
pub proof fn lemma_next_sep_bounds(s: Seq<u8>, sep: u8, from: int)
    requires
        0 <= from <= s.len(),
    ensures
        from <= next_sep(s, sep, from) <= s.len(),
        next_sep(s, sep, from) < s.len() ==> s[next_sep(s, sep, from)] == sep,
        forall|i: int| from <= i < next_sep(s, sep, from) ==> s[i] != sep,
    decreases s.len() - from,
{
    if from < s.len() && s[from] != sep {
        lemma_next_sep_bounds(s, sep, from + 1);
    }
}

/// Every token lies within its line.
pub proof fn lemma_tokens_in_line(line: Seq<u8>, from: int)
    requires
        0 <= from <= line.len(),
    ensures
        forall|i: int|
            0 <= i < tokens_from(line, from).len() ==> in_line(
                line,
                #[trigger] tokens_from(line, from)[i],
            ),
    decreases line.len() - from,
{
    if from <= line.len() {
        let end = next_sep(line, 32, from);
        lemma_next_sep_bounds(line, 32, from);
        lemma_trim_bounds(line, from, end);
        if end < line.len() {
            lemma_tokens_in_line(line, end + 1);
        }
        let a = skip_blanks(line, from, end);
        let b = drop_blanks(line, a, end);
        let rest = if end < line.len() {
            tokens_from(line, end + 1)
        } else {
            Seq::empty()
        };
        let all = tokens_from(line, from);
        assert forall|i: int| 0 <= i < all.len() implies in_line(line, #[trigger] all[i]) by {
            if 0 <= a < b <= usize::MAX {
                if i > 0 {
                    assert(all[i] == rest[i - 1]);
                }
            } else {
                assert(all[i] == rest[i]);
            }
        }
    }
}

/// Trimming stays within the range trimmed, removes white space only, and
/// leaves none at either end of what remains.
pub proof fn lemma_trim_bounds(s: Seq<u8>, lo: int, hi: int)
    requires
        lo <= hi,
    ensures
        lo <= skip_blanks(s, lo, hi) <= hi,
        skip_blanks(s, lo, hi) <= drop_blanks(s, skip_blanks(s, lo, hi), hi) <= hi,
        forall|i: int| lo <= i < skip_blanks(s, lo, hi) ==> is_blank(s[i]),
        forall|i: int| drop_blanks(s, skip_blanks(s, lo, hi), hi) <= i < hi ==> is_blank(s[i]),
        skip_blanks(s, lo, hi) < drop_blanks(s, skip_blanks(s, lo, hi), hi) ==> {
            &&& !is_blank(s[skip_blanks(s, lo, hi)])
            &&& !is_blank(s[drop_blanks(s, skip_blanks(s, lo, hi), hi) - 1])
        },
{
    lemma_skip_bounds(s, lo, hi);
    lemma_drop_bounds(s, skip_blanks(s, lo, hi), hi);
}

proof fn lemma_skip_bounds(s: Seq<u8>, lo: int, hi: int)
    requires
        lo <= hi,
    ensures
        lo <= skip_blanks(s, lo, hi) <= hi,
        forall|i: int| lo <= i < skip_blanks(s, lo, hi) ==> is_blank(s[i]),
        skip_blanks(s, lo, hi) < hi ==> !is_blank(s[skip_blanks(s, lo, hi)]),
    decreases hi - lo,
{
    if lo < hi && is_blank(s[lo]) {
        lemma_skip_bounds(s, lo + 1, hi);
    }
}

proof fn lemma_drop_bounds(s: Seq<u8>, lo: int, hi: int)
    requires
        lo <= hi,
    ensures
        lo <= drop_blanks(s, lo, hi) <= hi,
        forall|i: int| drop_blanks(s, lo, hi) <= i < hi ==> is_blank(s[i]),
        lo < drop_blanks(s, lo, hi) ==> !is_blank(s[drop_blanks(s, lo, hi) - 1]),
    decreases hi - lo,
{
    if lo < hi && is_blank(s[hi - 1]) {
        lemma_drop_bounds(s, lo, hi - 1);
    }
}

/// Finds the first `sep` in `s` at or after `from`.
pub fn find(s: &[u8], sep: u8, from: usize) -> (end: usize)
    requires
        from <= s.len(),
    ensures
        end == next_sep(s@, sep, from as int),
        from <= end <= s.len(),
        end < s.len() ==> s[end as int] == sep,
{
    let mut i = from;
    while i < s.len() && s[i] != sep
        invariant
            from <= i <= s.len(),
            next_sep(s@, sep, i as int) == next_sep(s@, sep, from as int),
        decreases s.len() - i,
    {
        i = i + 1;
    }
    i
}

/// Whether a byte is ASCII white space.
pub fn blank(b: u8) -> (r: bool)
    ensures
        r == is_blank(b),
{
    b == 32 || (9 <= b && b <= 13)
}

/// Removes the white space around the bytes `lo..hi` of `s`.
pub fn trim(s: &[u8], lo: usize, hi: usize) -> (r: (usize, usize))
    requires
        lo <= hi <= s.len(),
    ensures
        r.0 == skip_blanks(s@, lo as int, hi as int),
        r.1 == drop_blanks(s@, r.0 as int, hi as int),
        lo <= r.0 <= r.1 <= hi,
{
    let mut a = lo;
    while a < hi && blank(s[a])
        invariant
            lo <= a <= hi <= s.len(),
            skip_blanks(s@, a as int, hi as int) == skip_blanks(s@, lo as int, hi as int),
        decreases hi - a,
    {
        a = a + 1;
    }
    let mut b = hi;
    while a < b && blank(s[b - 1])
        invariant
            a <= b <= hi <= s.len(),
            drop_blanks(s@, a as int, b as int) == drop_blanks(s@, a as int, hi as int),
        decreases b - a,
    {
        b = b - 1;
    }
    (a, b)
}

/// The tokens of `line` after its first field.
pub fn split_arguments(line: &[u8]) -> (tokens: Vec<(usize, usize)>)
    ensures
        tokens@ == arguments(line@),
        forall|i: int| 0 <= i < tokens.len() ==> in_line(line@, #[trigger] tokens[i]),
{
    let mut tokens: Vec<(usize, usize)> = Vec::new();
    let first = find(line, 32, 0);
    let mut from: usize = first;
    proof {
        if first < line.len() {
            lemma_tokens_in_line(line@, first + 1);
        }
    }
    // `from` is the separator that ends the field before the one to read
    while from < line.len()
        invariant
            from <= line.len(),
            from < line.len() ==> tokens@ + tokens_from(line@, from + 1) == arguments(line@),
            from == line.len() ==> tokens@ == arguments(line@),
        decreases line.len() - from,
    {
        let start = from + 1;
        let end = find(line, 32, start);
        let (a, b) = trim(line, start, end);
        let ghost before = tokens@;
        if a < b {
            tokens.push((a, b));
        }
        proof {
            let rest = if end < line.len() {
                tokens_from(line@, end + 1)
            } else {
                Seq::empty()
            };
            if a < b {
                assert((before + seq![(a, b)]) + rest =~= before + (seq![(a, b)] + rest));
            }
            assert(tokens@ + rest == arguments(line@));
            assert(tokens@ + Seq::<(usize, usize)>::empty() =~= tokens@);
        }
        from = end;
    }
    proof {
        lemma_tokens_in_line(line@, 0);
        if first < line.len() {
            lemma_tokens_in_line(line@, first + 1);
        }
    }
    tokens
}

} // verus!
