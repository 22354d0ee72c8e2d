//! Face tokens: `v`, `v/t/n` or `v//n`, each part a decimal number that
//! counts vertices, texture coordinates or normals from one.

use crate::token::find;
use crate::token::is_digit;
use crate::token::next_sep;
use vstd::prelude::*;

verus! {

/// What a part of a line was expected to be when it could not be read.
#[derive(Debug, Copy, Clone, PartialEq, Eq, Structural)]
pub enum Field {
    /// A coordinate of a vertex.
    Coordinate,
    /// The vertex number of a face token.
    VertexIndex,
    /// The texture number of a face token.
    TextureIndex,
    /// The normal number of a face token.
    NormalIndex,
}

/// The three numbers of one face token. A number that the token does not
/// give is zero.
#[derive(Debug, Copy, Clone, PartialEq, Eq, Structural)]
pub struct Facet {
    pub v: usize,
    pub t: usize,
    pub n: usize,
}

/// The number that a run of decimal digits writes.
pub open spec fn digits_value(s: Seq<u8>) -> nat
    decreases s.len(),
{
    if s.len() == 0 {
        0
    } else {
        digits_value(s.drop_last()) * 10 + (s.last() - 48) as nat
    }
}

/// Whether every byte of `s` is a decimal digit.
pub open spec fn all_digits(s: Seq<u8>) -> bool {
    forall|i: int| 0 <= i < s.len() ==> is_digit(#[trigger] s[i])
}

/// `s` without a leading plus sign.
pub open spec fn unsigned_part(s: Seq<u8>) -> Seq<u8> {
    if s.len() > 0 && s[0] == 43 {
        s.skip(1)
    } else {
        s
    }
}

/// The number that `s` writes: an optional plus sign, then one or more
/// decimal digits and nothing else, of a value that fits the machine's
/// index type. Anything else writes no number.
pub open spec fn index_value(s: Seq<u8>) -> Option<usize> {
    let digits = unsigned_part(s);
    if digits.len() > 0 && all_digits(digits) && digits_value(digits) <= usize::MAX {
        Some(digits_value(digits) as usize)
    } else {
        None
    }
}

/// What a face token reads as. A token without a slash is a vertex number.
/// A token with two slashes or more is a vertex, a texture and a normal
/// number, of which the texture number may be left empty. A token with
/// exactly one slash is malformed and reads as three zeros. A part that
/// should be a number and is none is reported by the field's name, the
/// first such part from the left.
pub open spec fn facet_of(s: Seq<u8>) -> Result<Facet, Field> {
    let e0 = next_sep(s, 47, 0);
    if e0 >= s.len() {
        match index_value(s) {
            Some(v) => Ok(Facet { v, t: 0, n: 0 }),
            None => Err(Field::VertexIndex),
        }
    } else {
        let e1 = next_sep(s, 47, e0 + 1);
        if e1 >= s.len() {
            Ok(Facet { v: 0, t: 0, n: 0 })
        } else {
            let e2 = next_sep(s, 47, e1 + 1);
            let texture = if e1 == e0 + 1 {
                Some(0usize)
            } else {
                index_value(s.subrange(e0 + 1, e1))
            };
            match index_value(s.subrange(0, e0)) {
                None => Err(Field::VertexIndex),
                Some(v) => match texture {
                    None => Err(Field::TextureIndex),
                    Some(t) => match index_value(s.subrange(e1 + 1, e2)) {
                        None => Err(Field::NormalIndex),
                        Some(n) => Ok(Facet { v, t, n }),
                    },
                },
            }
        }
    }
}

/// A run of digits writes at least what any of its beginnings writes.
proof fn lemma_digits_grow(s: Seq<u8>, k: int)
    requires
        all_digits(s),
        0 <= k <= s.len(),
    ensures
        digits_value(s.take(k)) <= digits_value(s),
    decreases s.len() - k,
{
    if k < s.len() {
        lemma_digits_grow(s, k + 1);
        assert(s.take(k + 1).drop_last() =~= s.take(k));
        assert(is_digit(s[k]));
        assert(s.take(k + 1).last() == s[k]);
    } else {
        assert(s.take(k) =~= s);
    }
}

/// Reads the bytes `lo..hi` of `s` as a number.
pub fn parse_index(s: &[u8], lo: usize, hi: usize) -> (r: Option<usize>)
    requires
        lo <= hi <= s.len(),
    ensures
        r == index_value(s@.subrange(lo as int, hi as int)),
{
    let ghost token = s@.subrange(lo as int, hi as int);
    let start = if lo < hi && s[lo] == 43 {
        lo + 1
    } else {
        lo
    };
    let ghost digits = s@.subrange(start as int, hi as int);
    proof {
        assert(unsigned_part(token) =~= digits);
    }
    if start == hi {
        return None;
    }
    let mut value: usize = 0;
    let mut i = start;
    proof {
        assert(digits.take(0) =~= Seq::<u8>::empty());
    }
    while i < hi
        invariant
            lo <= start <= i <= hi <= s.len(),
            digits == s@.subrange(start as int, hi as int),
            unsigned_part(s@.subrange(lo as int, hi as int)) == digits,
            all_digits(digits.take(i - start)),
            value == digits_value(digits.take(i - start)),
        decreases hi - i,
    {
        let b = s[i];
        if b < 48 || b > 57 {
            proof {
                assert(digits[i - start] == b);
            }
            return None;
        }
        proof {
            let next = digits.take(i + 1 - start);
            assert(next.drop_last() =~= digits.take(i - start));
            assert(next.last() == b);
            assert(all_digits(next)) by {
                assert forall|j: int| 0 <= j < next.len() implies is_digit(#[trigger] next[j]) by {
                    if j < i - start {
                        assert(next[j] == digits.take(i - start)[j]);
                    }
                }
            }
            if all_digits(digits) {
                lemma_digits_grow(digits, i + 1 - start);
            }
        }
        let scaled = match value.checked_mul(10) {
            Some(scaled) => scaled,
            None => {
                return None;
            },
        };
        value = match scaled.checked_add((b - 48) as usize) {
            Some(sum) => sum,
            None => {
                return None;
            },
        };
        i = i + 1;
    }
    proof {
        assert(digits.take(hi - start) =~= digits);
    }
    Some(value)
}

/// Reads one face token.
pub fn parse_facet_obj(token: &[u8]) -> (r: Result<Facet, Field>)
    ensures
        r == facet_of(token@),
{
    let len = token.len();
    let e0 = find(token, 47, 0);
    proof {
        assert(token@.subrange(0, len as int) =~= token@);
    }
    if e0 >= len {
        return match parse_index(token, 0, len) {
            Some(v) => Ok(Facet { v, t: 0, n: 0 }),
            None => Err(Field::VertexIndex),
        };
    }
    let e1 = find(token, 47, e0 + 1);
    if e1 >= len {
        return Ok(Facet { v: 0, t: 0, n: 0 });
    }
    let e2 = find(token, 47, e1 + 1);
    let v = match parse_index(token, 0, e0) {
        Some(v) => v,
        None => {
            return Err(Field::VertexIndex);
        },
    };
    let t = if e1 == e0 + 1 {
        0
    } else {
        match parse_index(token, e0 + 1, e1) {
            Some(t) => t,
            None => {
                return Err(Field::TextureIndex);
            },
        }
    };
    match parse_index(token, e1 + 1, e2) {
        Some(n) => Ok(Facet { v, t, n }),
        None => Err(Field::NormalIndex),
    }
}

} // verus!
