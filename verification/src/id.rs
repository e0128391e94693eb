//! Wikibase-style identifiers and their packing into one integer space.
//!
//! Entities (`Q`), properties (`P`), lexemes (`L`), forms (`F`), senses
//! (`S`) and datatype tags each occupy a distinct band of the integer
//! line, so that a single number names any of them unambiguously.

use vstd::prelude::*;
use vstd::string::StringSliceAdditionalSpecFns;

use crate::dtype::DataType;

verus! {

/// A typed identifier.  Forms and senses carry the lexeme number and the
/// index within the lexeme.
#[derive(Clone, Copy, Debug, PartialEq, Eq, Structural)]
pub enum Id {
    Fid(u64, u16),
    Lid(u64),
    Pid(u64),
    Qid(u64),
    Sid(u64, u16),
    DataType(DataType),
}

impl Id {
    /// The number that the identifier packs to: entities keep their
    /// number; properties, lexemes and datatype tags are offset by one,
    /// two and three billion; forms and senses build on the lexeme band.
    pub open spec fn encoding(self) -> int {
        match self {
            Id::Qid(n) => n as int,
            Id::Pid(n) => n + 1_000_000_000,
            Id::Lid(n) => n + 2_000_000_000,
            Id::DataType(d) => d.code() + 3_000_000_000,
            Id::Fid(l, k) => l + 2_000_000_000 + (k as int) * 100_000_000_000,
            Id::Sid(l, k) => l + 2_000_000_000 + (k as int) * 100_000_000_000 + 10_000_000_000,
        }
    }

    /// Whether the packed number fits in a machine word.
    pub open spec fn encodable(self) -> bool {
        self.encoding() <= u64::MAX
    }

    /// Packs the identifier into one number.
    pub fn to_u64(&self) -> (r: u64)
        requires
            self.encodable(),
        ensures
            r == self.encoding(),
    {
        match self {
            Id::Qid(n) => *n,
            Id::Pid(n) => *n + 1_000_000_000,
            Id::Lid(n) => *n + 2_000_000_000,
            Id::DataType(d) => d.as_code() as u64 + 3_000_000_000,
            Id::Fid(l, k) => *l + 2_000_000_000 + (*k as u64) * 100_000_000_000,
            Id::Sid(l, k) => *l + 2_000_000_000 + (*k as u64) * 100_000_000_000 + 10_000_000_000,
        }
    }
}

/// Whether the byte is an ASCII decimal digit.
pub open spec fn is_digit(b: u8) -> bool {
    48 <= b <= 57
}

/// Whether every byte of `s` is a decimal digit.
pub open spec fn all_digits(s: Seq<u8>) -> bool {
    forall|i: int| 0 <= i < s.len() ==> is_digit(#[trigger] s[i])
}

/// The number that the digit bytes of `s` denote.
pub open spec fn digits_val(s: Seq<u8>) -> int
    decreases s.len(),
{
    if s.len() == 0 {
        0
    } else {
        digits_val(s.drop_last()) * 10 + (s.last() - 48)
    }
}

/// A non-empty, all-digit segment whose value fits in a machine word.
pub open spec fn num_ok(s: Seq<u8>) -> bool {
    s.len() > 0 && all_digits(s) && digits_val(s) <= u64::MAX
}

/// Digit strings denote non-negative numbers.
proof fn lemma_digits_val_nonneg(s: Seq<u8>)
    requires
        all_digits(s),
    ensures
        digits_val(s) >= 0,
    decreases s.len(),
{
    if s.len() > 0 {
        assert(all_digits(s.drop_last())) by {
            assert(forall|i: int| 0 <= i < s.len() - 1 ==> s.drop_last()[i] == #[trigger] s[i]);
        }
        lemma_digits_val_nonneg(s.drop_last());
        assert(is_digit(s[s.len() - 1]));
    }
}

/// A digit string is worth at least any of its prefixes.
proof fn lemma_digits_val_monotone(s: Seq<u8>, k: int)
    requires
        all_digits(s),
        0 <= k <= s.len(),
    ensures
        digits_val(s.subrange(0, k)) <= digits_val(s),
    decreases s.len() - k,
{
    if k < s.len() {
        lemma_digits_val_monotone(s, k + 1);
        let p = s.subrange(0, k);
        let p1 = s.subrange(0, k + 1);
        assert(p1.drop_last() =~= p);
        assert(p1.last() == s[k]);
        assert(all_digits(p)) by {
            assert(forall|i: int| 0 <= i < k ==> p[i] == #[trigger] s[i]);
        }
        lemma_digits_val_nonneg(p);
        assert(is_digit(s[k]));
        assert(digits_val(p1) == digits_val(p) * 10 + (s[k] - 48));
        assert(digits_val(p) <= digits_val(p1));
    } else {
        assert(s.subrange(0, k) =~= s);
    }
}

/// Reads the decimal number in `b[from..to]`.  Returns `None` when the
/// segment is empty, holds a non-digit, or denotes a number over
/// `u64::MAX`.
fn parse_digits(b: &[u8], from: usize, to: usize) -> (r: Option<u64>)
    requires
        from <= to <= b@.len(),
    ensures
        ({
            let seg = b@.subrange(from as int, to as int);
            match r {
                Some(v) => num_ok(seg) && v == digits_val(seg),
                None => !num_ok(seg),
            }
        }),
{
    let ghost seg = b@.subrange(from as int, to as int);
    if from == to {
        return None;
    }
    let mut acc: u64 = 0;
    let mut i: usize = from;
    proof {
        assert(b@.subrange(from as int, from as int) =~= Seq::<u8>::empty());
    }
    while i < to
        invariant
            from <= i <= to <= b@.len(),
            seg == b@.subrange(from as int, to as int),
            all_digits(b@.subrange(from as int, i as int)),
            acc == digits_val(b@.subrange(from as int, i as int)),
        decreases to - i,
    {
        let ghost p = b@.subrange(from as int, i as int);
        let ghost p1 = b@.subrange(from as int, i + 1 as int);
        proof {
            assert(p1.drop_last() =~= p);
            assert(p1.last() == b@[i as int]);
        }
        let d = b[i];
        if d < 48 || d > 57 {
            proof {
                assert(seg[i - from] == d);
                assert(!all_digits(seg));
            }
            return None;
        }
        let dv = (d - 48) as u64;
        if acc > (u64::MAX - dv) / 10 {
            proof {
                assert(digits_val(p1) == acc * 10 + dv);
                assert(acc * 10 + dv > u64::MAX);
                if all_digits(seg) {
                    assert(p1 =~= seg.subrange(0, i + 1 - from));
                    lemma_digits_val_monotone(seg, i + 1 - from);
                    assert(digits_val(seg) > u64::MAX);
                }
            }
            return None;
        }
        proof {
            assert(acc * 10 + dv <= u64::MAX);
            assert(all_digits(p1)) by {
                assert(forall|k: int| 0 <= k < p.len() ==> p1[k] == #[trigger] p[k]);
                assert(is_digit(p1[p1.len() - 1]));
            }
        }
        acc = acc * 10 + dv;
        i = i + 1;
    }
    proof {
        assert(b@.subrange(from as int, i as int) =~= seg);
    }
    Some(acc)
}

/// Whether `s` holds a dash.
pub open spec fn has_dash(s: Seq<u8>) -> bool {
    exists|i: int| 0 <= i < s.len() && s[i] == 45
}

/// The position of the first dash of `s`; meaningful when one exists.
pub open spec fn first_dash(s: Seq<u8>) -> int {
    choose|i: int|
        0 <= i < s.len() && s[i] == 45 && forall|j: int| 0 <= j < i ==> s[j] != 45
}

/// The parse of a textual identifier: a band letter followed by a
/// number, or, for forms and senses, by the lexeme number, a dash, a
/// skipped letter, and the index.
pub open spec fn parse_spec(s: Seq<u8>) -> Option<Id> {
    if s.len() == 0 {
        None
    } else {
        let tail = s.subrange(1, s.len() as int);
        if s[0] == 81 {
            if num_ok(tail) {
                Some(Id::Qid(digits_val(tail) as u64))
            } else {
                None
            }
        } else if s[0] == 80 {
            if num_ok(tail) {
                Some(Id::Pid(digits_val(tail) as u64))
            } else {
                None
            }
        } else if s[0] == 76 {
            if num_ok(tail) {
                Some(Id::Lid(digits_val(tail) as u64))
            } else {
                None
            }
        } else if s[0] == 70 || s[0] == 83 {
            if !has_dash(tail) {
                None
            } else {
                let d = first_dash(tail);
                if d + 2 <= tail.len() {
                    let lpart = tail.subrange(0, d);
                    let rpart = tail.subrange(d + 2, tail.len() as int);
                    if num_ok(lpart) && rpart.len() > 0 && all_digits(rpart) && digits_val(rpart)
                        <= u16::MAX {
                        if s[0] == 70 {
                            Some(Id::Fid(digits_val(lpart) as u64, digits_val(rpart) as u16))
                        } else {
                            Some(Id::Sid(digits_val(lpart) as u64, digits_val(rpart) as u16))
                        }
                    } else {
                        None
                    }
                } else {
                    None
                }
            }
        } else {
            None
        }
    }
}

impl Id {
    /// Reads an identifier from its textual form, by its leading band
    /// letter.  Returns `None` for any text outside the grammar or with
    /// a number out of range.
    pub fn parse(s: &str) -> (r: Option<Id>)
        ensures
            r == parse_spec(s.spec_bytes()),
    {
        Id::parse_bytes(s.as_bytes())
    }

    /// Reads an identifier from its byte form.
    pub fn parse_bytes(b: &[u8]) -> (r: Option<Id>)
        ensures
            r == parse_spec(b@),
    {
        if b.len() == 0 {
            return None;
        }
        let ghost tail = b@.subrange(1, b@.len() as int);
        let c = b[0];
        if c == 81 || c == 80 || c == 76 {
            match parse_digits(b, 1, b.len()) {
                Some(v) => {
                    proof {
                        assert(tail =~= b@.subrange(1, b@.len() as int));
                    }
                    if c == 81 {
                        Some(Id::Qid(v))
                    } else if c == 80 {
                        Some(Id::Pid(v))
                    } else {
                        Some(Id::Lid(v))
                    }
                },
                None => None,
            }
        } else if c == 70 || c == 83 {
            // Find the first dash after the band letter.
            let mut p: usize = 1;
            let mut found = false;
            while p < b.len() && !found
                invariant
                    1 <= p <= b@.len(),
                    forall|j: int| 1 <= j < p ==> b@[j] != 45,
                    found ==> p < b@.len() && b@[p as int] == 45,
                decreases b@.len() - p + if found {
                    0int
                } else {
                    1int
                },
            {
                if b[p] == 45 {
                    found = true;
                } else {
                    p = p + 1;
                }
            }
            if !found {
                proof {
                    assert(!has_dash(tail)) by {
                        if has_dash(tail) {
                            let w = choose|i: int| 0 <= i < tail.len() && tail[i] == 45;
                            assert(b@[w + 1] == 45);
                        }
                    }
                }
                return None;
            }
            let ghost d = (p - 1) as int;
            proof {
                assert(tail[d] == 45);
                assert(forall|j: int| 0 <= j < d ==> tail[j] == b@[j + 1] && b@[j + 1] != 45);
                assert(has_dash(tail));
                assert(first_dash(tail) == d) by {
                    let w = first_dash(tail);
                    assert(0 <= w < tail.len() && tail[w] == 45 && forall|j: int|
                        0 <= j < w ==> tail[j] != 45);
                    if w < d {
                        assert(tail[w] != 45);
                    }
                    if w > d {
                        assert(tail[d] != 45);
                    }
                }
            }
            if b.len() - p < 2 {
                proof {
                    assert(d + 2 > tail.len());
                }
                return None;
            }
            let left = parse_digits(b, 1, p);
            let right = parse_digits(b, p + 2, b.len());
            proof {
                assert(b@.subrange(1, p as int) =~= tail.subrange(0, d));
                assert(b@.subrange(p + 2 as int, b@.len() as int) =~= tail.subrange(
                    d + 2,
                    tail.len() as int,
                ));
            }
            match (left, right) {
                (Some(lv), Some(rv)) => {
                    if rv <= 65535 {
                        if c == 70 {
                            Some(Id::Fid(lv, rv as u16))
                        } else {
                            Some(Id::Sid(lv, rv as u16))
                        }
                    } else {
                        None
                    }
                },
                _ => None,
            }
        } else {
            None
        }
    }
}

} // verus!
