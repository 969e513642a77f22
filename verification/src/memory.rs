//! A memory quantity in bytes, read from and written as a compact
//! human-readable text (`8G`, `512M`, `1048576`), base 1024.

use vstd::prelude::*;
use crate::text::{
    chars_of, decimal, is_space, lemma_decimal, lemma_parse_decimal, lemma_trim_no_space,
    parse_u64, parse_u64_spec, push_char, string_from, take_chars, trim, trim_chars, u64_text,
};

verus! {

/// Bytes in a kibibyte.
pub const KIB: u64 = 1024;

/// Bytes in a mebibyte.
pub const MIB: u64 = 1048576;

/// Bytes in a gibibyte.
pub const GIB: u64 = 1073741824;

/// A memory quantity in bytes.
#[derive(Debug, Clone, Copy, PartialEq, Eq, Structural)]
pub struct Memory(u64);

impl View for Memory {
    type V = u64;

    closed spec fn view(&self) -> u64 {
        self.0
    }
}

/// Why a memory text could not be read.
#[derive(Debug, Clone, PartialEq, Eq)]
pub enum MemoryParseError {
    /// Nothing but white space.
    Empty,
    /// Not a non-zero number optionally followed by `K`, `M`, `G` (with or
    /// without `B`) or `B`; holds the text as given.
    Invalid(String),
}

/// Whether `c` is the letter `lo` in either case.
pub open spec fn letter_is(c: char, lo: char, up: char) -> bool {
    c == lo || c == up
}

/// Whether `t` ends in the one-letter unit `lo`/`up`, in either case.
pub open spec fn ends_unit1(t: Seq<char>, lo: char, up: char) -> bool {
    t.len() >= 1 && letter_is(t[t.len() - 1], lo, up)
}

/// Whether `t` ends in the unit `lo`/`up` followed by `b`, in either case.
pub open spec fn ends_unit2(t: Seq<char>, lo: char, up: char) -> bool {
    t.len() >= 2 && letter_is(t[t.len() - 2], lo, up) && letter_is(t[t.len() - 1], 'b', 'B')
}

/// The numeral part of a trimmed memory text and its multiplier: `GB`/`G`,
/// `MB`/`M`, `KB`/`K` (in that order of preference), then `B`, then none.
pub open spec fn split_unit(t: Seq<char>) -> (Seq<char>, nat) {
    if ends_unit2(t, 'g', 'G') {
        (t.take(t.len() - 2), GIB as nat)
    } else if ends_unit1(t, 'g', 'G') {
        (t.take(t.len() - 1), GIB as nat)
    } else if ends_unit2(t, 'm', 'M') {
        (t.take(t.len() - 2), MIB as nat)
    } else if ends_unit1(t, 'm', 'M') {
        (t.take(t.len() - 1), MIB as nat)
    } else if ends_unit2(t, 'k', 'K') {
        (t.take(t.len() - 2), KIB as nat)
    } else if ends_unit1(t, 'k', 'K') {
        (t.take(t.len() - 1), KIB as nat)
    } else if ends_unit1(t, 'b', 'B') {
        (t.take(t.len() - 1), 1)
    } else {
        (t, 1)
    }
}

/// The number of bytes a memory text denotes, if it denotes a non-zero
/// quantity that fits in a `u64`: a zero quantity is no memory size.
pub open spec fn memory_bytes(s: Seq<char>) -> Option<u64> {
    let (digits, mult) = split_unit(trim(s));
    match parse_u64_spec(trim(digits)) {
        Some(v) => if v != 0 && v * mult <= u64::MAX {
            Some((v * mult) as u64)
        } else {
            None
        },
        None => None,
    }
}

/// The text of a byte count: the largest of `G`, `M`, `K` that divides a
/// non-zero count exactly, else the plain number.
pub open spec fn memory_text(b: u64) -> Seq<char> {
    if b != 0 && b % GIB == 0 {
        decimal((b / GIB) as nat).push('G')
    } else if b != 0 && b % MIB == 0 {
        decimal((b / MIB) as nat).push('M')
    } else if b != 0 && b % KIB == 0 {
        decimal((b / KIB) as nat).push('K')
    } else {
        decimal(b as nat)
    }
}

impl Memory {
    /// The quantity of `bytes` bytes.
    pub closed spec fn from_bytes_spec(bytes: u64) -> Memory {
        Memory(bytes)
    }

    /// The quantity of a byte count has that count.
    pub proof fn lemma_from_bytes_spec(bytes: u64)
        ensures
            Memory::from_bytes_spec(bytes)@ == bytes,
    {
    }

    /// A quantity of `bytes` bytes.
    pub fn from_bytes(bytes: u64) -> (r: Memory)
        ensures
            r@ == bytes,
            r == Memory::from_bytes_spec(bytes),
    {
        Memory(bytes)
    }

    /// The quantity in bytes.
    pub fn bytes(self) -> (r: u64)
        ensures
            r == self@,
    {
        self.0
    }

    /// Reads a memory text: a number, optionally followed by a unit `K`, `M`,
    /// `G` (each optionally followed by `B`) or `B`, in either case, with white
    /// space allowed around the whole and before the unit. A zero quantity is
    /// refused as invalid.
    pub fn parse(s: &str) -> (r: Result<Memory, MemoryParseError>)
        ensures
            r is Ok <==> memory_bytes(s@) is Some,
            r matches Ok(m) ==> memory_bytes(s@) == Some(m@),
            (r matches Err(MemoryParseError::Empty)) <==> trim(s@).len() == 0,
            r matches Err(MemoryParseError::Invalid(t)) ==> t@ == s@,
    {
        let v = chars_of(s);
        let t = trim_chars(&v);
        let n = t.len();
        if n == 0 {
            proof {
                assert(split_unit(trim(s@)) == (trim(s@), 1nat));
            }
            return Err(MemoryParseError::Empty);
        }
        let g2 = n >= 2 && (t[n - 2] == 'g' || t[n - 2] == 'G') && (t[n - 1] == 'b' || t[n - 1] == 'B');
        let m2 = n >= 2 && (t[n - 2] == 'm' || t[n - 2] == 'M') && (t[n - 1] == 'b' || t[n - 1] == 'B');
        let k2 = n >= 2 && (t[n - 2] == 'k' || t[n - 2] == 'K') && (t[n - 1] == 'b' || t[n - 1] == 'B');
        let last = t[n - 1];
        let (cut, mult): (usize, u64) = if g2 {
            (2, GIB)
        } else if last == 'g' || last == 'G' {
            (1, GIB)
        } else if m2 {
            (2, MIB)
        } else if last == 'm' || last == 'M' {
            (1, MIB)
        } else if k2 {
            (2, KIB)
        } else if last == 'k' || last == 'K' {
            (1, KIB)
        } else if last == 'b' || last == 'B' {
            (1, 1)
        } else {
            (0, 1)
        };
        proof {
            assert(t@.take(n as int) =~= t@);
            assert(split_unit(t@) == (t@.take(n - cut), mult as nat));
        }
        let d = take_chars(&t, n - cut);
        let dt = trim_chars(&d);
        match parse_u64(&dt) {
            Some(x) => if x == 0 {
                Err(MemoryParseError::Invalid(string_from(s)))
            } else {
                match x.checked_mul(mult) {
                    Some(b) => Ok(Memory(b)),
                    None => Err(MemoryParseError::Invalid(string_from(s))),
                }
            },
            None => Err(MemoryParseError::Invalid(string_from(s))),
        }
    }

    /// The text of the quantity: `8G`, `512M`, `2K`, or the plain byte count.
    pub fn to_string(&self) -> (r: String)
        ensures
            r@ == memory_text(self@),
    {
        let b = self.0;
        if b != 0 && b % GIB == 0 {
            let mut s = u64_text(b / GIB);
            push_char(&mut s, 'G');
            s
        } else if b != 0 && b % MIB == 0 {
            let mut s = u64_text(b / MIB);
            push_char(&mut s, 'M');
            s
        } else if b != 0 && b % KIB == 0 {
            let mut s = u64_text(b / KIB);
            push_char(&mut s, 'K');
            s
        } else {
            u64_text(b)
        }
    }
}

impl core::str::FromStr for Memory {
    type Err = MemoryParseError;

    fn from_str(s: &str) -> (r: Result<Memory, MemoryParseError>)
        ensures
            r is Ok <==> memory_bytes(s@) is Some,
            r matches Ok(m) ==> memory_bytes(s@) == Some(m@),
            (r matches Err(MemoryParseError::Empty)) <==> trim(s@).len() == 0,
            r matches Err(MemoryParseError::Invalid(t)) ==> t@ == s@,
    {
        Memory::parse(s)
    }
}

proof fn lemma_numeral_with_unit(q: nat, u: char)
    requires
        u == 'G' || u == 'M' || u == 'K',
    ensures
        trim(decimal(q).push(u)) == decimal(q).push(u),
        decimal(q).push(u).take(decimal(q).len() as int) == decimal(q),
{
    lemma_decimal(q);
    let t = decimal(q).push(u);
    assert forall|i: int| 0 <= i < t.len() implies !is_space(#[trigger] t[i]) by {
        if i < decimal(q).len() {
            assert(t[i] == decimal(q)[i]);
        }
    }
    lemma_trim_no_space(t);
    assert(t.take(decimal(q).len() as int) =~= decimal(q));
}

proof fn lemma_unit_text(b: u64, u: char, mult: u64)
    requires
        (u == 'G' && mult == GIB) || (u == 'M' && mult == MIB) || (u == 'K' && mult == KIB),
        b % mult == 0,
        b != 0,
    ensures
        memory_bytes(decimal((b / mult) as nat).push(u)) == Some(b),
{
    let q = (b / mult) as nat;
    let d = decimal(q);
    let t = d.push(u);
    lemma_numeral_with_unit(q, u);
    lemma_decimal(q);
    lemma_trim_no_space(d);
    lemma_parse_decimal(q as u64);
    assert(t[t.len() - 1] == u);
    assert(t.len() >= 2 ==> t[t.len() - 2] == d[d.len() - 1]);
    assert(crate::text::is_digit(d[d.len() - 1]));
    assert(split_unit(t) == (d, mult as nat));
    assert(parse_u64_spec(trim(d)) == Some(q as u64));
    assert(q * mult == b) by (nonlinear_arith)
        requires
            q == b / mult,
            b % mult == 0,
            mult > 0,
    ;
}

/// Reading back the text of a non-zero quantity gives the same quantity.
pub proof fn law_memory_text_round_trips(b: u64)
    requires
        b != 0,
    ensures
        memory_bytes(memory_text(b)) == Some(b),
{
    if b != 0 && b % GIB == 0 {
        lemma_unit_text(b, 'G', GIB);
    } else if b != 0 && b % MIB == 0 {
        lemma_unit_text(b, 'M', MIB);
    } else if b != 0 && b % KIB == 0 {
        lemma_unit_text(b, 'K', KIB);
    } else {
        let d = decimal(b as nat);
        lemma_decimal(b as nat);
        lemma_trim_no_space(d);
        lemma_parse_decimal(b);
        assert(crate::text::is_digit(d[d.len() - 1]));
        assert(d.len() >= 2 ==> crate::text::is_digit(d[d.len() - 2]));
        assert(split_unit(d) == (d, 1nat));
    }
}

} // verus!
