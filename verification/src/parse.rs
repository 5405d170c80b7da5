//! Verified parsing of command-line numbers: percentages and radix-bit
//! lists.
//!
//! The spec functions form a reference parser over byte sequences; the
//! executable functions return exactly what the reference parser accepts.

use vstd::prelude::*;
use vstd::string::StringSliceAdditionalSpecFns;
use crate::radix::{RadixBits, spec_radix_bits_from_list};

verus! {

/// ASCII bytes that count as whitespace for trimming.
pub open spec fn spec_is_ws(b: u8) -> bool {
    b == 32 || b == 9 || b == 10 || b == 13 || b == 11 || b == 12
}

/// ASCII decimal digit.
pub open spec fn spec_is_digit(b: u8) -> bool {
    48 <= b <= 57
}

/// Numeric value of a sequence of decimal digits, most significant first.
pub open spec fn spec_digits_val(s: Seq<u8>) -> int
    decreases s.len(),
{
    if s.len() == 0 {
        0
    } else {
        spec_digits_val(s.drop_last()) * 10 + (s.last() - 48)
    }
}

/// All bytes are decimal digits.
pub open spec fn spec_all_digits(s: Seq<u8>) -> bool {
    forall|i: int| 0 <= i < s.len() ==> spec_is_digit(#[trigger] s[i])
}

/// The digit sequences accepted as a number body: nonempty, digits only.
pub open spec fn spec_digits_ok(s: Seq<u8>) -> bool {
    s.len() > 0 && spec_all_digits(s)
}

/// What `str::parse::<u32>` accepts: an optional `+` sign followed by
/// digits whose value fits in 32 bits.
pub open spec fn spec_parse_u32(s: Seq<u8>) -> Option<u32> {
    let body = if s.len() >= 1 && s[0] == 43 {
        s.drop_first()
    } else {
        s
    };
    if spec_digits_ok(body) && spec_digits_val(body) <= u32::MAX {
        Some(spec_digits_val(body) as u32)
    } else {
        None
    }
}

/// What `str::parse::<i32>` accepts: an optional sign followed by digits
/// whose value fits in 32 bits.
pub open spec fn spec_parse_i32(s: Seq<u8>) -> Option<i32> {
    let negative = s.len() >= 1 && s[0] == 45;
    let body = if s.len() >= 1 && (s[0] == 43 || s[0] == 45) {
        s.drop_first()
    } else {
        s
    };
    if spec_digits_ok(body) {
        let mag = spec_digits_val(body);
        if negative && mag <= 0x8000_0000 {
            Some((-mag) as i32)
        } else if !negative && mag <= i32::MAX {
            Some(mag as i32)
        } else {
            None
        }
    } else {
        None
    }
}

/// Splitting a byte sequence at commas, as `str::split(',')` does: always
/// at least one field, empty fields preserved.
pub open spec fn spec_split_commas(s: Seq<u8>) -> Seq<Seq<u8>>
    decreases s.len(),
{
    if s.len() == 0 {
        seq![Seq::empty()]
    } else {
        let rest = spec_split_commas(s.drop_first());
        if s[0] == 44 {
            seq![Seq::<u8>::empty()] + rest
        } else {
            seq![seq![s[0]] + rest[0]] + rest.skip(1)
        }
    }
}

/// Leading whitespace removed.
pub open spec fn spec_trim_start(s: Seq<u8>) -> Seq<u8>
    decreases s.len(),
{
    if s.len() > 0 && spec_is_ws(s[0]) {
        spec_trim_start(s.drop_first())
    } else {
        s
    }
}

/// Trailing whitespace removed.
pub open spec fn spec_trim_end(s: Seq<u8>) -> Seq<u8>
    decreases s.len(),
{
    if s.len() > 0 && spec_is_ws(s.last()) {
        spec_trim_end(s.drop_last())
    } else {
        s
    }
}

/// Both ends trimmed.
pub open spec fn spec_trim(s: Seq<u8>) -> Seq<u8> {
    spec_trim_end(spec_trim_start(s))
}

/// The radix-bit list that a command-line string denotes: comma-separated
/// fields, each a 32-bit number after trimming, one to three of them.
pub open spec fn spec_parse_radix_bits(s: Seq<u8>) -> Option<RadixBits> {
    let fields = spec_split_commas(s);
    if forall|i: int| 0 <= i < fields.len() ==> spec_parse_u32(spec_trim(#[trigger] fields[i]))
        is Some {
        spec_radix_bits_from_list(
            Seq::new(fields.len(), |i: int| spec_parse_u32(spec_trim(fields[i]))->Some_0),
        )
    } else {
        None
    }
}

/// Parses a plain digit string from a byte range: its value when the
/// range is nonempty, all digits, and the value fits in 32 bits.
fn parse_digits_field(bytes: &[u8], from: usize, to: usize) -> (r: Option<u32>)
    requires
        from <= to <= bytes@.len(),
    ensures
        r == if spec_digits_ok(bytes@.subrange(from as int, to as int)) && spec_digits_val(
            bytes@.subrange(from as int, to as int),
        ) <= u32::MAX {
            Some(spec_digits_val(bytes@.subrange(from as int, to as int)) as u32)
        } else {
            None::<u32>
        },
{
    let start: usize = from;
    let ghost body = bytes@.subrange(start as int, to as int);
    if start == to {
        proof {
            assert(body.len() == 0);
            assert(!spec_digits_ok(body));
        }
        return None;
    }
    let mut acc: u64 = 0;
    let mut big: bool = false;
    let mut i: usize = start;
    while i < to
        invariant
            start == from,
            start <= i <= to <= bytes@.len(),
            start < to,
            body == bytes@.subrange(start as int, to as int),
            spec_all_digits(bytes@.subrange(start as int, i as int)),
            !big ==> acc == spec_digits_val(bytes@.subrange(start as int, i as int)) && acc
                <= u32::MAX,
            big ==> spec_digits_val(bytes@.subrange(start as int, i as int)) > u32::MAX,
        decreases to - i,
    {
        let b: u8 = bytes[i];
        if b < 48 || b > 57 {
            proof {
                assert(body[i - start] == b);
                assert(!spec_is_digit(body[i - start]));
                assert(!spec_all_digits(body));
            }
            return None;
        }
        let ghost prefix = bytes@.subrange(start as int, i as int);
        let ghost prefix1 = bytes@.subrange(start as int, i as int + 1);
        proof {
            assert(prefix1.drop_last() =~= prefix);
            assert(prefix1.last() == b);
            if big {
                lemma_digits_val_nonneg(prefix);
            }
        }
        if big {
            i = i + 1;
            continue ;
        }
        let next: u64 = acc * 10 + ((b - 48) as u64);
        if next > (u32::MAX as u64) {
            big = true;
        } else {
            acc = next;
        }
        i = i + 1;
    }
    proof {
        assert(bytes@.subrange(start as int, to as int) == body);
    }
    if big {
        proof {
            assert(spec_digits_val(bytes@.subrange(from as int, to as int)) > u32::MAX);
        }
        None
    } else {
        proof {
            assert(spec_digits_ok(bytes@.subrange(from as int, to as int)));
            assert(acc == spec_digits_val(bytes@.subrange(from as int, to as int)));
        }
        Some(acc as u32)
    }
}

/// Parses an unsigned 32-bit number from a byte range, exactly as the
/// reference parser accepts it: an optional `+` sign, then digits.
fn parse_u32_field(bytes: &[u8], from: usize, to: usize) -> (r: Option<u32>)
    requires
        from <= to <= bytes@.len(),
    ensures
        r == spec_parse_u32(bytes@.subrange(from as int, to as int)),
{
    let ghost field = bytes@.subrange(from as int, to as int);
    let start: usize = if from < to && bytes[from] == 43u8 {
        from + 1
    } else {
        from
    };
    let ghost body = bytes@.subrange(start as int, to as int);
    proof {
        if from < to && bytes@[from as int] == 43 {
            assert(field.drop_first() =~= body);
        } else {
            assert(field =~= body);
        }
        if spec_digits_ok(body) {
            lemma_digits_val_nonneg(body);
        }
    }
    parse_digits_field(bytes, start, to)
}

/// A digit string's value is never negative.
proof fn lemma_digits_val_nonneg(s: Seq<u8>)
    requires
        spec_all_digits(s),
    ensures
        spec_digits_val(s) >= 0,
    decreases s.len(),
{
    if s.len() > 0 {
        assert(spec_all_digits(s.drop_last())) by {
            assert(forall|i: int|
                0 <= i < s.len() - 1 ==> #[trigger] s.drop_last()[i] == s[i]);
        }
        lemma_digits_val_nonneg(s.drop_last());
    }
}

/// Splits the byte suffix starting at `i` into comma-separated fields,
/// returned as index ranges into `bytes`.
fn split_ranges(bytes: &[u8], i: usize) -> (r: Vec<(usize, usize)>)
    requires
        i <= bytes@.len(),
    ensures
        r@.len() == spec_split_commas(bytes@.skip(i as int)).len(),
        r@.len() >= 1,
        r@[0].0 == i,
        forall|k: int|
            0 <= k < r@.len() ==> i <= #[trigger] r@[k].0 <= r@[k].1 <= bytes@.len()
                && bytes@.subrange(r@[k].0 as int, r@[k].1 as int) == spec_split_commas(
                bytes@.skip(i as int),
            )[k],
    decreases bytes@.len() - i,
{
    let ghost s = bytes@.skip(i as int);
    if i == bytes.len() {
        proof {
            assert(s.len() == 0);
            assert(bytes@.subrange(i as int, i as int) =~= Seq::<u8>::empty());
        }
        let mut r: Vec<(usize, usize)> = Vec::new();
        r.push((i, i));
        return r;
    }
    proof {
        assert(s[0] == bytes@[i as int]);
        assert(s.drop_first() =~= bytes@.skip(i as int + 1));
    }
    let mut rest: Vec<(usize, usize)> = split_ranges(bytes, i + 1);
    if bytes[i] == 44u8 {
        rest.insert(0, (i, i));
        proof {
            assert(bytes@.subrange(i as int, i as int) =~= Seq::<u8>::empty());
        }
        rest
    } else {
        let first: (usize, usize) = rest[0];
        let merged: (usize, usize) = (i, first.1);
        rest[0] = merged;
        proof {
            let restspec = spec_split_commas(bytes@.skip(i as int + 1));
            assert(bytes@.subrange(i as int, first.1 as int) =~= seq![bytes@[i as int]]
                + bytes@.subrange(i as int + 1, first.1 as int));
            assert(bytes@.subrange(i as int, first.1 as int) == (seq![s[0]] + restspec[0]));
        }
        rest
    }
}

/// Whether a byte is ASCII whitespace for trimming purposes.
fn is_ws_byte(b: u8) -> (r: bool)
    ensures
        r == spec_is_ws(b),
{
    b == 32u8 || b == 9u8 || b == 10u8 || b == 13u8 || b == 11u8 || b == 12u8
}

/// Trims ASCII whitespace from both ends of a byte range, returning the
/// trimmed range's bounds.
fn trim_range(bytes: &[u8], from: usize, to: usize) -> (r: (usize, usize))
    requires
        from <= to <= bytes@.len(),
    ensures
        from <= r.0 <= r.1 <= to,
        bytes@.subrange(r.0 as int, r.1 as int) == spec_trim(
            bytes@.subrange(from as int, to as int),
        ),
{
    let mut lo: usize = from;
    while lo < to && is_ws_byte(bytes[lo])
        invariant
            from <= lo <= to <= bytes@.len(),
            spec_trim_start(bytes@.subrange(from as int, to as int)) == spec_trim_start(
                bytes@.subrange(lo as int, to as int),
            ),
        decreases to - lo,
    {
        proof {
            assert(bytes@.subrange(lo as int, to as int).drop_first() =~= bytes@.subrange(
                lo as int + 1, to as int));
        }
        lo = lo + 1;
    }
    proof {
        assert(spec_trim_start(bytes@.subrange(lo as int, to as int)) == bytes@.subrange(
            lo as int, to as int));
    }
    let mut hi: usize = to;
    while hi > lo && is_ws_byte(bytes[hi - 1])
        invariant
            lo <= hi <= to <= bytes@.len(),
            spec_trim_end(bytes@.subrange(lo as int, to as int)) == spec_trim_end(
                bytes@.subrange(lo as int, hi as int),
            ),
        decreases hi,
    {
        proof {
            assert(bytes@.subrange(lo as int, hi as int).drop_last() =~= bytes@.subrange(
                lo as int, hi as int - 1));
        }
        hi = hi - 1;
    }
    proof {
        assert(spec_trim_end(bytes@.subrange(lo as int, hi as int)) == bytes@.subrange(
            lo as int, hi as int));
    }
    (lo, hi)
}

/// Parses a comma-separated radix-bit list, e.g. `8,8`: one to three pass
/// widths, each an unsigned 32-bit number with optional surrounding
/// whitespace.
///
/// Returns exactly the configuration that the reference parser accepts,
/// and an error for every string it rejects.
pub fn parse_radix_bits(input: &str) -> (r: Result<RadixBits, String>)
    ensures
        match spec_parse_radix_bits(input.spec_bytes()) {
            Some(rb) => r == Result::<RadixBits, String>::Ok(rb),
            None => r is Err,
        },
{
    let bytes: &[u8] = input.as_bytes();
    let ghost s = input.spec_bytes();
    proof {
        assert(bytes@.skip(0) =~= s);
    }
    let ghost fields = spec_split_commas(s);
    let ranges: Vec<(usize, usize)> = split_ranges(bytes, 0);
    let nfields: usize = ranges.len();

    let mut vals: Vec<u32> = Vec::new();
    let mut k: usize = 0;
    while k < nfields
        invariant
            nfields == ranges@.len(),
            nfields == fields.len(),
            s == input.spec_bytes(),
            bytes@ == s,
            fields == spec_split_commas(s),
            forall|q: int|
                0 <= q < ranges@.len() ==> #[trigger] ranges@[q].0 <= ranges@[q].1
                    <= bytes@.len() && bytes@.subrange(ranges@[q].0 as int, ranges@[q].1 as int)
                    == fields[q],
            k <= nfields,
            vals@.len() == k,
            forall|q: int|
                0 <= q < k ==> spec_parse_u32(spec_trim(#[trigger] fields[q])) == Some(vals@[q]),
        decreases nfields - k,
    {
        let range: (usize, usize) = ranges[k];
        let trimmed: (usize, usize) = trim_range(bytes, range.0, range.1);
        match parse_u32_field(bytes, trimmed.0, trimmed.1) {
            Some(v) => {
                vals.push(v);
            },
            None => {
                return Err(String::from_str("invalid digit found in string"));
            },
        }
        k = k + 1;
    }

    proof {
        if forall|i: int|
            0 <= i < fields.len() ==> spec_parse_u32(spec_trim(#[trigger] fields[i])) is Some {
            assert(vals@ =~= Seq::new(
                fields.len(),
                |i: int| spec_parse_u32(spec_trim(fields[i]))->Some_0,
            ));
        }
    }
    RadixBits::from_list(&vals)
}

/// Validates that a string holds an integer percentage between 0 and 100,
/// as the command line's validator for the join selectivity requires.
///
/// Returns `Ok` exactly when the string parses as a 32-bit integer whose
/// value lies in `[0, 100]`.
pub fn is_percent(x: String) -> (r: Result<(), String>)
    ensures
        r is Ok <==> (spec_parse_i32(vstd::utf8::encode_utf8(x@)) matches Some(v) && 0 <= v <= 100),
{
    let bytes: &[u8] = x.as_str().as_bytes();
    let len: usize = bytes.len();
    let ghost s = vstd::utf8::encode_utf8(x@);

    let (negative, start): (bool, usize) = if len >= 1 && (bytes[0] == 43u8 || bytes[0] == 45u8) {
        (bytes[0] == 45u8, 1)
    } else {
        (false, 0)
    };
    let ghost body = s.subrange(start as int, len as int);
    proof {
        if len >= 1 && (s[0] == 43 || s[0] == 45) {
            assert(s.drop_first() =~= body);
        } else {
            assert(s =~= body);
        }
        assert(s.subrange(0, len as int) =~= s);
    }
    let mag: Option<u32> = parse_digits_field(bytes, start, len);
    let parsed: Option<i32> = match mag {
        Some(m) => {
            if negative {
                if m <= 0x8000_0000u32 {
                    let neg64: i64 = -(m as i64);
                    Some(neg64 as i32)
                } else {
                    None
                }
            } else {
                if m <= (i32::MAX as u32) {
                    Some(m as i32)
                } else {
                    None
                }
            }
        },
        None => None,
    };
    proof {
        if spec_digits_ok(body) {
            lemma_digits_val_nonneg(body);
        }
    }
    match parsed {
        Some(v) => {
            if 0 <= v && v <= 100 {
                Ok(())
            } else {
                Err(String::from_str("The value must be a percentage between [0, 100]."))
            }
        },
        None => Err(
            String::from_str(
                "Failed to parse integer. The value must be a percentage between [0, 100].",
            ),
        ),
    }
}

} // verus!
