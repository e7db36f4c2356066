//! Parsing of the command-line values: unsigned integers, lists of them,
//! and `WIDTHxHEIGHT` dimensions.
use vstd::prelude::*;
use vstd::string::StringSliceAdditionalSpecFns;

verus! {

/// The error of a field that is not an unsigned 32-bit decimal integer.
pub const INTEGER_ERROR: &'static str = "Could not parse integer value";

/// The error of a dimension list that does not hold exactly two values.
pub const DIMENSIONS_ERROR: &'static str = "Dimensions should use WIDTHxHEIGHT";

/// An ASCII decimal digit.
pub open spec fn is_digit(b: u8) -> bool {
    48 <= b <= 57
}

/// The value of a string of decimal digits (zero for the empty string).
pub open spec fn digits_value(s: Seq<u8>) -> nat
    decreases s.len(),
{
    if s.len() == 0 {
        0
    } else {
        digits_value(s.drop_last()) * 10 + (s.last() - 48) as nat
    }
}

/// The digits of an unsigned integer's text: what follows an optional
/// leading `+`.
pub open spec fn unsigned_digits(s: Seq<u8>) -> Seq<u8> {
    if s.len() > 0 && s[0] == 43 {
        s.drop_first()
    } else {
        s
    }
}

/// The `u32` that the text `s` denotes: an optional `+` followed by one or
/// more decimal digits whose value fits in 32 bits; `None` otherwise.
pub open spec fn u32_text(s: Seq<u8>) -> Option<u32> {
    let d = unsigned_digits(s);
    if d.len() > 0 && (forall|i: int| 0 <= i < d.len() ==> is_digit(#[trigger] d[i]))
        && digits_value(d) <= u32::MAX {
        Some(digits_value(d) as u32)
    } else {
        None
    }
}

/// The fields of `s` between occurrences of `divider` (one more than the
/// number of dividers; empty fields included).
pub open spec fn split_fields(s: Seq<u8>, divider: u8) -> Seq<Seq<u8>>
    decreases s.len(),
{
    if s.len() == 0 {
        seq![Seq::empty()]
    } else {
        let prev = split_fields(s.drop_last(), divider);
        if s.last() == divider {
            prev.push(Seq::empty())
        } else {
            prev.update(prev.len() - 1, prev.last().push(s.last()))
        }
    }
}

/// The values of all fields, or `None` when one of them is not a `u32`.
pub open spec fn parse_fields(fields: Seq<Seq<u8>>) -> Option<Seq<u32>>
    decreases fields.len(),
{
    if fields.len() == 0 {
        Some(Seq::empty())
    } else {
        match (parse_fields(fields.drop_last()), u32_text(fields.last())) {
            (Some(vs), Some(v)) => Some(vs.push(v)),
            _ => None,
        }
    }
}

/// Splitting never yields an empty list of fields.
proof fn lemma_split_fields_len(s: Seq<u8>, divider: u8)
    ensures
        split_fields(s, divider).len() >= 1,
    decreases s.len(),
{
    if s.len() > 0 {
        lemma_split_fields_len(s.drop_last(), divider);
    }
}

/// The `u32` that `b[start..end]` denotes.
fn parse_u32_bytes(b: &[u8], start: usize, end: usize) -> (r: Option<u32>)
    requires
        start <= end <= b@.len(),
    ensures
        r == u32_text(b@.subrange(start as int, end as int)),
{
    let ghost s = b@.subrange(start as int, end as int);
    let mut i: usize = start;
    if start < end && b[start] == 43 {
        i = start + 1;
    }
    let ghost d = unsigned_digits(s);
    assert(d =~= b@.subrange(i as int, end as int));
    if i == end {
        return None;
    }
    let first: usize = i;
    let mut acc: u64 = 0;
    let mut overflow: bool = false;
    while i < end
        invariant
            first <= i <= end <= b@.len(),
            first < end,
            start <= end,
            s == b@.subrange(start as int, end as int),
            d == unsigned_digits(s),
            d =~= b@.subrange(first as int, end as int),
            forall|k: int| first <= k < i ==> is_digit(#[trigger] b@[k]),
            !overflow ==> acc == digits_value(b@.subrange(first as int, i as int)),
            !overflow ==> acc <= u32::MAX,
            overflow ==> digits_value(b@.subrange(first as int, i as int)) > u32::MAX,
        decreases end - i,
    {
        let c = b[i];
        if c < 48 || c > 57 {
            assert(d[i - first] == b@[i as int]);
            assert(!is_digit(d[i - first]));
            return None;
        }
        assert(b@.subrange(first as int, i + 1).drop_last() =~= b@.subrange(first as int, i as int));
        if !overflow {
            acc = acc * 10 + (c - 48) as u64;
            if acc > u32::MAX as u64 {
                overflow = true;
            }
        }
        i = i + 1;
    }
    assert(b@.subrange(first as int, end as int) =~= d);
    assert forall|k: int| 0 <= k < d.len() implies is_digit(#[trigger] d[k]) by {
        assert(d[k] == b@[first + k]);
    }
    if overflow {
        None
    } else {
        Some(acc as u32)
    }
}

/// Parses an unsigned 32-bit decimal integer, with an optional leading `+`.
pub fn parse_integer(src: &str) -> (r: Result<u32, &str>)
    ensures
        r is Ok <==> u32_text(src.spec_bytes()) is Some,
        r matches Ok(v) ==> u32_text(src.spec_bytes()) == Some(v),
        r matches Err(e) ==> e == INTEGER_ERROR,
{
    let b = src.as_bytes();
    assert(b@.subrange(0, b@.len() as int) =~= b@);
    match parse_u32_bytes(b, 0, b.len()) {
        Some(v) => Ok(v),
        None => Err(INTEGER_ERROR),
    }
}

/// Parses a list of unsigned integers separated by `divider` (an ASCII
/// character). Fails with the integer error when any field, empty ones
/// included, is not an unsigned 32-bit decimal integer.
pub fn parse_integer_list(src: &str, divider: char) -> (r: Result<Vec<u32>, &str>)
    requires
        (divider as u32) < 128,
    ensures
        r is Ok <==> parse_fields(split_fields(src.spec_bytes(), divider as u8)) is Some,
        r matches Ok(v) ==> parse_fields(split_fields(src.spec_bytes(), divider as u8)) == Some(
            v@,
        ),
        r matches Err(e) ==> e == INTEGER_ERROR,
{
    let b = src.as_bytes();
    let d: u8 = divider as u8;
    let n: usize = b.len();
    let mut values: Vec<u32> = Vec::new();
    let mut start: usize = 0;
    let mut i: usize = 0;
    assert(b@.subrange(0, 0) =~= Seq::<u8>::empty());
    while i < n
        invariant
            n == b@.len(),
            d == divider as u8,
            b@ == src.spec_bytes(),
            start <= i <= n,
            split_fields(b@.subrange(0, i as int), d).len() >= 1,
            split_fields(b@.subrange(0, i as int), d).last() =~= b@.subrange(
                start as int,
                i as int,
            ),
            parse_fields(split_fields(b@.subrange(0, i as int), d).drop_last()) == Some(values@),
        decreases n - i,
    {
        let ghost prev = split_fields(b@.subrange(0, i as int), d);
        assert(b@.subrange(0, i + 1).drop_last() =~= b@.subrange(0, i as int));
        if b[i] == d {
            let v = match parse_u32_bytes(b, start, i) {
                Some(v) => v,
                None => {
                    proof {
                        lemma_parse_fields_fails(
                            split_fields(b@.subrange(0, i as int), d),
                            b@,
                            i as int,
                            d,
                        );
                    }
                    return Err(INTEGER_ERROR);
                },
            };
            values.push(v);
            proof {
                let next = split_fields(b@.subrange(0, i + 1), d);
                assert(next == prev.push(Seq::empty()));
                assert(next.drop_last() =~= prev);
                assert(prev.drop_last().push(prev.last()) =~= prev);
            }
            start = i + 1;
            assert(b@.subrange(start as int, start as int) =~= Seq::<u8>::empty());
        } else {
            proof {
                let next = split_fields(b@.subrange(0, i + 1), d);
                assert(next.drop_last() =~= prev.drop_last());
                assert(b@.subrange(start as int, i + 1) =~= b@.subrange(start as int, i as int).push(
                    b@[i as int],
                ));
            }
        }
        i = i + 1;
    }
    assert(b@.subrange(0, n as int) =~= b@);
    let ghost fields = split_fields(b@, d);
    match parse_u32_bytes(b, start, n) {
        Some(v) => {
            values.push(v);
            assert(fields.drop_last().push(fields.last()) =~= fields);
            Ok(values)
        },
        None => {
            assert(fields.drop_last().push(fields.last()) =~= fields);
            Err(INTEGER_ERROR)
        },
    }
}

/// A list with a field that is not a `u32` does not parse.
proof fn lemma_parse_fields_none(fields: Seq<Seq<u8>>, k: int)
    requires
        0 <= k < fields.len(),
        u32_text(fields[k]) is None,
    ensures
        parse_fields(fields) is None,
    decreases fields.len(),
{
    if k < fields.len() - 1 {
        lemma_parse_fields_none(fields.drop_last(), k);
    }
}

/// Once a divider closes a field, the fields of every longer prefix keep
/// it at the same place.
proof fn lemma_field_kept(b: Seq<u8>, i: int, d: u8, j: int)
    requires
        0 <= i < j <= b.len(),
        b[i] == d,
    ensures
        split_fields(b.subrange(0, j), d).len() >= split_fields(b.subrange(0, i), d).len() + 1,
        split_fields(b.subrange(0, i), d).len() >= 1,
        split_fields(b.subrange(0, j), d)[split_fields(b.subrange(0, i), d).len() - 1]
            == split_fields(b.subrange(0, i), d).last(),
    decreases j - i,
{
    lemma_split_fields_len(b.subrange(0, i), d);
    assert(b.subrange(0, j).drop_last() =~= b.subrange(0, j - 1));
    if j > i + 1 {
        lemma_field_kept(b, i, d, j - 1);
    }
}

/// A field that fails makes the whole list fail, whatever follows it.
proof fn lemma_parse_fields_fails(prefix: Seq<Seq<u8>>, b: Seq<u8>, i: int, d: u8)
    requires
        0 <= i < b.len(),
        b[i] == d,
        prefix == split_fields(b.subrange(0, i), d),
        prefix.len() >= 1,
        u32_text(prefix.last()) is None,
    ensures
        parse_fields(split_fields(b, d)) is None,
{
    lemma_field_kept(b, i, d, b.len() as int);
    assert(b.subrange(0, b.len() as int) =~= b);
    lemma_parse_fields_none(split_fields(b, d), prefix.len() - 1);
}

/// Parses a dimensions string (`999x999`) into a width and a height.
pub fn parse_image_dimensions(src: &str) -> (r: Result<(u32, u32), &str>)
    ensures
        ({
            let fields = split_fields(src.spec_bytes(), 120u8);
            match parse_fields(fields) {
                None => r == Err::<(u32, u32), &str>(INTEGER_ERROR),
                Some(vs) => if vs.len() == 2 {
                    r == Ok::<(u32, u32), &str>((vs[0], vs[1]))
                } else {
                    r == Err::<(u32, u32), &str>(DIMENSIONS_ERROR)
                },
            }
        }),
{
    let values = parse_integer_list(src, 'x')?;
    if values.len() == 2 {
        Ok((values[0], values[1]))
    } else {
        Err(DIMENSIONS_ERROR)
    }
}

} // verus!
