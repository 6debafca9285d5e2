use vstd::prelude::*;
use vstd::utf8::encode_utf8;

verus! {

/// The byte that separates the fields of an interval string.
pub const COLON: u8 = 58;

/// Why an interval string was refused.
#[derive(Clone, Copy, Debug, PartialEq, Eq, Structural)]
pub enum IntervalError {
    /// The string does not have exactly three `:`-separated fields.
    FieldCount,
    /// A field is empty or holds something other than ASCII digits.
    NotANumber,
    /// The total number of seconds does not fit in a `u64`.
    TooLarge,
}

pub open spec fn is_digit(c: u8) -> bool {
    48 <= c <= 57
}

/// The byte that may stand before the digits of a field.
pub const PLUS: u8 = 43;

/// A field without its leading `+`, if it has one.
pub open spec fn digits_of(f: Seq<u8>) -> Seq<u8> {
    if f.len() > 0 && f[0] == PLUS {
        f.drop_first()
    } else {
        f
    }
}

/// A non-negative decimal integer as `u64::from_str` reads it: an optional
/// `+`, then a non-empty run of ASCII digits.
pub open spec fn is_numeral(f: Seq<u8>) -> bool {
    let d = digits_of(f);
    d.len() > 0 && forall|k: int| 0 <= k < d.len() ==> is_digit(#[trigger] d[k])
}

/// The decimal value of a run of digits.
pub open spec fn numeral_value(f: Seq<u8>) -> nat
    decreases f.len(),
{
    if f.len() == 0 {
        0
    } else {
        numeral_value(f.drop_last()) * 10 + (f.last() as int - 48) as nat
    }
}

/// The value of a numeral field.
pub open spec fn field_value(f: Seq<u8>) -> nat {
    numeral_value(digits_of(f))
}

/// The pieces of `b` between the `:` bytes (one more piece than there are
/// colons; pieces may be empty).
pub open spec fn split_fields(b: Seq<u8>) -> Seq<Seq<u8>>
    decreases b.len(),
{
    if b.len() == 0 {
        seq![Seq::<u8>::empty()]
    } else {
        let p = split_fields(b.drop_last());
        if b.last() == COLON {
            p.push(Seq::<u8>::empty())
        } else {
            p.update(p.len() - 1, p.last().push(b.last()))
        }
    }
}

/// The number of seconds that an `HH:MM:SS` string stands for: three
/// colon-separated decimal fields, hours, minutes and seconds. Fields are not
/// limited to their clock range (`0:90:0` is 5400 seconds).
pub open spec fn interval_of(b: Seq<u8>) -> Result<u64, IntervalError> {
    let f = split_fields(b);
    if f.len() != 3 {
        Err(IntervalError::FieldCount)
    } else if !(is_numeral(f[0]) && is_numeral(f[1]) && is_numeral(f[2])) {
        Err(IntervalError::NotANumber)
    } else {
        let t = field_value(f[0]) * 3600 + field_value(f[1]) * 60 + field_value(f[2]);
        if t > u64::MAX {
            Err(IntervalError::TooLarge)
        } else {
            Ok(t as u64)
        }
    }
}

/// `interval_of` on the UTF-8 encoding of a text.
pub open spec fn interval_of_text(s: Seq<char>) -> Result<u64, IntervalError> {
    interval_of(encode_utf8(s))
}

fn split_colons(b: &[u8]) -> (r: Vec<Vec<u8>>)
    ensures
        r@.len() == split_fields(b@).len(),
        forall|i: int| 0 <= i < r@.len() ==> (#[trigger] r@[i])@ == split_fields(b@)[i],
{
    let mut fields: Vec<Vec<u8>> = Vec::new();
    fields.push(Vec::new());
    let mut k: usize = 0;
    assert(b@.take(0) =~= Seq::<u8>::empty());
    while k < b.len()
        invariant
            k <= b@.len(),
            fields@.len() >= 1,
            fields@.len() == split_fields(b@.take(k as int)).len(),
            forall|i: int|
                0 <= i < fields@.len() ==> (#[trigger] fields@[i])@ == split_fields(
                    b@.take(k as int),
                )[i],
        decreases b@.len() - k,
    {
        let c = b[k];
        assert(b@.take(k + 1).drop_last() =~= b@.take(k as int));
        assert(b@.take(k + 1).last() == c);
        let ghost before = fields@;
        if c == COLON {
            fields.push(Vec::new());
        } else {
            let mut last = fields.pop().unwrap();
            last.push(c);
            fields.push(last);
            assert(fields@ == before.drop_last().push(last));
        }
        k += 1;
        assert forall|i: int| 0 <= i < fields@.len() implies (#[trigger] fields@[i])@
            == split_fields(b@.take(k as int))[i] by {
            if i < fields@.len() - 1 {
                assert(fields@[i] == before[i]);
            }
        }
    }
    assert(b@.take(b@.len() as int) =~= b@);
    fields
}

proof fn lemma_overflow_bound(acc: u64, d: u64)
    requires
        d <= 9,
        acc > (u64::MAX - d) / 10,
    ensures
        acc * 10 + d > u64::MAX,
{
    assert(acc * 10 + d > u64::MAX) by (nonlinear_arith)
        requires
            d <= 9,
            acc > (u64::MAX - d) / 10,
    ;
}

proof fn lemma_no_overflow(acc: u64, d: u64)
    requires
        d <= 9,
        acc <= (u64::MAX - d) / 10,
    ensures
        acc * 10 + d <= u64::MAX,
{
    assert(acc * 10 + d <= u64::MAX) by (nonlinear_arith)
        requires
            d <= 9,
            acc <= (u64::MAX - d) / 10,
    ;
}

fn parse_field(f: &Vec<u8>) -> (r: Result<u64, IntervalError>)
    ensures
        !is_numeral(f@) ==> r == Err::<u64, IntervalError>(IntervalError::NotANumber),
        is_numeral(f@) && field_value(f@) > u64::MAX ==> r == Err::<u64, IntervalError>(
            IntervalError::TooLarge,
        ),
        is_numeral(f@) && field_value(f@) <= u64::MAX ==> r == Ok::<u64, IntervalError>(
            field_value(f@) as u64,
        ),
{
    let start: usize = if f.len() > 0 && f[0] == PLUS {
        1
    } else {
        0
    };
    assert(digits_of(f@) =~= f@.subrange(start as int, f@.len() as int));
    if start == f.len() {
        return Err(IntervalError::NotANumber);
    }
    let mut acc: u64 = 0;
    let mut big = false;
    let mut k: usize = start;
    assert(f@.subrange(start as int, start as int) =~= Seq::<u8>::empty());
    while k < f.len()
        invariant
            start <= k <= f@.len(),
            digits_of(f@) == f@.subrange(start as int, f@.len() as int),
            forall|j: int| start <= j < k ==> is_digit(#[trigger] f@[j]),
            !big ==> acc as nat == numeral_value(f@.subrange(start as int, k as int)),
            big ==> numeral_value(f@.subrange(start as int, k as int)) > u64::MAX,
        decreases f@.len() - k,
    {
        let c = f[k];
        if c < 48 || c > 57 {
            assert(digits_of(f@)[k - start] == f@[k as int]);
            assert(!is_digit(digits_of(f@)[k - start]));
            return Err(IntervalError::NotANumber);
        }
        assert(f@.subrange(start as int, k + 1).drop_last() =~= f@.subrange(
            start as int,
            k as int,
        ));
        assert(f@.subrange(start as int, k + 1).last() == c);
        let d: u64 = (c - 48) as u64;
        if !big {
            if acc > (u64::MAX - d) / 10 {
                proof {
                    lemma_overflow_bound(acc, d);
                }
                big = true;
            } else {
                proof {
                    lemma_no_overflow(acc, d);
                }
                acc = acc * 10 + d;
            }
        }
        k += 1;
    }
    assert forall|j: int| 0 <= j < digits_of(f@).len() implies is_digit(
        #[trigger] digits_of(f@)[j],
    ) by {
        assert(digits_of(f@)[j] == f@[j + start]);
    }
    if big {
        Err(IntervalError::TooLarge)
    } else {
        Ok(acc)
    }
}

/// Parses an interval string of the form `HH:MM:SS` into a number of
/// seconds. The fields are decimal numbers of any width, each with an
/// optional leading `+`; anything else (two or four fields, an empty or
/// non-numeric field, a total past `u64::MAX`) is an error.
pub fn parse_time(input: &str) -> (r: Result<u64, IntervalError>)
    ensures
        r == interval_of_text(input@),
{
    let b = input.as_bytes();
    let fields = split_colons(b);
    if fields.len() != 3 {
        return Err(IntervalError::FieldCount);
    }
    let h = parse_field(&fields[0]);
    let m = parse_field(&fields[1]);
    let s = parse_field(&fields[2]);
    if matches!(h, Err(IntervalError::NotANumber)) || matches!(m, Err(IntervalError::NotANumber))
        || matches!(s, Err(IntervalError::NotANumber)) {
        return Err(IntervalError::NotANumber);
    }
    match (h, m, s) {
        (Ok(hv), Ok(mv), Ok(sv)) => {
            match hv.checked_mul(3600) {
                None => Err(IntervalError::TooLarge),
                Some(hs) => match mv.checked_mul(60) {
                    None => Err(IntervalError::TooLarge),
                    Some(ms) => match hs.checked_add(ms) {
                        None => Err(IntervalError::TooLarge),
                        Some(hm) => match hm.checked_add(sv) {
                            None => Err(IntervalError::TooLarge),
                            Some(t) => Ok(t),
                        },
                    },
                },
            }
        },
        _ => Err(IntervalError::TooLarge),
    }
}

} // verus!
