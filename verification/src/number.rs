//! The numeric value type: an exact decimal scalar, parsed from text.
//!
//! A value is kept in a canonical form — integer digits with no leading
//! zero, fractional digits with no trailing zero — so that two texts
//! denoting the same quantity (such as `1.5` and `1.50`) parse to equal
//! values.

use vstd::prelude::*;
use vstd::string::*;

verus! {

/// Mathematical model of a [`Number`]: the digit sequences of its
/// canonical decimal form, most significant digit first.
pub struct NumberV {
    pub int_digits: Seq<u8>,
    pub frac_digits: Seq<u8>,
}

/// An exact decimal scalar.
///
/// `int_digits` holds the digits before the decimal point and
/// `frac_digits` the digits after it, each digit as its value `0..=9`.
#[derive(Debug, PartialEq)]
pub struct Number {
    int_digits: Vec<u8>,
    frac_digits: Vec<u8>,
}

#[derive(Debug, PartialEq)]
pub enum NumberError {
    ParsingError,
}

impl View for Number {
    type V = NumberV;

    closed spec fn view(&self) -> NumberV {
        NumberV { int_digits: self.int_digits@, frac_digits: self.frac_digits@ }
    }
}

impl DeepView for Number {
    type V = NumberV;

    open spec fn deep_view(&self) -> NumberV {
        self.view()
    }
}

/// Canonical form: every digit is at most 9, the integer part has no
/// leading zero and the fractional part no trailing zero.
pub open spec fn number_wf(n: NumberV) -> bool {
    &&& forall|i: int| 0 <= i < n.int_digits.len() ==> n.int_digits[i] <= 9
    &&& forall|i: int| 0 <= i < n.frac_digits.len() ==> n.frac_digits[i] <= 9
    &&& (n.int_digits.len() > 0 ==> n.int_digits[0] != 0)
    &&& (n.frac_digits.len() > 0 ==> n.frac_digits[n.frac_digits.len() - 1] != 0)
}

pub open spec fn is_digit_char(c: char) -> bool {
    48 <= c as u32 <= 57
}

pub open spec fn digit_val(c: char) -> u8 {
    (c as u32 - 48) as u8
}

pub open spec fn digit_seq(s: Seq<char>) -> Seq<u8> {
    s.map_values(|c: char| digit_val(c))
}

/// Index of the first decimal point of `s`, or `s.len()` if it has none.
pub open spec fn first_dot(s: Seq<char>) -> int
    decreases s.len(),
{
    if s.len() == 0 {
        0
    } else if s[0] == '.' {
        0
    } else {
        1 + first_dot(s.skip(1))
    }
}

pub open spec fn trim_leading_zeros(d: Seq<u8>) -> Seq<u8>
    decreases d.len(),
{
    if d.len() > 0 && d[0] == 0 {
        trim_leading_zeros(d.skip(1))
    } else {
        d
    }
}

pub open spec fn trim_trailing_zeros(d: Seq<u8>) -> Seq<u8>
    decreases d.len(),
{
    if d.len() > 0 && d[d.len() - 1] == 0 {
        trim_trailing_zeros(d.drop_last())
    } else {
        d
    }
}

/// A text denotes a number when every character apart from a single
/// optional decimal point is a digit, and at least one digit is present.
pub open spec fn spec_number_valid(s: Seq<char>) -> bool {
    let d = first_dot(s);
    &&& forall|j: int| 0 <= j < s.len() && j != d ==> is_digit_char(s[j])
    &&& if d < s.len() {
        s.len() >= 2
    } else {
        s.len() >= 1
    }
}

/// The number denoted by a text, in canonical form, or `None` when the
/// text denotes none.
pub open spec fn spec_number_from(s: Seq<char>) -> Option<NumberV> {
    if spec_number_valid(s) {
        let d = first_dot(s);
        let int_part = s.subrange(0, d);
        let frac_part = if d < s.len() {
            s.subrange(d + 1, s.len() as int)
        } else {
            Seq::<char>::empty()
        };
        Some(
            NumberV {
                int_digits: trim_leading_zeros(digit_seq(int_part)),
                frac_digits: trim_trailing_zeros(digit_seq(frac_part)),
            },
        )
    } else {
        None
    }
}

proof fn lemma_first_dot(s: Seq<char>)
    ensures
        0 <= first_dot(s) <= s.len(),
        first_dot(s) < s.len() ==> s[first_dot(s)] == '.',
        forall|j: int| 0 <= j < first_dot(s) ==> s[j] != '.',
    decreases s.len(),
{
    if s.len() == 0 {
    } else if s[0] == '.' {
    } else {
        lemma_first_dot(s.skip(1));
        assert forall|j: int| 0 <= j < first_dot(s) implies s[j] != '.' by {
            if j >= 1 {
                assert(s.skip(1)[j - 1] == s[j]);
            }
        }
        if first_dot(s) < s.len() {
            assert(s.skip(1)[first_dot(s) - 1] == s[first_dot(s)]);
        }
    }
}

/// `first_dot` is pinned down by any witness position: a decimal point
/// with no decimal point before it.
proof fn lemma_first_dot_at(s: Seq<char>, d: int)
    requires
        0 <= d < s.len(),
        s[d] == '.',
        forall|j: int| 0 <= j < d ==> s[j] != '.',
    ensures
        first_dot(s) == d,
{
    lemma_first_dot(s);
    if first_dot(s) < d {
        assert(s[first_dot(s)] == '.');
    }
}

/// Dropping a run of leading zeros, and nothing more, is exactly
/// `trim_leading_zeros`.
proof fn lemma_trim_leading(d: Seq<u8>, k: int)
    requires
        0 <= k <= d.len(),
        forall|j: int| 0 <= j < k ==> d[j] == 0,
        k < d.len() ==> d[k] != 0,
    ensures
        trim_leading_zeros(d) == d.subrange(k, d.len() as int),
    decreases k,
{
    if k == 0 {
        assert(d.subrange(0, d.len() as int) =~= d);
    } else {
        lemma_trim_leading(d.skip(1), k - 1);
        assert(d.skip(1).subrange(k - 1, d.skip(1).len() as int) =~= d.subrange(k, d.len() as int));
    }
}

/// Dropping a run of trailing zeros, and nothing more, is exactly
/// `trim_trailing_zeros`.
proof fn lemma_trim_trailing(d: Seq<u8>, k: int)
    requires
        0 <= k <= d.len(),
        forall|j: int| k <= j < d.len() ==> d[j] == 0,
        k > 0 ==> d[k - 1] != 0,
    ensures
        trim_trailing_zeros(d) == d.subrange(0, k),
    decreases d.len() - k,
{
    if k == d.len() {
        if d.len() > 0 && d[d.len() - 1] == 0 {
            assert(false);
        }
        assert(d.subrange(0, d.len() as int) =~= d);
    } else {
        lemma_trim_trailing(d.drop_last(), k);
        assert(d.drop_last().subrange(0, k) =~= d.subrange(0, k));
    }
}

/// A text without any decimal point has `first_dot` equal to its length.
proof fn lemma_first_dot_none(s: Seq<char>)
    requires
        forall|j: int| 0 <= j < s.len() ==> s[j] != '.',
    ensures
        first_dot(s) == s.len(),
{
    lemma_first_dot(s);
    if first_dot(s) < s.len() {
        assert(s[first_dot(s)] == '.');
    }
}

/// Relies on String::push: appends the character to the end of the
/// string.
#[verifier::external_body]
pub(crate) fn push_char(s: &mut String, c: char)
    ensures
        final(s)@ == old(s)@.push(c),
{
    s.push(c);
}

fn digit_to_char(d: u8) -> (c: char)
    requires
        d <= 9,
    ensures
        c as u32 == 48 + d,
{
    match d {
        0 => '0',
        1 => '1',
        2 => '2',
        3 => '3',
        4 => '4',
        5 => '5',
        6 => '6',
        7 => '7',
        8 => '8',
        _ => '9',
    }
}

impl Number {
    #[verifier::type_invariant]
    spec fn wf(self) -> bool {
        number_wf(self@)
    }

    /// An equal copy of the value.
    pub(crate) fn clone_value(&self) -> (r: Number)
        ensures
            r@ == self@,
    {
        proof {
            use_type_invariant(self);
        }
        Number {
            int_digits: vstd::slice::slice_to_vec(self.int_digits.as_slice()),
            frac_digits: vstd::slice::slice_to_vec(self.frac_digits.as_slice()),
        }
    }

    /// The canonical decimal text of the value: the integer digits (a
    /// single zero when there are none), then, when fractional digits
    /// exist, a decimal point and the fractional digits.
    pub fn to_literal(&self) -> (r: String)
        ensures
            ({
                let ip = if self@.int_digits.len() == 0 {
                    1int
                } else {
                    self@.int_digits.len() as int
                };
                &&& r@.len() == ip + if self@.frac_digits.len() == 0 {
                    0int
                } else {
                    1 + self@.frac_digits.len() as int
                }
                &&& (self@.int_digits.len() == 0 ==> r@[0] as u32 == 48)
                &&& forall|j: int|
                    0 <= j < self@.int_digits.len() ==> r@[j] as u32 == 48 + self@.int_digits[j]
                &&& (self@.frac_digits.len() > 0 ==> r@[ip] as u32 == 46)
                &&& forall|j: int|
                    0 <= j < self@.frac_digits.len() ==> r@[ip + 1 + j] as u32 == 48
                        + self@.frac_digits[j]
            }),
    {
        proof {
            use_type_invariant(self);
        }
        let mut r = String::new();
        if self.int_digits.len() == 0 {
            push_char(&mut r, '0');
        } else {
            for k in 0..self.int_digits.len()
                invariant
                    number_wf(self@),
                    r@.len() == k,
                    forall|j: int| 0 <= j < k ==> r@[j] as u32 == 48 + self@.int_digits[j],
            {
                push_char(&mut r, digit_to_char(self.int_digits[k]));
            }
        }
        let ghost prefix = r@;
        proof {
            assert(self@.int_digits.len() == 0 ==> prefix.len() == 1 && prefix[0] as u32 == 48);
            assert(self@.int_digits.len() > 0 ==> prefix.len() == self@.int_digits.len());
            assert(forall|j: int|
                0 <= j < self@.int_digits.len() ==> prefix[j] as u32 == 48 + self@.int_digits[j]);
        }
        if self.frac_digits.len() > 0 {
            push_char(&mut r, '.');
            for k in 0..self.frac_digits.len()
                invariant
                    number_wf(self@),
                    r@.len() == prefix.len() + 1 + k,
                    forall|j: int| 0 <= j < prefix.len() ==> r@[j] == prefix[j],
                    r@[prefix.len() as int] == '.',
                    forall|j: int|
                        0 <= j < k ==> r@[prefix.len() + 1 + j] as u32 == 48
                            + self@.frac_digits[j],
            {
                push_char(&mut r, digit_to_char(self.frac_digits[k]));
            }
        }
        proof {
            assert forall|j: int| 0 <= j < self@.int_digits.len() implies r@[j] as u32 == 48
                + self@.int_digits[j] by {
                assert(r@[j] == prefix[j]);
            }
        }
        r
    }

    /// Parses a decimal literal — digits with at most one decimal point —
    /// into its canonical value.
    pub fn from_str(input: &str) -> (r: Result<Number, NumberError>)
        ensures
            match r {
                Ok(n) => spec_number_from(input@) == Some(n@) && number_wf(n@),
                Err(_) => spec_number_from(input@) is None,
            },
    {
        let ghost s = input@;
        let len = input.unicode_len();
        let mut int_raw: Vec<u8> = Vec::new();
        let mut frac_raw: Vec<u8> = Vec::new();
        let mut dot: Option<usize> = None;
        for i in 0..len
            invariant
                s == input@,
                len == s.len(),
                match dot {
                    None => {
                        &&& forall|j: int| 0 <= j < i ==> is_digit_char(s[j])
                        &&& int_raw@ == digit_seq(s.subrange(0, i as int))
                        &&& frac_raw@.len() == 0
                    },
                    Some(d) => {
                        &&& d < i
                        &&& s[d as int] == '.'
                        &&& forall|j: int| 0 <= j < i && j != d ==> is_digit_char(s[j])
                        &&& int_raw@ == digit_seq(s.subrange(0, d as int))
                        &&& frac_raw@ == digit_seq(s.subrange(d as int + 1, i as int))
                    },
                },
        {
            let c = input.get_char(i);
            let u = c as u32;
            if 48 <= u && u <= 57 {
                let dv = (u - 48) as u8;
                match dot {
                    None => {
                        proof {
                            assert(s.subrange(0, i as int + 1) =~= s.subrange(0, i as int).push(
                                s[i as int],
                            ));
                            assert(digit_seq(s.subrange(0, i as int + 1)) =~= digit_seq(
                                s.subrange(0, i as int),
                            ).push(digit_val(s[i as int])));
                        }
                        int_raw.push(dv);
                    },
                    Some(d) => {
                        proof {
                            assert(s.subrange(d as int + 1, i as int + 1) =~= s.subrange(
                                d as int + 1,
                                i as int,
                            ).push(s[i as int]));
                            assert(digit_seq(s.subrange(d as int + 1, i as int + 1)) =~= digit_seq(
                                s.subrange(d as int + 1, i as int),
                            ).push(digit_val(s[i as int])));
                        }
                        frac_raw.push(dv);
                    },
                }
            } else if c == '.' {
                match dot {
                    None => {
                        dot = Some(i);
                    },
                    Some(d) => {
                        proof {
                            lemma_first_dot_at(s, d as int);
                        }
                        return Err(NumberError::ParsingError);
                    },
                }
            } else {
                proof {
                    match dot {
                        None => {
                            lemma_first_dot(s);
                            if first_dot(s) < s.len() {
                                assert(s[first_dot(s)] == '.');
                            }
                            assert(!is_digit_char(s[i as int]) && i as int != first_dot(s));
                        },
                        Some(d) => {
                            lemma_first_dot_at(s, d as int);
                        },
                    }
                }
                return Err(NumberError::ParsingError);
            }
        }
        if int_raw.len() == 0 && frac_raw.len() == 0 {
            proof {
                match dot {
                    None => {
                        assert(s.subrange(0, len as int) =~= s);
                    },
                    Some(d) => {
                        lemma_first_dot_at(s, d as int);
                    },
                }
            }
            return Err(NumberError::ParsingError);
        }
        proof {
            match dot {
                None => {
                    lemma_first_dot_none(s);
                    assert(s.subrange(0, len as int) =~= s);
                },
                Some(d) => {
                    lemma_first_dot_at(s, d as int);
                },
            }
            assert(spec_number_valid(s));
        }
        // Trim the leading zeros of the integer part.
        let mut a: usize = 0;
        while a < int_raw.len() && int_raw[a] == 0
            invariant
                a <= int_raw.len(),
                forall|j: int| 0 <= j < a ==> int_raw@[j] == 0,
            decreases int_raw.len() - a,
        {
            a += 1;
        }
        let mut int_digits: Vec<u8> = Vec::new();
        for k in a..int_raw.len()
            invariant
                a <= int_raw.len(),
                int_digits@ == int_raw@.subrange(a as int, k as int),
            decreases int_raw.len() - k,
        {
            proof {
                assert(int_raw@.subrange(a as int, k as int + 1) =~= int_raw@.subrange(
                    a as int,
                    k as int,
                ).push(int_raw@[k as int]));
            }
            int_digits.push(int_raw[k]);
        }
        // Trim the trailing zeros of the fractional part.
        let mut b: usize = frac_raw.len();
        while b > 0 && frac_raw[b - 1] == 0
            invariant
                b <= frac_raw.len(),
                forall|j: int| b <= j < frac_raw.len() ==> frac_raw@[j] == 0,
            decreases b,
        {
            b -= 1;
        }
        let mut frac_digits: Vec<u8> = Vec::new();
        for k in 0..b
            invariant
                b <= frac_raw.len(),
                frac_digits@ == frac_raw@.subrange(0, k as int),
            decreases b - k,
        {
            proof {
                assert(frac_raw@.subrange(0, k as int + 1) =~= frac_raw@.subrange(0, k as int).push(
                    frac_raw@[k as int],
                ));
            }
            frac_digits.push(frac_raw[k]);
        }
        proof {
            lemma_trim_leading(int_raw@, a as int);
            lemma_trim_trailing(frac_raw@, b as int);
        }
        let n = Number { int_digits, frac_digits };
        proof {
            if dot is None {
                assert(frac_raw@ =~= digit_seq(Seq::<char>::empty()));
            }
            assert(int_raw@.subrange(a as int, int_raw@.len() as int) == n@.int_digits);
            assert(spec_number_from(s) == Some(n@));
            assert forall|j: int| 0 <= j < n@.int_digits.len() implies n@.int_digits[j] <= 9 by {
                assert(n@.int_digits[j] == int_raw@[a as int + j]);
            }
            assert forall|j: int| 0 <= j < n@.frac_digits.len() implies n@.frac_digits[j] <= 9 by {
                assert(n@.frac_digits[j] == frac_raw@[j]);
            }
            assert(number_wf(n@));
        }
        Ok(n)
    }
}

} // verus!
