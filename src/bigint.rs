//! A non-negative integer of unbounded magnitude, stored as base-2^64 digits,
//! least significant first, with no trailing (most significant) zero digit.

use vstd::prelude::*;

verus! {

/// A digit sequence is canonical when it is empty (the value zero) or its
/// most significant digit is non-zero.
pub open spec fn is_canonical(ds: Seq<u64>) -> bool {
    ds.len() == 0 || ds.last() != 0
}

/// The digits of a single native integer: none for zero, one otherwise.
pub open spec fn scalar_digits(x: u64) -> Seq<u64> {
    if x == 0 {
        Seq::empty()
    } else {
        seq![x]
    }
}

/// `ds` with its trailing zero digits removed.
pub open spec fn strip_trailing_zeros(ds: Seq<u64>) -> Seq<u64>
    decreases ds.len(),
{
    if ds.len() > 0 && ds.last() == 0 {
        strip_trailing_zeros(ds.drop_last())
    } else {
        ds
    }
}

/// `m` is an element of `ds` and no element of `ds` is smaller.
pub open spec fn is_min_of(m: u64, ds: Seq<u64>) -> bool {
    &&& exists|i: int| 0 <= i < ds.len() && ds[i] == m
    &&& forall|i: int| 0 <= i < ds.len() ==> m <= ds[i]
}

/// `m` is an element of `ds` and no element of `ds` is larger.
pub open spec fn is_max_of(m: u64, ds: Seq<u64>) -> bool {
    &&& exists|i: int| 0 <= i < ds.len() && ds[i] == m
    &&& forall|i: int| 0 <= i < ds.len() ==> ds[i] <= m
}

/// Stripping trailing zeros always leaves a canonical sequence, and a single
/// native integer always gives a canonical sequence: so every constructed
/// number passes the canonical-form test.
pub proof fn lemma_constructions_canonical(ds: Seq<u64>, x: u64)
    ensures
        is_canonical(strip_trailing_zeros(ds)),
        is_canonical(scalar_digits(x)),
    decreases ds.len(),
{
    if ds.len() > 0 && ds.last() == 0 {
        lemma_constructions_canonical(ds.drop_last(), x);
    }
}

/// Stripping removes only zero digits, and only from the most significant
/// end: the result is a prefix of `ds` and every digit after it is zero.
pub proof fn lemma_strip_removes_only_trailing_zeros(ds: Seq<u64>)
    ensures
        strip_trailing_zeros(ds).len() <= ds.len(),
        strip_trailing_zeros(ds) == ds.subrange(0, strip_trailing_zeros(ds).len() as int),
        forall|j: int|
            strip_trailing_zeros(ds).len() <= j < ds.len() ==> #[trigger] ds[j] == 0,
    decreases ds.len(),
{
    if ds.len() > 0 && ds.last() == 0 {
        let rest = ds.drop_last();
        lemma_strip_removes_only_trailing_zeros(rest);
        let n = strip_trailing_zeros(rest).len() as int;
        assert(rest.subrange(0, n) == ds.subrange(0, n));
        assert forall|j: int| n <= j < ds.len() implies #[trigger] ds[j] == 0 by {
            if j < rest.len() {
                assert(rest[j] == ds[j]);
            }
        }
    } else {
        assert(ds.subrange(0, ds.len() as int) == ds);
    }
}

/// Normalizing a sequence that is already canonical gives it back unchanged,
/// and normalizing twice is the same as normalizing once.
pub proof fn lemma_normalize_idempotent(ds: Seq<u64>)
    ensures
        is_canonical(ds) ==> strip_trailing_zeros(ds) == ds,
        strip_trailing_zeros(strip_trailing_zeros(ds)) == strip_trailing_zeros(ds),
{
    lemma_constructions_canonical(ds, 0);
}

/// A sequence of zero digits only, the empty one included, normalizes to the
/// same digits as the native integer zero: none.
pub proof fn lemma_zero_normalizes_to_empty(ds: Seq<u64>)
    requires
        forall|i: int| 0 <= i < ds.len() ==> ds[i] == 0,
    ensures
        strip_trailing_zeros(ds) == Seq::<u64>::empty(),
        strip_trailing_zeros(ds) == scalar_digits(0),
    decreases ds.len(),
{
    if ds.len() > 0 {
        let rest = ds.drop_last();
        assert forall|i: int| 0 <= i < rest.len() implies rest[i] == 0 by {
            assert(rest[i] == ds[i]);
        }
        lemma_zero_normalizes_to_empty(rest);
    } else {
        assert(ds == Seq::<u64>::empty());
    }
}

/// A non-zero native integer is exactly one digit long.
pub proof fn lemma_scalar_one_digit(x: u64)
    requires
        x != 0,
    ensures
        scalar_digits(x).len() == 1,
        scalar_digits(x)[0] == x,
{
}

/// The character of the decimal digit `d`, for `d < 10`.
pub open spec fn decimal_char(d: nat) -> char {
    seq!['0', '1', '2', '3', '4', '5', '6', '7', '8', '9'][d as int]
}

/// The decimal text of `n`, most significant digit first, with no leading
/// zero ("0" for zero).
pub open spec fn decimal_text(n: nat) -> Seq<char>
    decreases n,
{
    if n < 10 {
        seq![decimal_char(n)]
    } else {
        decimal_text(n / 10).push(decimal_char(n % 10))
    }
}

/// The decimal texts of the digits of `ds`, most significant digit first,
/// written one after another with no separator and no positional weight.
pub open spec fn digit_dump(ds: Seq<u64>) -> Seq<char>
    decreases ds.len(),
{
    if ds.len() == 0 {
        Seq::empty()
    } else {
        digit_dump(ds.subrange(1, ds.len() as int)) + decimal_text(ds[0] as nat)
    }
}

/// The one-character text of the decimal digit `d`.
fn digit_str(d: u64) -> (r: &'static str)
    requires
        d < 10,
    ensures
        r@ == seq![decimal_char(d as nat)],
{
    proof {
        reveal_strlit("0");
        reveal_strlit("1");
        reveal_strlit("2");
        reveal_strlit("3");
        reveal_strlit("4");
        reveal_strlit("5");
        reveal_strlit("6");
        reveal_strlit("7");
        reveal_strlit("8");
        reveal_strlit("9");
    }
    if d == 0 {
        "0"
    } else if d == 1 {
        "1"
    } else if d == 2 {
        "2"
    } else if d == 3 {
        "3"
    } else if d == 4 {
        "4"
    } else if d == 5 {
        "5"
    } else if d == 6 {
        "6"
    } else if d == 7 {
        "7"
    } else if d == 8 {
        "8"
    } else {
        "9"
    }
}

/// Appends the decimal text of `x` to `s`.
fn push_decimal(s: &mut String, x: u64)
    ensures
        final(s)@ == old(s)@ + decimal_text(x as nat),
    decreases x,
{
    if x >= 10 {
        push_decimal(s, x / 10);
    }
    s.append(digit_str(x % 10));
}

/// A non-negative integer of unbounded magnitude. Its digits are private, so
/// only the constructors below make one, and each returns canonical digits.
#[derive(Clone)]
pub struct BigInt {
    data: Vec<u64>,
}

impl View for BigInt {
    type V = Seq<u64>;

    closed spec fn view(&self) -> Seq<u64> {
        self.data@
    }
}

impl BigInt {
    /// Holds when the stored digits are canonical.
    pub open spec fn wf(&self) -> bool {
        is_canonical(self@)
    }

    /// The number with the single native value `x`.
    pub fn new(x: u64) -> (r: BigInt)
        ensures
            r@ == scalar_digits(x),
            r.wf(),
    {
        if x == 0 {
            BigInt { data: Vec::new() }
        } else {
            BigInt { data: vec![x] }
        }
    }

    /// Tells whether the stored digits are canonical.
    pub fn test_invariant(&self) -> (r: bool)
        ensures
            r == self.wf(),
    {
        if self.data.len() == 0 {
            true
        } else {
            self.data[self.data.len() - 1] != 0
        }
    }

    /// The number whose little-endian digits are `v`, once trailing zero
    /// digits have been stripped; `v` need not be canonical.
    pub fn from_vec(v: Vec<u64>) -> (r: BigInt)
        ensures
            r@ == strip_trailing_zeros(v@),
            r.wf(),
    {
        let mut data = v;
        while data.len() > 0 && data[data.len() - 1] == 0
            invariant
                strip_trailing_zeros(data@) == strip_trailing_zeros(v@),
            decreases data.len(),
        {
            let ghost before = data@;
            data.pop();
            proof {
                assert(data@ == before.drop_last());
            }
        }
        BigInt { data }
    }

    /// The number of base-2^64 digits; zero for the value zero.
    pub fn digit_count(&self) -> (r: usize)
        ensures
            r == self@.len(),
    {
        self.data.len()
    }

    /// The smallest digit, or `None` for the value zero.
    pub fn min_digit(&self) -> (r: Option<u64>)
        ensures
            r is None <==> self@.len() == 0,
            r matches Some(m) ==> is_min_of(m, self@),
    {
        let mut min: Option<u64> = None;
        let mut i: usize = 0;
        while i < self.data.len()
            invariant
                i <= self@.len(),
                min is None <==> i == 0,
                min matches Some(m) ==> is_min_of(m, self@.subrange(0, i as int)),
            decreases self@.len() - i,
        {
            let digit = self.data[i];
            let ghost seen = self@.subrange(0, i as int);
            let ghost next = self@.subrange(0, i + 1);
            min = Some(
                match min {
                    None => digit,
                    Some(value) => if digit < value {
                        digit
                    } else {
                        value
                    },
                },
            );
            proof {
                assert(next == seen.push(digit));
                let m = min->Some_0;
                if m == digit {
                    assert(next[i as int] == m);
                } else {
                    let k = choose|k: int| 0 <= k < seen.len() && seen[k] == m;
                    assert(next[k] == m);
                }
            }
            i = i + 1;
        }
        proof {
            assert(self@.subrange(0, i as int) == self@);
        }
        min
    }

    /// The largest digit, or `None` for the value zero.
    pub fn max_digit(&self) -> (r: Option<u64>)
        ensures
            r is None <==> self@.len() == 0,
            r matches Some(m) ==> is_max_of(m, self@),
    {
        let mut max: Option<u64> = None;
        let mut i: usize = 0;
        while i < self.data.len()
            invariant
                i <= self@.len(),
                max is None <==> i == 0,
                max matches Some(m) ==> is_max_of(m, self@.subrange(0, i as int)),
            decreases self@.len() - i,
        {
            let digit = self.data[i];
            let ghost seen = self@.subrange(0, i as int);
            let ghost next = self@.subrange(0, i + 1);
            max = Some(
                match max {
                    None => digit,
                    Some(value) => if digit > value {
                        digit
                    } else {
                        value
                    },
                },
            );
            proof {
                assert(next == seen.push(digit));
                let m = max->Some_0;
                if m == digit {
                    assert(next[i as int] == m);
                } else {
                    let k = choose|k: int| 0 <= k < seen.len() && seen[k] == m;
                    assert(next[k] == m);
                }
            }
            i = i + 1;
        }
        proof {
            assert(self@.subrange(0, i as int) == self@);
        }
        max
    }

    /// An independent copy: the same digits in storage of its own.
    pub fn deep_copy(&self) -> (r: BigInt)
        ensures
            r@ == self@,
    {
        let mut data: Vec<u64> = Vec::with_capacity(self.data.len());
        let mut i: usize = 0;
        while i < self.data.len()
            invariant
                i <= self@.len(),
                data@ == self@.subrange(0, i as int),
            decreases self@.len() - i,
        {
            data.push(self.data[i]);
            i = i + 1;
        }
        proof {
            assert(self@.subrange(0, i as int) == self@);
        }
        BigInt { data }
    }

    /// A debug dump of the digits, most significant first: the decimal text
    /// of each stored base-2^64 digit, one after another. The digits are not
    /// weighted by their position, so for more than one digit this is not the
    /// decimal text of the number's value.
    pub fn render_decimal(&self) -> (r: String)
        ensures
            r@ == digit_dump(self@),
    {
        let mut s = String::new();
        let mut i: usize = self.data.len();
        while i > 0
            invariant
                i <= self@.len(),
                s@ == digit_dump(self@.subrange(i as int, self@.len() as int)),
            decreases i,
        {
            let ghost rest = self@.subrange(i as int, self@.len() as int);
            let ghost more = self@.subrange(i - 1, self@.len() as int);
            proof {
                assert(more.subrange(1, more.len() as int) == rest);
            }
            push_decimal(&mut s, self.data[i - 1]);
            i = i - 1;
        }
        proof {
            assert(self@.subrange(0, self@.len() as int) == self@);
        }
        s
    }

    /// The stored digits, least significant first.
    pub fn digits(&self) -> (r: &Vec<u64>)
        ensures
            r@ == self@,
    {
        &self.data
    }
}

} // verus!
