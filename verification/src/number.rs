//! Numeric literals and symbolic numbers.
//!
//! A token is numeric exactly when it matches the decimal floating-point
//! grammar
//!
//! ```text
//! Float    ::= Sign? ( 'inf' | 'infinity' | 'nan' | Decimal )
//! Decimal  ::= Mantissa Exponent?
//! Mantissa ::= Digit+ | Digit+ '.' Digit* | Digit* '.' Digit+
//! Exponent ::= ( 'e' | 'E' ) Sign? Digit+
//! Sign     ::= '+' | '-'
//! Digit    ::= '0' ..= '9'
//! ```
//!
//! where the three words are matched without regard to case.
use vstd::prelude::*;

verus! {

/// `c` is one of the ten decimal digits.
pub open spec fn is_digit(c: char) -> bool {
    '0' <= c && c <= '9'
}

/// `c` is a plus or minus sign.
pub open spec fn is_sign(c: char) -> bool {
    c == '+' || c == '-'
}

/// `c` introduces an exponent.
pub open spec fn is_exp_mark(c: char) -> bool {
    c == 'e' || c == 'E'
}

/// Every character of `s` is a digit (true of the empty sequence).
pub open spec fn all_digits(s: Seq<char>) -> bool {
    forall|i: int| 0 <= i < s.len() ==> is_digit(#[trigger] s[i])
}

/// `s` without its leading sign, if it has one.
pub open spec fn strip_sign(s: Seq<char>) -> Seq<char> {
    if s.len() > 0 && is_sign(s[0]) {
        s.subrange(1, s.len() as int)
    } else {
        s
    }
}

/// `Digit+ | Digit+ '.' Digit* | Digit* '.' Digit+`
pub open spec fn is_mantissa(s: Seq<char>) -> bool {
    ||| s.len() > 0 && all_digits(s)
    ||| exists|d: int| #[trigger] dot_splits(s, d)
}

/// `s` has a decimal point at `d`, digits on both sides of it and at least
/// one digit in all.
pub open spec fn dot_splits(s: Seq<char>, d: int) -> bool {
    &&& 0 <= d < s.len()
    &&& s[d] == '.'
    &&& s.len() > 1
    &&& all_digits(s.subrange(0, d))
    &&& all_digits(s.subrange(d + 1, s.len() as int))
}

/// `( 'e' | 'E' ) Sign? Digit+`
pub open spec fn is_exponent(s: Seq<char>) -> bool {
    &&& s.len() > 0
    &&& is_exp_mark(s[0])
    &&& strip_sign(s.subrange(1, s.len() as int)).len() > 0
    &&& all_digits(strip_sign(s.subrange(1, s.len() as int)))
}

/// `s` is a mantissa of length `k` followed by nothing or by an exponent.
pub open spec fn splits_at(s: Seq<char>, k: int) -> bool {
    &&& 0 <= k <= s.len()
    &&& is_mantissa(s.subrange(0, k))
    &&& (k == s.len() || is_exponent(s.subrange(k, s.len() as int)))
}

/// `Mantissa Exponent?`
pub open spec fn is_decimal(s: Seq<char>) -> bool {
    exists|k: int| #[trigger] splits_at(s, k)
}

/// `c` is the letter given in its two cases.
pub open spec fn is_letter(c: char, lower: char, upper: char) -> bool {
    c == lower || c == upper
}

/// `inf`, `infinity` or `nan`, in any mix of cases.
pub open spec fn is_special(s: Seq<char>) -> bool {
    ||| {
        &&& s.len() == 3
        &&& is_letter(s[0], 'i', 'I')
        &&& is_letter(s[1], 'n', 'N')
        &&& is_letter(s[2], 'f', 'F')
    }
    ||| {
        &&& s.len() == 8
        &&& is_letter(s[0], 'i', 'I')
        &&& is_letter(s[1], 'n', 'N')
        &&& is_letter(s[2], 'f', 'F')
        &&& is_letter(s[3], 'i', 'I')
        &&& is_letter(s[4], 'n', 'N')
        &&& is_letter(s[5], 'i', 'I')
        &&& is_letter(s[6], 't', 'T')
        &&& is_letter(s[7], 'y', 'Y')
    }
    ||| {
        &&& s.len() == 3
        &&& is_letter(s[0], 'n', 'N')
        &&& is_letter(s[1], 'a', 'A')
        &&& is_letter(s[2], 'n', 'N')
    }
}

/// The whole of `s` is a floating-point literal.
pub open spec fn is_float_literal(s: Seq<char>) -> bool {
    is_special(strip_sign(s)) || is_decimal(strip_sign(s))
}

/// A number in exact symbolic form: a literal as it was written, or the
/// product of two numbers, left factor first.
#[derive(Debug)]
pub enum Number {
    Literal(String),
    Product(Box<Number>, Box<Number>),
}

/// The mathematical content of a [`Number`].
pub enum Quantity {
    Literal(Seq<char>),
    Product(Box<Quantity>, Box<Quantity>),
}

/// The quantity that `n` denotes.
pub open spec fn quantity(n: Number) -> Quantity
    decreases n,
{
    match n {
        Number::Literal(text) => Quantity::Literal(text@),
        Number::Product(a, b) => Quantity::Product(
            Box::new(quantity(*a)),
            Box::new(quantity(*b)),
        ),
    }
}

impl View for Number {
    type V = Quantity;

    open spec fn view(&self) -> Quantity {
        quantity(*self)
    }
}

/// Every literal of `q` is a floating-point literal: `q` stands for a
/// number.
pub open spec fn numeric(q: Quantity) -> bool
    decreases q,
{
    match q {
        Quantity::Literal(text) => is_float_literal(text),
        Quantity::Product(a, b) => numeric(*a) && numeric(*b),
    }
}

impl Clone for Number {
    fn clone(&self) -> (r: Self)
        ensures
            r@ == self@,
        decreases self,
    {
        match self {
            Number::Literal(text) => Number::Literal(text.clone()),
            Number::Product(a, b) => {
                let left: Number = (&**a).clone();
                let right: Number = (&**b).clone();
                Number::Product(Box::new(left), Box::new(right))
            },
        }
    }
}

impl Number {
    /// This number is made of floating-point literals only.
    pub open spec fn wf(&self) -> bool {
        numeric(self@)
    }

    /// The literal `text`, which is a number if `text` is a floating-point
    /// literal.
    pub fn literal(text: String) -> (r: Number)
        ensures
            r@ == Quantity::Literal(text@),
            is_float_literal(text@) ==> r.wf(),
    {
        Number::Literal(text)
    }

    /// The product of `self` and `other`, in this order; a number if both
    /// are.
    pub fn times(self, other: Number) -> (r: Number)
        ensures
            r@ == Quantity::Product(Box::new(self@), Box::new(other@)),
            self.wf() && other.wf() ==> r.wf(),
    {
        Number::Product(Box::new(self), Box::new(other))
    }
}

fn digit(c: char) -> (b: bool)
    ensures
        b == is_digit(c),
{
    '0' <= c && c <= '9'
}

/// The characters of `text`, in order.
fn chars_of(text: &str) -> (v: Vec<char>)
    ensures
        v@ == text@,
{
    let mut v: Vec<char> = Vec::new();
    for c in it: text.chars()
        invariant
            it.seq() == text@,
            v@ == text@.take(it.index() as int),
    {
        v.push(c);
    }
    v
}

/// The index at which the run of digits that starts at `from` ends.
fn skip_digits(v: &Vec<char>, from: usize) -> (to: usize)
    requires
        from <= v.len(),
    ensures
        from <= to <= v.len(),
        all_digits(v@.subrange(from as int, to as int)),
        to < v.len() ==> !is_digit(v@[to as int]),
{
    let mut to: usize = from;
    while to < v.len() && digit(v[to])
        invariant
            from <= to <= v.len(),
            all_digits(v@.subrange(from as int, to as int)),
        decreases v.len() - to,
    {
        to = to + 1;
    }
    to
}

/// Whether the characters of `v` from `start` on form a decimal number.
fn decimal_from(v: &Vec<char>, start: usize) -> (b: bool)
    requires
        start <= v.len(),
    ensures
        b == is_decimal(v@.subrange(start as int, v.len() as int)),
{
    let n: usize = v.len();
    let ghost s = v@.subrange(start as int, n as int);
    let i: usize = skip_digits(v, start);
    let dotted: bool = i < n && v[i] == '.';
    let j: usize = if dotted {
        skip_digits(v, i + 1)
    } else {
        i
    };
    let digits: usize = if dotted {
        (i - start) + (j - (i + 1))
    } else {
        i - start
    };
    proof {
        if dotted {
            assert(s.subrange(i + 1 - start, j - start) =~= v@.subrange(i + 1, j as int));
        }
        lemma_mantissa_extent(s, i - start, dotted, j - start);
    }
    if digits == 0 {
        return false;
    }
    if j == n {
        assert(splits_at(s, s.len() as int));
        return true;
    }
    if !(v[j] == 'e' || v[j] == 'E') {
        return false;
    }
    let signed: bool = j + 1 < n && (v[j + 1] == '+' || v[j + 1] == '-');
    let k: usize = if signed {
        j + 2
    } else {
        j + 1
    };
    let end: usize = skip_digits(v, k);
    let ghost tail = s.subrange(j - start, s.len() as int);
    let ghost rest = strip_sign(tail.subrange(1, tail.len() as int));
    assert(rest =~= v@.subrange(k as int, n as int));
    if k < n && end == n {
        assert(splits_at(s, j - start));
        true
    } else {
        assert(!all_digits(rest) || rest.len() == 0) by {
            if end < n {
                assert(rest[end - k] == v@[end as int]);
            }
        }
        false
    }
}

fn letter(c: char, lower: char, upper: char) -> (b: bool)
    ensures
        b == is_letter(c, lower, upper),
{
    c == lower || c == upper
}

/// Whether the characters of `v` from `start` on spell `inf`, `infinity`
/// or `nan`.
fn special_from(v: &Vec<char>, start: usize) -> (b: bool)
    requires
        start <= v.len(),
    ensures
        b == is_special(v@.subrange(start as int, v.len() as int)),
{
    let n: usize = v.len() - start;
    if n == 3 {
        (letter(v[start], 'i', 'I') && letter(v[start + 1], 'n', 'N') && letter(
            v[start + 2],
            'f',
            'F',
        )) || (letter(v[start], 'n', 'N') && letter(v[start + 1], 'a', 'A') && letter(
            v[start + 2],
            'n',
            'N',
        ))
    } else if n == 8 {
        letter(v[start], 'i', 'I') && letter(v[start + 1], 'n', 'N') && letter(
            v[start + 2],
            'f',
            'F',
        ) && letter(v[start + 3], 'i', 'I') && letter(v[start + 4], 'n', 'N') && letter(
            v[start + 5],
            'i',
            'I',
        ) && letter(v[start + 6], 't', 'T') && letter(v[start + 7], 'y', 'Y')
    } else {
        false
    }
}

/// Decides whether the whole of `text` is a floating-point literal.
pub fn float_literal(text: &str) -> (b: bool)
    ensures
        b == is_float_literal(text@),
{
    let v: Vec<char> = chars_of(text);
    let start: usize = if v.len() > 0 && (v[0] == '+' || v[0] == '-') {
        1
    } else {
        0
    };
    assert(strip_sign(v@) =~= v@.subrange(start as int, v.len() as int));
    special_from(&v, start) || decimal_from(&v, start)
}

/// Where the mantissa of a decimal number must end.
///
/// `i` is the length of the leading run of digits of `s`, `dotted` says
/// whether a decimal point follows the run, and `j` is where the digits
/// after that point end (`j == i` without a point). Then a prefix of `s`
/// followed by nothing or by an exponent can be a mantissa only if it has
/// length `j`, and the prefix of length `j` is a mantissa exactly when it
/// holds a digit.
proof fn lemma_mantissa_extent(s: Seq<char>, i: int, dotted: bool, j: int)
    requires
        0 <= i <= s.len(),
        all_digits(s.subrange(0, i)),
        i < s.len() ==> !is_digit(s[i]),
        dotted <==> (i < s.len() && s[i] == '.'),
        dotted ==> i + 1 <= j <= s.len() && all_digits(s.subrange(i + 1, j)) && (j < s.len()
            ==> !is_digit(s[j])),
        !dotted ==> j == i,
    ensures
        forall|k: int| #[trigger] splits_at(s, k) ==> k == j,
        is_mantissa(s.subrange(0, j)) <==> (if dotted {
            j - 1 > 0
        } else {
            j > 0
        }),
{
    assert forall|k: int| #[trigger] splits_at(s, k) implies k == j by {
        let m = s.subrange(0, k);
        if m.len() > 0 && all_digits(m) {
            // No point in the mantissa: it is the run of digits, all of it.
            if k > i {
                assert(m[i] == s[i]);
            }
            if k < i {
                assert(s.subrange(0, i)[k] == s[k]);
            }
        } else {
            // The point stands where the run of digits ends, and the
            // mantissa goes on to the end of the digits after it.
            let d = choose|d: int| dot_splits(m, d);
            if d > i {
                assert(m.subrange(0, d)[i] == s[i]);
            }
            if k > j {
                assert(m.subrange(d + 1, m.len() as int)[j - (d + 1)] == s[j]);
            }
            if k < j {
                assert(s.subrange(i + 1, j)[k - (i + 1)] == s[k]);
            }
        }
    }
    let m = s.subrange(0, j);
    if dotted {
        if j - 1 > 0 {
            assert(m.subrange(i + 1, m.len() as int) =~= s.subrange(i + 1, j));
            assert(dot_splits(m, i));
        } else if is_mantissa(m) {
            assert(m[0] == s[i]);
        }
    }
}

} // verus!
