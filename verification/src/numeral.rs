//! Natural numbers of any size, kept as decimal digits.
//!
//! State indices, integer literals and the two halves of a rational literal
//! are all written to the solver in decimal. A [`Numeral`] holds the digits
//! themselves, so that no literal is ever too large to represent.

use vstd::prelude::*;

verus! {

/// The character that stands for a digit.
pub open spec fn digit_char(d: u8) -> char {
    if d == 0 {
        '0'
    } else if d == 1 {
        '1'
    } else if d == 2 {
        '2'
    } else if d == 3 {
        '3'
    } else if d == 4 {
        '4'
    } else if d == 5 {
        '5'
    } else if d == 6 {
        '6'
    } else if d == 7 {
        '7'
    } else if d == 8 {
        '8'
    } else {
        '9'
    }
}

/// Digits in canonical form: at least one, each below ten, and no leading
/// zero except for the number zero itself.
pub open spec fn canonical(d: Seq<u8>) -> bool {
    &&& d.len() >= 1
    &&& forall|i: int| 0 <= i < d.len() ==> #[trigger] d[i] < 10
    &&& (d.len() > 1 ==> d[0] != 0)
}

/// The number that a sequence of digits denotes, most significant first.
pub open spec fn digits_value(d: Seq<u8>) -> nat
    decreases d.len(),
{
    if d.len() == 0 {
        0
    } else {
        digits_value(d.drop_last()) * 10 + d.last() as nat
    }
}

/// The decimal text of a sequence of digits.
pub open spec fn digits_text(d: Seq<u8>) -> Seq<char> {
    Seq::new(d.len(), |i: int| digit_char(d[i]))
}

/// The canonical digits of a natural number.
pub open spec fn decimal(n: nat) -> Seq<u8>
    decreases n,
{
    if n < 10 {
        seq![n as u8]
    } else {
        decimal(n / 10).push((n % 10) as u8)
    }
}

/// The decimal text of a natural number.
pub open spec fn decimal_text(n: nat) -> Seq<char> {
    digits_text(decimal(n))
}

/// The digits of `n` are canonical and denote `n`.
pub proof fn lemma_decimal(n: nat)
    ensures
        canonical(decimal(n)),
        digits_value(decimal(n)) == n,
        n >= 10 ==> decimal(n)[0] != 0,
    decreases n,
{
    if n < 10 {
        let d = seq![n as u8];
        assert(d.drop_last() =~= Seq::<u8>::empty());
        assert(digits_value(d.drop_last()) == 0);
        assert(d.last() == n as u8);
    } else {
        lemma_decimal(n / 10);
        let p = decimal(n / 10);
        let d = p.push((n % 10) as u8);
        assert(d.drop_last() =~= p);
        assert(d.last() == (n % 10) as u8);
        assert(d[0] == p[0]);
        assert(n / 10 >= 1);
        if n / 10 < 10 {
            assert(p =~= seq![(n / 10) as u8]);
            assert(p[0] != 0);
        }
        assert forall|i: int| 0 <= i < d.len() implies #[trigger] d[i] < 10 by {
            if i < p.len() {
                assert(d[i] == p[i]);
            }
        }
    }
}

/// Canonical digits are determined by the number they denote.
pub proof fn lemma_canonical_unique(d: Seq<u8>)
    requires
        canonical(d),
    ensures
        decimal(digits_value(d)) == d,
        d.len() > 1 ==> digits_value(d) >= 10,
    decreases d.len(),
{
    if d.len() == 1 {
        assert(d.drop_last() =~= Seq::<u8>::empty());
        assert(digits_value(d.drop_last()) == 0);
        assert(digits_value(d) == d[0] as nat);
        assert(decimal(digits_value(d)) =~= d);
    } else {
        let p = d.drop_last();
        assert(p[0] == d[0]);
        assert forall|i: int| 0 <= i < p.len() implies #[trigger] p[i] < 10 by {
            assert(p[i] == d[i]);
        }
        if p.len() > 1 {
            lemma_canonical_unique(p);
        } else {
            assert(p.drop_last() =~= Seq::<u8>::empty());
            assert(digits_value(p.drop_last()) == 0);
            assert(digits_value(p) == p[0] as nat);
            assert(decimal(digits_value(p)) =~= p);
        }
        let v = digits_value(p);
        assert(v >= 1);
        let n = digits_value(d);
        assert(n == v * 10 + d.last() as nat);
        assert(n / 10 == v && n % 10 == d.last() as nat);
        assert(decimal(n) =~= decimal(v).push(d.last()));
        assert(p.push(d.last()) =~= d);
    }
}

/// Two sequences of digits with the same text are the same.
pub proof fn lemma_text_injective(a: Seq<u8>, b: Seq<u8>)
    requires
        canonical(a),
        canonical(b),
        digits_text(a) == digits_text(b),
    ensures
        a == b,
{
    assert(a.len() == digits_text(a).len());
    assert(b.len() == digits_text(b).len());
    assert forall|i: int| 0 <= i < a.len() implies a[i] == b[i] by {
        assert(digits_text(a)[i] == digit_char(a[i]));
        assert(digits_text(b)[i] == digit_char(b[i]));
        assert(a[i] < 10 && b[i] < 10);
    }
    assert(a =~= b);
}

/// The canonical digits that a text writes in decimal, if it writes any.
pub open spec fn digits_written(t: Seq<char>) -> Option<Seq<u8>> {
    if exists|d: Seq<u8>| canonical(d) && digits_text(d) == t {
        Some(choose|d: Seq<u8>| canonical(d) && digits_text(d) == t)
    } else {
        None
    }
}

/// The number that a text writes, with a minus sign before the digits
/// where it is negative: whether it has the sign, and its digits.
pub open spec fn signed_written(t: Seq<char>) -> Option<(bool, Seq<u8>)> {
    if t.len() > 0 && t[0] == '-' {
        match digits_written(t.subrange(1, t.len() as int)) {
            Some(d) => Some((true, d)),
            None => None,
        }
    } else {
        match digits_written(t) {
            Some(d) => Some((false, d)),
            None => None,
        }
    }
}

/// A text writes the canonical digits of which it is the text, and no
/// others.
pub proof fn lemma_digits_written(t: Seq<char>, d: Seq<u8>)
    requires
        canonical(d),
        digits_text(d) == t,
    ensures
        digits_written(t) == Some(d),
{
    let c = choose|c: Seq<u8>| canonical(c) && digits_text(c) == t;
    lemma_text_injective(c, d);
}

/// The first digits of a number denote no more than the number.
pub proof fn lemma_prefix_le(d: Seq<u8>, i: int)
    requires
        0 <= i <= d.len(),
    ensures
        digits_value(d.subrange(0, i)) <= digits_value(d),
    decreases d.len() - i,
{
    if i < d.len() {
        lemma_prefix_le(d, i + 1);
        let p = d.subrange(0, i + 1);
        assert(p.drop_last() =~= d.subrange(0, i));
    } else {
        assert(d.subrange(0, i) =~= d);
    }
}

/// A natural number of any size.
///
/// The digits are private: every value is canonical.
#[derive(Debug)]
pub struct Numeral {
    digits: Vec<u8>,
}

impl Numeral {
    /// The digits held, most significant first.
    pub closed spec fn digits(&self) -> Seq<u8> {
        self.digits@
    }

    /// The invariant of the type.
    pub open spec fn wf(&self) -> bool {
        canonical(self.digits())
    }

    /// The number denoted.
    pub open spec fn value(&self) -> nat {
        digits_value(self.digits())
    }

    /// The decimal text of the number.
    pub open spec fn text(&self) -> Seq<char> {
        digits_text(self.digits())
    }

    /// A well-formed numeral is the decimal form of its value.
    pub proof fn lemma_text_of_value(&self)
        requires
            self.wf(),
        ensures
            self.digits() == decimal(self.value()),
            self.text() == decimal_text(self.value()),
    {
        lemma_canonical_unique(self.digits());
    }

    /// The numeral of a machine integer.
    pub fn from_u64(n: u64) -> (r: Numeral)
        ensures
            r.wf(),
            r.value() == n,
            r.digits() == decimal(n as nat),
    {
        let mut rev: Vec<u8> = Vec::new();
        let mut rest: u64 = n;
        // The digits come out least significant first.
        while rest >= 10
            invariant
                decimal(n as nat) =~= decimal(rest as nat) + rev@.reverse(),
            decreases rest,
        {
            let d: u8 = (rest % 10) as u8;
            proof {
                let r0 = rest as nat;
                assert(decimal(r0) =~= decimal(r0 / 10).push((r0 % 10) as u8));
                assert(rev@.push(d).reverse() =~= seq![d] + rev@.reverse());
            }
            rev.push(d);
            rest = rest / 10;
        }
        let mut digits: Vec<u8> = Vec::new();
        digits.push(rest as u8);
        let mut i: usize = rev.len();
        while i > 0
            invariant
                i <= rev.len(),
                digits@ =~= seq![rest as u8] + rev@.reverse().subrange(0, rev.len() - i),
            decreases i,
        {
            i = i - 1;
            digits.push(rev[i]);
        }
        proof {
            assert(rev@.reverse().subrange(0, rev.len() as int) =~= rev@.reverse());
            assert(decimal(rest as nat) =~= seq![rest as u8]);
            lemma_decimal(n as nat);
        }
        Numeral { digits }
    }

    /// Reads a numeral from its decimal text. Only canonical text is
    /// accepted: ASCII digits, at least one, no leading zero except in `0`.
    pub fn from_text(text: &str) -> (r: Option<Numeral>)
        ensures
            match r {
                Some(n) => n.wf() && n.text() == text@,
                None => forall|d: Seq<u8>| canonical(d) ==> digits_text(d) != text@,
            },
    {
        let len: usize = text.unicode_len();
        let mut digits: Vec<u8> = Vec::new();
        let mut i: usize = 0;
        while i < len
            invariant
                len == text@.len(),
                i <= len,
                digits@.len() == i,
                forall|j: int| 0 <= j < i ==> #[trigger] digits@[j] < 10,
                forall|j: int| 0 <= j < i ==> digit_char(#[trigger] digits@[j]) == text@[j],
            decreases len - i,
        {
            let c: char = text.get_char(i);
            match digit_of(c) {
                Some(d) => {
                    digits.push(d);
                },
                None => {
                    proof {
                        assert forall|d: Seq<u8>| canonical(d) implies digits_text(d) != text@ by {
                            if digits_text(d) == text@ {
                                assert(digits_text(d)[i as int] == digit_char(d[i as int]));
                                assert(d[i as int] < 10);
                            }
                        }
                    }
                    return None;
                },
            }
            i = i + 1;
        }
        if len == 0 || (len > 1 && digits[0] == 0) {
            proof {
                assert forall|d: Seq<u8>| canonical(d) implies digits_text(d) != text@ by {
                    if digits_text(d) == text@ {
                        assert(d.len() == len);
                        assert(digits_text(d)[0] == digit_char(d[0]));
                        assert(d[0] < 10);
                        assert(digits@[0] < 10);
                    }
                }
            }
            return None;
        }
        assert(digits_text(digits@) =~= text@);
        Some(Numeral { digits })
    }

    /// The number as a machine integer, if it fits.
    pub fn to_usize(&self) -> (r: Option<usize>)
        requires
            self.wf(),
        ensures
            match r {
                Some(n) => n == self.value(),
                None => self.value() > usize::MAX,
            },
    {
        let mut acc: usize = 0;
        let mut i: usize = 0;
        assert(self.digits@.subrange(0, 0) =~= Seq::<u8>::empty());
        while i < self.digits.len()
            invariant
                i <= self.digits@.len(),
                self.wf(),
                acc == digits_value(self.digits@.subrange(0, i as int)),
            decreases self.digits@.len() - i,
        {
            let d: usize = self.digits[i] as usize;
            proof {
                let p = self.digits@.subrange(0, i + 1);
                assert(p.drop_last() =~= self.digits@.subrange(0, i as int));
                assert(p.last() == self.digits@[i as int]);
                lemma_prefix_le(self.digits@, i + 1);
            }
            let tenfold: usize = match acc.checked_mul(10) {
                Some(m) => m,
                None => {
                    return None;
                },
            };
            acc = match tenfold.checked_add(d) {
                Some(v) => v,
                None => {
                    return None;
                },
            };
            i = i + 1;
        }
        assert(self.digits@.subrange(0, self.digits@.len() as int) =~= self.digits@);
        Some(acc)
    }

    /// Tells whether the invariant of the type holds.
    pub fn is_wf(&self) -> (r: bool)
        ensures
            r == self.wf(),
    {
        if self.digits.len() == 0 {
            return false;
        }
        if self.digits.len() > 1 && self.digits[0] == 0 {
            return false;
        }
        let mut i: usize = 0;
        while i < self.digits.len()
            invariant
                i <= self.digits@.len(),
                forall|j: int| 0 <= j < i ==> #[trigger] self.digits@[j] < 10,
            decreases self.digits@.len() - i,
        {
            if self.digits[i] >= 10 {
                return false;
            }
            i = i + 1;
        }
        true
    }

    /// Tells whether the number is zero.
    pub fn is_zero(&self) -> (r: bool)
        requires
            self.wf(),
        ensures
            r == (self.value() == 0),
    {
        proof {
            lemma_canonical_unique(self.digits@);
            let d = self.digits@;
            if d.len() == 1 {
                assert(d.drop_last() =~= Seq::<u8>::empty());
                assert(digits_value(d.drop_last()) == 0);
            }
        }
        self.digits.len() == 1 && self.digits[0] == 0
    }

    /// Tells whether two numerals denote the same number.
    pub fn same(&self, other: &Numeral) -> (r: bool)
        requires
            self.wf(),
            other.wf(),
        ensures
            r == (self.value() == other.value()),
            r == (self.digits() == other.digits()),
    {
        proof {
            lemma_canonical_unique(self.digits@);
            lemma_canonical_unique(other.digits@);
        }
        if self.digits.len() != other.digits.len() {
            return false;
        }
        let mut i: usize = 0;
        while i < self.digits.len()
            invariant
                i <= self.digits@.len(),
                self.digits@.len() == other.digits@.len(),
                forall|j: int| 0 <= j < i ==> self.digits@[j] == other.digits@[j],
                decimal(self.value()) == self.digits@,
                decimal(other.value()) == other.digits@,
            decreases self.digits@.len() - i,
        {
            if self.digits[i] != other.digits[i] {
                assert(self.digits@[i as int] != other.digits@[i as int]);
                return false;
            }
            i = i + 1;
        }
        assert(self.digits@ =~= other.digits@);
        true
    }

    /// A copy of the numeral.
    pub fn duplicate(&self) -> (r: Numeral)
        ensures
            r.digits() == self.digits(),
    {
        let mut digits: Vec<u8> = Vec::new();
        let mut i: usize = 0;
        while i < self.digits.len()
            invariant
                i <= self.digits@.len(),
                digits@ =~= self.digits@.subrange(0, i as int),
            decreases self.digits@.len() - i,
        {
            digits.push(self.digits[i]);
            i = i + 1;
        }
        assert(self.digits@.subrange(0, self.digits@.len() as int) =~= self.digits@);
        Numeral { digits }
    }

    /// Appends the decimal text of the number to `out`.
    pub fn write(&self, out: &mut String)
        requires
            self.wf(),
        ensures
            final(out)@ == old(out)@ + self.text(),
    {
        let mut i: usize = 0;
        while i < self.digits.len()
            invariant
                i <= self.digits@.len(),
                self.wf(),
                out@ =~= old(out)@ + self.text().subrange(0, i as int),
            decreases self.digits@.len() - i,
        {
            let d: u8 = self.digits[i];
            assert(d < 10);
            let s: &'static str = digit_str(d);
            out.append(s);
            proof {
                assert(self.text().subrange(0, i + 1) =~= self.text().subrange(0, i as int)
                    + seq![digit_char(d)]);
            }
            i = i + 1;
        }
        assert(self.text().subrange(0, self.digits@.len() as int) =~= self.text());
    }
}

/// Reads a machine integer from its decimal text. The text must be
/// canonical, and the number must fit.
pub fn read_usize(text: &str) -> (r: Option<usize>)
    ensures
        match r {
            Some(n) => text@ == decimal_text(n as nat),
            None => forall|n: nat| n <= usize::MAX ==> text@ != decimal_text(n),
        },
{
    match Numeral::from_text(text) {
        Some(num) => {
            proof {
                num.lemma_text_of_value();
            }
            match num.to_usize() {
                Some(n) => Some(n),
                None => {
                    proof {
                        assert forall|n: nat| n <= usize::MAX implies text@ != decimal_text(n) by {
                            if text@ == decimal_text(n) {
                                lemma_decimal(n);
                                lemma_text_injective(num.digits(), decimal(n));
                            }
                        }
                    }
                    None
                },
            }
        },
        None => {
            proof {
                assert forall|n: nat| n <= usize::MAX implies text@ != decimal_text(n) by {
                    lemma_decimal(n);
                }
            }
            None
        },
    }
}

/// The digit that a character stands for, if it is an ASCII digit.
pub fn digit_of(c: char) -> (r: Option<u8>)
    ensures
        match r {
            Some(d) => d < 10 && digit_char(d) == c,
            None => forall|d: u8| d < 10 ==> digit_char(d) != c,
        },
{
    if c == '0' {
        Some(0)
    } else if c == '1' {
        Some(1)
    } else if c == '2' {
        Some(2)
    } else if c == '3' {
        Some(3)
    } else if c == '4' {
        Some(4)
    } else if c == '5' {
        Some(5)
    } else if c == '6' {
        Some(6)
    } else if c == '7' {
        Some(7)
    } else if c == '8' {
        Some(8)
    } else if c == '9' {
        Some(9)
    } else {
        None
    }
}

/// The one-character text of a digit.
fn digit_str(d: u8) -> (r: &'static str)
    requires
        d < 10,
    ensures
        r@ == seq![digit_char(d)],
{
    proof {
        reveal_strlit("0");
        reveal_strlit("1");
        reveal_strlit("2");
        reveal_strlit("3");
        reveal_strlit("4");
        reveal_strlit("5");
        reveal_strlit("6");
        reveal_strlit("7");
        reveal_strlit("8");
        reveal_strlit("9");
    }
    let r: &'static str = if d == 0 {
        "0"
    } else if d == 1 {
        "1"
    } else if d == 2 {
        "2"
    } else if d == 3 {
        "3"
    } else if d == 4 {
        "4"
    } else if d == 5 {
        "5"
    } else if d == 6 {
        "6"
    } else if d == 7 {
        "7"
    } else if d == 8 {
        "8"
    } else {
        "9"
    };
    assert(r@ =~= seq![digit_char(d)]);
    r
}

} // verus!
