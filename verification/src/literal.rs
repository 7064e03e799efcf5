//! The grammar of a decimal floating-point literal, and a recogniser for it.
//!
//! ```text
//! literal  ::= sign? mantissa exponent?
//! mantissa ::= digit+ | digit+ '.' digit* | digit* '.' digit+
//! exponent ::= ('e' | 'E') sign? digit+
//! sign     ::= '+' | '-'
//! ```

use vstd::prelude::*;

verus! {

/// One of the ten decimal digits.
pub open spec fn is_digit(c: char) -> bool {
    '0' <= c && c <= '9'
}

/// A plus or a minus.
pub open spec fn is_sign(c: char) -> bool {
    c == '+' || c == '-'
}

/// The letter that begins an exponent, small or capital.
pub open spec fn is_exponent_mark(c: char) -> bool {
    c == 'e' || c == 'E'
}

/// The characters a literal is made of.
pub open spec fn is_literal_char(c: char) -> bool {
    is_digit(c) || is_sign(c) || is_exponent_mark(c) || c == '.'
}

/// Every character of `s` is a digit.
pub open spec fn all_digits(s: Seq<char>) -> bool {
    forall|i: int| 0 <= i < s.len() ==> is_digit(#[trigger] s[i])
}

/// A literal taken apart. A part that is left out is empty.
pub struct LiteralParts {
    pub sign: Seq<char>,
    pub whole: Seq<char>,
    pub point: Seq<char>,
    pub fraction: Seq<char>,
    pub mark: Seq<char>,
    pub exponent_sign: Seq<char>,
    pub exponent: Seq<char>,
}

impl LiteralParts {
    /// The parts one after another.
    pub open spec fn text(self) -> Seq<char> {
        self.sign + self.whole + self.point + self.fraction + self.mark + self.exponent_sign
            + self.exponent
    }

    /// The parts are those of the grammar: at most one sign; digits before
    /// and behind an optional point, one at least, and none behind a point
    /// that is left out; then nothing, or the mark of the exponent, at most
    /// one sign, and one digit or more.
    pub open spec fn wf(self) -> bool {
        &&& self.sign.len() <= 1
        &&& self.sign.len() == 1 ==> is_sign(self.sign[0])
        &&& all_digits(self.whole)
        &&& self.point.len() <= 1
        &&& self.point.len() == 1 ==> self.point[0] == '.'
        &&& all_digits(self.fraction)
        &&& self.point.len() == 0 ==> self.fraction.len() == 0
        &&& self.whole.len() + self.fraction.len() > 0
        &&& self.mark.len() <= 1
        &&& self.mark.len() == 1 ==> is_exponent_mark(self.mark[0]) && self.exponent.len() > 0
        &&& self.mark.len() == 0 ==> self.exponent_sign.len() == 0 && self.exponent.len() == 0
        &&& self.exponent_sign.len() <= 1
        &&& self.exponent_sign.len() == 1 ==> is_sign(self.exponent_sign[0])
        &&& all_digits(self.exponent)
    }
}

/// `s` is a floating-point literal: the grammar builds it.
pub open spec fn float_literal(s: Seq<char>) -> bool {
    exists|parts: LiteralParts| #[trigger] parts.wf() && parts.text() == s
}

/// The index behind the digits of `s` that start at `from`.
spec fn digits_end(s: Seq<char>, from: int) -> int
    decreases s.len() - from,
{
    if 0 <= from < s.len() && is_digit(s[from]) {
        digits_end(s, from + 1)
    } else {
        from
    }
}

/// The index behind the sign of `s` at `from`, if one is there.
spec fn sign_end(s: Seq<char>, from: int) -> int {
    if 0 <= from < s.len() && is_sign(s[from]) {
        from + 1
    } else {
        from
    }
}

/// Where a reading of `s` from left to right finds the parts of a literal:
/// the indexes behind the sign, the whole digits, the point, the fraction,
/// the mark of the exponent and its sign.
struct Cuts {
    whole: int,
    point: int,
    fraction: int,
    mark: int,
    exponent_sign: int,
    exponent: int,
}

spec fn cuts(s: Seq<char>) -> Cuts {
    let whole = sign_end(s, 0);
    let point = digits_end(s, whole);
    let fraction = if point < s.len() && s[point] == '.' {
        point + 1
    } else {
        point
    };
    let mark = if fraction > point {
        digits_end(s, fraction)
    } else {
        point
    };
    let exponent_sign = if mark < s.len() && is_exponent_mark(s[mark]) {
        mark + 1
    } else {
        mark
    };
    let exponent = if exponent_sign > mark {
        sign_end(s, exponent_sign)
    } else {
        mark
    };
    Cuts { whole, point, fraction, mark, exponent_sign, exponent }
}

/// A reading of `s` from left to right finds a literal, the whole of it.
spec fn scans_as_literal(s: Seq<char>) -> bool {
    let c = cuts(s);
    &&& (c.point - c.whole) + (c.mark - c.fraction) > 0
    &&& (c.mark == s.len() || (c.exponent_sign > c.mark && c.exponent < s.len() && digits_end(
        s,
        c.exponent,
    ) == s.len()))
}

/// A run of digits ends inside the text, holds digits only, and stands
/// before what is no digit.
proof fn lemma_digits_end(s: Seq<char>, from: int)
    requires
        0 <= from <= s.len(),
    ensures
        from <= digits_end(s, from) <= s.len(),
        forall|i: int| from <= i < digits_end(s, from) ==> is_digit(#[trigger] s[i]),
        digits_end(s, from) < s.len() ==> !is_digit(s[digits_end(s, from)]),
    decreases s.len() - from,
{
    if from < s.len() && is_digit(s[from]) {
        lemma_digits_end(s, from + 1);
    }
}

/// Digits up to an index where no digit stands are the run that ends there.
proof fn lemma_digits_end_is(s: Seq<char>, from: int, to: int)
    requires
        0 <= from <= to <= s.len(),
        forall|i: int| from <= i < to ==> is_digit(#[trigger] s[i]),
        to < s.len() ==> !is_digit(s[to]),
    ensures
        digits_end(s, from) == to,
    decreases to - from,
{
    if from < to {
        lemma_digits_end_is(s, from + 1, to);
    }
}

/// What is read as a literal is built by the grammar: these are its parts.
proof fn lemma_scan_has_parts(s: Seq<char>) -> (parts: LiteralParts)
    requires
        scans_as_literal(s),
    ensures
        parts.wf(),
        parts.text() == s,
{
    let c = cuts(s);
    let n = s.len() as int;
    lemma_digits_end(s, c.whole);
    if c.fraction > c.point {
        lemma_digits_end(s, c.fraction);
    }
    if c.exponent_sign > c.mark {
        lemma_digits_end(s, c.exponent);
    }
    let parts = LiteralParts {
        sign: s.subrange(0, c.whole),
        whole: s.subrange(c.whole, c.point),
        point: s.subrange(c.point, c.fraction),
        fraction: s.subrange(c.fraction, c.mark),
        mark: s.subrange(c.mark, c.exponent_sign),
        exponent_sign: s.subrange(c.exponent_sign, c.exponent),
        exponent: s.subrange(c.exponent, n),
    };
    assert(parts.text() =~= s);
    parts
}

/// What the grammar builds is read as a literal.
proof fn lemma_parts_scan(parts: LiteralParts)
    requires
        parts.wf(),
    ensures
        scans_as_literal(parts.text()),
{
    let s = parts.text();
    let i0 = parts.sign.len() as int;
    let i1 = i0 + parts.whole.len();
    let i2 = i1 + parts.point.len();
    let i3 = i2 + parts.fraction.len();
    let i4 = i3 + parts.mark.len();
    let i5 = i4 + parts.exponent_sign.len();
    let n = i5 + parts.exponent.len();
    assert(s.len() == n);
    assert(s.subrange(0, i0) =~= parts.sign);
    assert(s.subrange(i0, i1) =~= parts.whole);
    assert(s.subrange(i1, i2) =~= parts.point);
    assert(s.subrange(i2, i3) =~= parts.fraction);
    assert(s.subrange(i3, i4) =~= parts.mark);
    assert(s.subrange(i4, i5) =~= parts.exponent_sign);
    assert(s.subrange(i5, n) =~= parts.exponent);
    lemma_subrange_digits(s, i0, i1);
    lemma_subrange_digits(s, i2, i3);
    lemma_subrange_digits(s, i5, n);
    if i0 == 1 {
        assert(s[0] == s.subrange(0, i0)[0]);
    }
    if i2 > i1 {
        assert(s[i1] == s.subrange(i1, i2)[0]);
    }
    if i4 > i3 {
        assert(s[i3] == s.subrange(i3, i4)[0]);
    }
    if i5 > i4 {
        assert(s[i4] == s.subrange(i4, i5)[0]);
    }
    // What stands behind each run of digits is no digit, and what stands
    // where a sign is left out is no sign.
    assert(i1 < n ==> s[i1] == '.' || is_exponent_mark(s[i1]));
    assert(i3 < n ==> is_exponent_mark(s[i3]));
    assert(i0 == 0 ==> is_digit(s[0]) || s[0] == '.') by {
        if i0 == 0 && i1 > i0 {
            assert(is_digit(s[i0]));
        }
    }
    assert(i4 > i3 && i5 == i4 ==> is_digit(s[i4]));
    assert(sign_end(s, 0) == i0);
    lemma_digits_end_is(s, i0, i1);
    if i2 > i1 {
        lemma_digits_end_is(s, i2, i3);
    }
    if i4 > i3 {
        assert(sign_end(s, i4) == i5);
        lemma_digits_end_is(s, i5, n);
    }
}

/// The characters of a part that is all digits are digits of the whole text.
proof fn lemma_subrange_digits(s: Seq<char>, from: int, to: int)
    requires
        0 <= from <= to <= s.len(),
        all_digits(s.subrange(from, to)),
    ensures
        forall|i: int| from <= i < to ==> is_digit(#[trigger] s[i]),
{
    assert forall|i: int| from <= i < to implies is_digit(#[trigger] s[i]) by {
        assert(s[i] == s.subrange(from, to)[i - from]);
    }
}

/// Reading from left to right decides the grammar.
proof fn lemma_scan_decides(s: Seq<char>)
    ensures
        scans_as_literal(s) == float_literal(s),
{
    if scans_as_literal(s) {
        let parts = lemma_scan_has_parts(s);
        assert(parts.wf() && parts.text() == s);
    }
    if float_literal(s) {
        let parts = choose|parts: LiteralParts| #[trigger] parts.wf() && parts.text() == s;
        lemma_parts_scan(parts);
    }
}

/// The digit zero alone is a literal.
pub proof fn lemma_zero_literal()
    ensures
        float_literal(seq!['0']),
{
    let none = Seq::<char>::empty();
    let parts = LiteralParts {
        sign: none,
        whole: seq!['0'],
        point: none,
        fraction: none,
        mark: none,
        exponent_sign: none,
        exponent: none,
    };
    assert(parts.text() =~= seq!['0']);
    assert(parts.wf());
}

/// A literal is not empty, and every character of it is a digit, a sign, an
/// exponent mark or the point.
pub proof fn lemma_literal_chars(s: Seq<char>)
    requires
        float_literal(s),
    ensures
        s.len() > 0,
        forall|i: int| 0 <= i < s.len() ==> is_literal_char(#[trigger] s[i]),
{
    lemma_scan_decides(s);
    let c = cuts(s);
    lemma_digits_end(s, c.whole);
    if c.fraction > c.point {
        lemma_digits_end(s, c.fraction);
    }
    if c.exponent_sign > c.mark {
        lemma_digits_end(s, c.exponent);
    }
}

/// The index behind the digits that start at `from`.
fn skip_digits(text: &[char], from: usize) -> (to: usize)
    requires
        from <= text@.len(),
    ensures
        to == digits_end(text@, from as int),
        from <= to <= text@.len(),
{
    let mut to: usize = from;
    while to < text.len() && '0' <= text[to] && text[to] <= '9'
        invariant
            from <= to <= text@.len(),
            digits_end(text@, from as int) == digits_end(text@, to as int),
        decreases text@.len() - to,
    {
        to += 1;
    }
    to
}

/// The index behind an optional sign at `from`.
fn skip_sign(text: &[char], from: usize) -> (to: usize)
    requires
        from <= text@.len(),
    ensures
        to == sign_end(text@, from as int),
        from <= to <= text@.len(),
{
    if from < text.len() && (text[from] == '+' || text[from] == '-') {
        from + 1
    } else {
        from
    }
}

/// Whether `text` is a floating-point literal.
pub fn is_float_literal(text: &[char]) -> (ok: bool)
    ensures
        ok == float_literal(text@),
{
    proof {
        lemma_scan_decides(text@);
    }
    let n = text.len();
    let whole = skip_sign(text, 0);
    let point = skip_digits(text, whole);
    let pointed = point < n && text[point] == '.';
    let fraction = if pointed {
        point + 1
    } else {
        point
    };
    let mark = if pointed {
        skip_digits(text, fraction)
    } else {
        point
    };
    if (point - whole) + (mark - fraction) == 0 {
        return false;
    }
    if mark == n {
        return true;
    }
    if text[mark] != 'e' && text[mark] != 'E' {
        return false;
    }
    let exponent = skip_sign(text, mark + 1);
    exponent < n && skip_digits(text, exponent) == n
}

} // verus!
