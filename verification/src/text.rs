//! Text building blocks: decimal numerals, comparison of strings and their
//! characters as a vector.

use vstd::prelude::*;
use vstd::utf8::*;

verus! {

/// The character that writes the digit `d`.
pub open spec fn digit(d: int) -> char {
    if d == 0 {
        '0'
    } else if d == 1 {
        '1'
    } else if d == 2 {
        '2'
    } else if d == 3 {
        '3'
    } else if d == 4 {
        '4'
    } else if d == 5 {
        '5'
    } else if d == 6 {
        '6'
    } else if d == 7 {
        '7'
    } else if d == 8 {
        '8'
    } else {
        '9'
    }
}

/// The decimal numeral of `n`, without leading zeros.
pub open spec fn decimal(n: nat) -> Seq<char>
    decreases n,
{
    if n < 10 {
        seq![digit(n as int)]
    } else {
        decimal(n / 10).push(digit((n % 10) as int))
    }
}

/// The numeral of an integer: a minus sign in front of negative numbers only.
pub open spec fn integer(i: int) -> Seq<char> {
    if i < 0 {
        seq!['-'] + decimal((-i) as nat)
    } else {
        decimal(i as nat)
    }
}

/// True of the ten digit characters.
pub open spec fn is_digit(c: char) -> bool {
    '0' <= c <= '9'
}

/// The number that a digit character stands for.
pub open spec fn digit_value(c: char) -> int {
    c as int - '0' as int
}

/// The number that a string of digits stands for.
pub open spec fn digits_value(s: Seq<char>) -> int
    decreases s.len(),
{
    if s.len() == 0 {
        0
    } else {
        digits_value(s.drop_last()) * 10 + digit_value(s.last())
    }
}

/// Every character of `s` is a digit.
pub open spec fn all_digits(s: Seq<char>) -> bool {
    forall|i: int| 0 <= i < s.len() ==> is_digit(#[trigger] s[i])
}

/// A numeral is made of digits, is not empty, and reads back as its number.
pub proof fn lemma_decimal(n: nat)
    ensures
        decimal(n).len() > 0,
        all_digits(decimal(n)),
        digits_value(decimal(n)) == n,
    decreases n,
{
    if n < 10 {
        assert(decimal(n).drop_last() =~= Seq::<char>::empty());
        assert(digits_value(decimal(n).drop_last()) == 0);
    } else {
        lemma_decimal(n / 10);
        assert(decimal(n).drop_last() =~= decimal(n / 10));
    }
}

/// Two integers with the same numeral are equal.
pub proof fn lemma_integer_injective(i: int, j: int)
    requires
        integer(i) == integer(j),
    ensures
        i == j,
{
    lemma_integer_shape(i);
    lemma_integer_shape(j);
    if i < 0 {
        lemma_decimal((-i) as nat);
        lemma_decimal((-j) as nat);
        assert(integer(i).subrange(1, integer(i).len() as int) =~= decimal((-i) as nat));
        assert(integer(j).subrange(1, integer(j).len() as int) =~= decimal((-j) as nat));
    } else {
        lemma_decimal(i as nat);
        lemma_decimal(j as nat);
    }
}

/// The first character of a numeral tells its sign, and all others are digits.
pub proof fn lemma_integer_shape(i: int)
    ensures
        integer(i).len() > 0,
        i < 0 ==> integer(i)[0] == '-',
        i >= 0 ==> is_digit(integer(i)[0]),
        forall|k: int| 1 <= k < integer(i).len() ==> is_digit(#[trigger] integer(i)[k]),
{
    if i < 0 {
        lemma_decimal((-i) as nat);
        assert forall|k: int| 1 <= k < integer(i).len() implies is_digit(
            #[trigger] integer(i)[k],
        ) by {
            assert(integer(i)[k] == decimal((-i) as nat)[k - 1]);
        }
    } else {
        lemma_decimal(i as nat);
    }
}

/// The literal of one digit.
fn digit_text(d: u128) -> (res: &'static str)
    requires
        d < 10,
    ensures
        res@ == seq![digit(d as int)],
{
    proof {
        reveal_strlit("0");
        reveal_strlit("1");
        reveal_strlit("2");
        reveal_strlit("3");
        reveal_strlit("4");
        reveal_strlit("5");
        reveal_strlit("6");
        reveal_strlit("7");
        reveal_strlit("8");
        reveal_strlit("9");
    }
    match d {
        0 => "0",
        1 => "1",
        2 => "2",
        3 => "3",
        4 => "4",
        5 => "5",
        6 => "6",
        7 => "7",
        8 => "8",
        _ => "9",
    }
}

/// Append the decimal numeral of `n`.
pub fn push_decimal(out: &mut String, n: u128)
    ensures
        final(out)@ == old(out)@ + decimal(n as nat),
    decreases n,
{
    if n >= 10 {
        push_decimal(out, n / 10);
    }
    out.append(digit_text(n % 10));
    assert(out@ =~= old(out)@ + decimal(n as nat));
}

/// Append the numeral of `v`.
pub fn push_integer(out: &mut String, v: i64)
    ensures
        final(out)@ == old(out)@ + integer(v as int),
{
    if v < 0 {
        proof {
            reveal_strlit("-");
        }
        out.append("-");
        let magnitude: i128 = -(v as i128);
        push_decimal(out, magnitude as u128);
        assert(out@ =~= old(out)@ + integer(v as int));
    } else {
        push_decimal(out, v as u128);
    }
}

/// True when the two strings hold the same characters.
pub fn same_text(a: &str, b: &str) -> (res: bool)
    ensures
        res == (a@ == b@),
{
    let x = a.as_bytes();
    let y = b.as_bytes();
    proof {
        encode_utf8_decode_utf8(a@);
        encode_utf8_decode_utf8(b@);
    }
    if x.len() != y.len() {
        return false;
    }
    let mut i: usize = 0;
    while i < x.len()
        invariant
            i <= x@.len(),
            x@.len() == y@.len(),
            x@ == encode_utf8(a@),
            y@ == encode_utf8(b@),
            forall|k: int| 0 <= k < i ==> x@[k] == y@[k],
        decreases x@.len() - i,
    {
        if x[i] != y[i] {
            return false;
        }
        i += 1;
    }
    assert(x@ =~= y@);
    true
}

/// The characters of a string, in order.
pub fn to_chars(s: &str) -> (res: Vec<char>)
    ensures
        res@ == s@,
{
    let mut out: Vec<char> = Vec::new();
    for c in it: s.chars()
        invariant
            out@ == it.seq().subrange(0, it.index() as int),
            it.seq() == s@,
    {
        out.push(c);
        assert(out@ =~= it.seq().subrange(0, it.index() + 1));
    }
    assert(out@ =~= s@);
    out
}

/// The texts of a list of strings.
pub open spec fn texts(names: Seq<String>) -> Seq<Seq<char>> {
    Seq::new(names.len(), |i: int| names[i]@)
}

/// The text without the given character.
pub open spec fn without(s: Seq<char>, c: char) -> Seq<char>
    decreases s.len(),
{
    if s.len() == 0 {
        Seq::empty()
    } else if s.last() == c {
        without(s.drop_last(), c)
    } else {
        without(s.drop_last(), c).push(s.last())
    }
}

/// The number that a character stands for as a digit, letters going on after
/// nine; sixteen or more for a character that is no digit.
pub open spec fn wide_digit(c: char) -> int {
    if '0' <= c <= '9' {
        c as int - '0' as int
    } else if 'a' <= c <= 'f' {
        c as int - 'a' as int + 10
    } else if 'A' <= c <= 'F' {
        c as int - 'A' as int + 10
    } else {
        16
    }
}

/// Every character is a digit to the given base.
pub open spec fn all_digits_to(s: Seq<char>, base: int) -> bool {
    forall|i: int| 0 <= i < s.len() ==> wide_digit(#[trigger] s[i]) < base
}

/// The number that a string of digits stands for to the given base.
pub open spec fn value_to(s: Seq<char>, base: int) -> int
    decreases s.len(),
{
    if s.len() == 0 {
        0
    } else {
        value_to(s.drop_last(), base) * base + wide_digit(s.last())
    }
}

/// The base that the prefix of a literal announces.
pub open spec fn literal_base(s: Seq<char>) -> int {
    if s.len() < 2 || s[0] != '0' {
        10
    } else if s[1] == 'x' || s[1] == 'X' {
        16
    } else if s[1] == 'o' || s[1] == 'O' {
        8
    } else if s[1] == 'b' || s[1] == 'B' {
        2
    } else {
        10
    }
}

/// How many characters come before the digits of a literal: a prefix that
/// announces the base, or the sign of a decimal.
pub open spec fn literal_head(s: Seq<char>) -> int {
    if literal_base(s) != 10 {
        2
    } else if s.len() > 0 && (s[0] == '-' || s[0] == '+') {
        1
    } else {
        0
    }
}

/// The integer that a literal without separators spells, of whatever size;
/// none if it spells no integer.
pub open spec fn literal_integer(s: Seq<char>) -> Option<int> {
    let digits = s.skip(literal_head(s));
    if digits.len() > 0 && all_digits_to(digits, literal_base(s)) {
        let magnitude = value_to(digits, literal_base(s));
        Some(
            if s[0] == '-' {
                -magnitude
            } else {
                magnitude
            },
        )
    } else {
        None
    }
}

/// What a literal is to a machine integer.
#[derive(Debug, Clone, Copy, PartialEq, Eq, Structural)]
pub enum Literal {
    /// It spells this number.
    Fits(i64),
    /// It spells a number out of range.
    TooLarge,
    /// It spells no integer.
    Malformed,
}

/// What a literal without separators is to a machine integer.
pub open spec fn literal_of(s: Seq<char>) -> Literal {
    match literal_integer(s) {
        Some(n) => if i64::MIN <= n <= i64::MAX {
            Literal::Fits(n as i64)
        } else {
            Literal::TooLarge
        },
        None => Literal::Malformed,
    }
}

/// The characters of a string other than the given one, in order.
pub fn chars_without(s: &str, c: char) -> (res: Vec<char>)
    ensures
        res@ == without(s@, c),
{
    let all: Vec<char> = to_chars(s);
    let mut out: Vec<char> = Vec::new();
    let mut i: usize = 0;
    assert(all@.take(0) =~= Seq::<char>::empty());
    while i < all.len()
        invariant
            i <= all@.len(),
            out@ == without(all@.take(i as int), c),
        decreases all@.len() - i,
    {
        assert(all@.take(i + 1).drop_last() =~= all@.take(i as int));
        if all[i] != c {
            out.push(all[i]);
        }
        i += 1;
    }
    assert(all@.take(i as int) =~= all@);
    out
}

/// The number that a character stands for as a digit; sixteen for a character
/// that is no digit.
fn digit_number(c: char) -> (res: u32)
    ensures
        res == wide_digit(c),
        res <= 16,
{
    if '0' <= c && c <= '9' {
        c as u32 - '0' as u32
    } else if 'a' <= c && c <= 'f' {
        c as u32 - 'a' as u32 + 10
    } else if 'A' <= c && c <= 'F' {
        c as u32 - 'A' as u32 + 10
    } else {
        16
    }
}

/// What the characters of a literal are to a machine integer.
pub fn read_integer(chars: &Vec<char>) -> (res: Literal)
    ensures
        res == literal_of(chars@),
{
    let ghost s = chars@;
    let base: u32 = if chars.len() < 2 || chars[0] != '0' {
        10
    } else if chars[1] == 'x' || chars[1] == 'X' {
        16
    } else if chars[1] == 'o' || chars[1] == 'O' {
        8
    } else if chars[1] == 'b' || chars[1] == 'B' {
        2
    } else {
        10
    };
    let first: usize = if base != 10 {
        2
    } else if chars.len() > 0 && (chars[0] == '-' || chars[0] == '+') {
        1
    } else {
        0
    };
    let ghost digits = s.skip(first as int);
    if first == chars.len() {
        return Literal::Malformed;
    }
    let limit: i128 = 0x8000_0000_0000_0000;
    let mut magnitude: i128 = 0;
    let mut large = false;
    let mut i: usize = first;
    assert(digits.take(0) =~= Seq::<char>::empty());
    while i < chars.len()
        invariant
            first <= i <= chars@.len(),
            s == chars@,
            base == literal_base(s),
            2 <= base <= 16,
            first == literal_head(s),
            first < s.len(),
            digits == s.skip(first as int),
            limit == 0x8000_0000_0000_0000,
            0 <= magnitude <= limit,
            all_digits_to(digits.take(i - first), base as int),
            !large ==> magnitude == value_to(digits.take(i - first), base as int),
            large ==> value_to(digits.take(i - first), base as int) > limit,
        decreases chars@.len() - i,
    {
        let c: char = chars[i];
        let ghost k = i - first;
        proof {
            assert(digits[k] == c);
            assert(digits.take(k + 1).drop_last() =~= digits.take(k));
            assert(digits.take(k + 1).last() == c);
        }
        let d: u32 = digit_number(c);
        if d >= base {
            assert(!(wide_digit(digits[k]) < base));
            return Literal::Malformed;
        }
        assert forall|j: int| 0 <= j < k + 1 implies wide_digit(#[trigger] digits.take(k + 1)[j])
            < base by {
            if j < k {
                assert(digits.take(k + 1)[j] == digits.take(k)[j]);
            }
        }
        proof {
            let v = value_to(digits.take(k), base as int);
            assert(v > limit ==> v * base > limit) by (nonlinear_arith)
                requires
                    base >= 2,
                    limit > 0,
            ;
            assert(0 <= magnitude * base <= limit * 16) by (nonlinear_arith)
                requires
                    0 <= magnitude <= limit,
                    2 <= base <= 16,
            ;
        }
        if !large {
            let next: i128 = magnitude * (base as i128) + d as i128;
            if next > limit {
                large = true;
            } else {
                magnitude = next;
            }
        }
        i += 1;
    }
    assert(digits.take(i - first) =~= digits);
    if large {
        Literal::TooLarge
    } else if chars[0] == '-' {
        Literal::Fits((-magnitude) as i64)
    } else if magnitude < limit {
        Literal::Fits(magnitude as i64)
    } else {
        Literal::TooLarge
    }
}

/// Numerals are positional: the numeral of a number below ten is its digit,
/// and one more digit behind a numeral makes ten times the number and that
/// digit.
pub proof fn law_numerals_are_positional(n: nat, d: nat)
    requires
        d < 10,
    ensures
        decimal(d) == seq![('0' as int + d) as char],
        n >= 1 ==> decimal(10 * n + d) == decimal(n).push(('0' as int + d) as char),
{
    assert(digit(d as int) == ('0' as int + d) as char);
    assert((10 * n + d) / 10 == n);
    assert((10 * n + d) % 10 == d);
}

/// A negative number has the numeral of its magnitude behind a minus sign,
/// and any other one that of its magnitude.
pub proof fn law_numerals_are_signed(n: nat)
    ensures
        integer(n as int) == decimal(n),
        n >= 1 ==> integer(-n) == seq!['-'] + decimal(n),
{
}

/// Decimal digits are worth what they are worth as wide digits.
proof fn lemma_decimal_value(s: Seq<char>)
    requires
        all_digits(s),
    ensures
        all_digits_to(s, 10),
        value_to(s, 10) == digits_value(s),
    decreases s.len(),
{
    if s.len() > 0 {
        lemma_decimal_value(s.drop_last());
        assert(is_digit(s[s.len() - 1]));
    }
}

/// A string of digits has no prefix and no sign.
proof fn lemma_decimal_head(s: Seq<char>)
    requires
        all_digits(s),
        s.len() > 0,
    ensures
        literal_base(s) == 10,
        literal_head(s) == 0,
        literal_integer(s) == Some(value_to(s, 10)),
{
    assert(is_digit(s[0]));
    if s.len() >= 2 {
        assert(is_digit(s[1]));
    }
    lemma_decimal_value(s);
    assert(s.skip(0) =~= s);
}

/// A decimal literal is worth the number that it spells: the numeral of a
/// number reads as that number, with a minus sign as its negation. It fits
/// exactly if the number is a machine integer.
pub proof fn law_decimal_literals_read_back(n: nat)
    ensures
        literal_integer(decimal(n)) == Some(n as int),
        literal_integer(seq!['-'] + decimal(n)) == Some(-n),
        n <= i64::MAX ==> literal_of(decimal(n)) == Literal::Fits(n as i64),
        n > i64::MAX ==> literal_of(decimal(n)) is TooLarge,
        n <= i64::MAX + 1 ==> literal_of(seq!['-'] + decimal(n)) == Literal::Fits((-n) as i64),
        n > i64::MAX + 1 ==> literal_of(seq!['-'] + decimal(n)) is TooLarge,
{
    lemma_decimal(n);
    lemma_decimal_head(decimal(n));
    lemma_decimal_value(decimal(n));
    let s = seq!['-'] + decimal(n);
    assert(s[0] == '-');
    assert(s.skip(1) =~= decimal(n));
}

/// Leading zeros count too: one more digit behind a string of digits makes
/// ten times the number and that digit.
pub proof fn law_decimal_literals_are_positional(s: Seq<char>, c: char)
    requires
        forall|i: int| 0 <= i < s.len() ==> '0' <= (#[trigger] s[i]) <= '9',
        '0' <= c <= '9',
    ensures
        s.len() == 0 ==> literal_integer(s.push(c)) == Some(c as int - '0' as int),
        s.len() > 0 ==> literal_integer(s) is Some && literal_integer(s.push(c)) == Some(
            10 * literal_integer(s)->Some_0 + (c as int - '0' as int),
        ),
{
    let t = s.push(c);
    assert forall|i: int| 0 <= i < s.len() implies is_digit(#[trigger] s[i]) by {}
    assert forall|i: int| 0 <= i < t.len() implies is_digit(#[trigger] t[i]) by {
        if i < s.len() {
            assert(t[i] == s[i]);
        }
    }
    lemma_decimal_head(t);
    assert(t.drop_last() =~= s);
    assert(value_to(t, 10) == value_to(s, 10) * 10 + wide_digit(c));
    if s.len() > 0 {
        lemma_decimal_head(s);
    } else {
        assert(value_to(s, 10) == 0);
    }
}

/// The character is the digit `d`, letters going on after nine.
pub open spec fn denotes(c: char, d: int) -> bool {
    ||| '0' <= c <= '9' && d == c as int - '0' as int
    ||| 'a' <= c <= 'f' && d == 10 + (c as int - 'a' as int)
    ||| 'A' <= c <= 'F' && d == 10 + (c as int - 'A' as int)
}

/// The prefix of a literal and the base that it stands for.
pub open spec fn announces(s: Seq<char>, base: int) -> bool {
    &&& s.len() >= 2
    &&& s[0] == '0'
    &&& {
        ||| (s[1] == 'x' || s[1] == 'X') && base == 16
        ||| (s[1] == 'o' || s[1] == 'O') && base == 8
        ||| (s[1] == 'b' || s[1] == 'B') && base == 2
    }
}

/// Literals with a prefix are positional too, to the base of the prefix. The
/// prefix alone is no literal.
pub proof fn law_prefixed_literals_are_positional(s: Seq<char>, base: int, c: char, d: int)
    requires
        announces(s, base),
        denotes(c, d),
        d < base,
    ensures
        s.len() == 2 ==> literal_integer(s) is None && literal_integer(s.push(c)) == Some(d),
        literal_integer(s) matches Some(m) ==> literal_integer(s.push(c)) == Some(base * m + d),
{
    let t = s.push(c);
    let digits = s.skip(2);
    let more = t.skip(2);
    assert(t[0] == s[0] && t[1] == s[1]);
    assert(more =~= digits.push(c));
    assert(more.drop_last() =~= digits);
    assert(more.last() == c);
    assert forall|i: int| 0 <= i < more.len() implies (all_digits_to(digits, base)
        ==> wide_digit(#[trigger] more[i]) < base) by {
        if i < digits.len() {
            assert(more[i] == digits[i]);
        }
    }
    let v = value_to(digits, base);
    assert(v * base == base * v) by (nonlinear_arith);
    if s.len() == 2 {
        assert(digits =~= Seq::<char>::empty());
    }
}

/// A character that is no digit of the base spoils a literal, wherever it
/// stands behind the prefix or the sign.
pub proof fn law_strange_characters_spoil_literals(s: Seq<char>, i: int)
    requires
        2 <= i < s.len(),
        forall|d: int| #[trigger] denotes(s[i], d) ==> d >= 10 && !announces(s, 16),
    ensures
        literal_integer(s) is None,
        literal_of(s) is Malformed,
{
    let head = literal_head(s);
    let digits = s.skip(head);
    let d = wide_digit(s[i]);
    assert(digits[i - head] == s[i]);
    if d < 16 {
        assert(denotes(s[i], d));
    }
    assert(!(wide_digit(digits[i - head]) < literal_base(s)));
}

/// Taking a character out of a text is taking it out of its parts: what is
/// left are the other characters, in order.
pub proof fn law_characters_are_taken_out_one_by_one(a: Seq<char>, x: char, c: char)
    ensures
        without(Seq::<char>::empty(), c) == Seq::<char>::empty(),
        x == c ==> without(a.push(x), c) == without(a, c),
        x != c ==> without(a.push(x), c) == without(a, c).push(x),
{
    assert(a.push(x).drop_last() =~= a);
}

/// Reading the numeral of a number gives the number, if it is a machine
/// integer.
pub proof fn law_numerals_are_read(n: nat, chars: &Vec<char>, res: Literal)
    requires
        call_ensures(read_integer, (chars,), res),
        chars@ == decimal(n),
    ensures
        n <= i64::MAX ==> res == Literal::Fits(n as i64),
        n > i64::MAX ==> res is TooLarge,
{
    law_decimal_literals_read_back(n);
}

/// Writing a number and reading what was written gives the number back.
pub proof fn law_writing_and_reading_agree(
    out: &mut String,
    n: i64,
    chars: &Vec<char>,
    res: Literal,
)
    requires
        call_ensures(push_integer, (out, n), ()),
        old(out)@.len() == 0,
        call_ensures(read_integer, (chars,), res),
        chars@ == final(out)@,
    ensures
        res == Literal::Fits(n),
{
    let m: nat = if n < 0 {
        (-n) as nat
    } else {
        n as nat
    };
    law_decimal_literals_read_back(m);
    assert(final(out)@ =~= integer(n as int));
}

/// Writing a number appends its numeral and changes nothing before it.
pub proof fn law_numbers_are_appended(out: &mut String, n: u128)
    requires
        call_ensures(push_decimal, (out, n), ()),
    ensures
        final(out)@ == old(out)@ + decimal(n as nat),
{
}

/// Two texts compare equal exactly if they are the same characters.
pub proof fn law_texts_are_compared(a: &str, b: &str, res: bool)
    requires
        call_ensures(same_text, (a, b), res),
    ensures
        res <==> a@ == b@,
{
}

} // verus!
