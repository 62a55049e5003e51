//! The textual form of signed 64-bit integers: a decimal-digit value
//! function, a rendering function proved to produce exactly that text, and
//! a parser proved to accept exactly the strings the rendering grammar
//! describes (an optional sign followed by digits, with the value in range).

use vstd::prelude::*;

verus! {

pub open spec fn is_digit_char(c: char) -> bool {
    '0' <= c && c <= '9'
}

pub open spec fn digit_val(c: char) -> int {
    c as int - '0' as int
}

pub open spec fn all_digits(s: Seq<char>) -> bool {
    forall|i: int| 0 <= i < s.len() ==> is_digit_char(#[trigger] s[i])
}

/// Value of a string of decimal digits, most significant first.
pub open spec fn digits_val(s: Seq<char>) -> int
    decreases s.len(),
{
    if s.len() == 0 {
        0
    } else {
        digits_val(s.drop_last()) * 10 + digit_val(s.last())
    }
}

pub open spec fn digit_char(d: int) -> char {
    if d == 0 { '0' }
    else if d == 1 { '1' }
    else if d == 2 { '2' }
    else if d == 3 { '3' }
    else if d == 4 { '4' }
    else if d == 5 { '5' }
    else if d == 6 { '6' }
    else if d == 7 { '7' }
    else if d == 8 { '8' }
    else { '9' }
}

/// Decimal digit string of a non-negative integer, without sign.
pub open spec fn digits_text(n: int) -> Seq<char>
    decreases n,
{
    if n < 10 {
        seq![digit_char(n)]
    } else {
        digits_text(n / 10) + seq![digit_char(n % 10)]
    }
}

/// Textual form of an integer: digits, with a leading '-' when negative.
pub open spec fn int_text(n: int) -> Seq<char> {
    if n >= 0 {
        digits_text(n)
    } else {
        seq!['-'] + digits_text(-n)
    }
}

/// The digits of an integer text, with any single leading sign removed.
pub open spec fn int_body(s: Seq<char>) -> Seq<char> {
    if s.len() > 0 && (s[0] == '-' || s[0] == '+') {
        s.drop_first()
    } else {
        s
    }
}

pub open spec fn int_negative(s: Seq<char>) -> bool {
    s.len() > 0 && s[0] == '-'
}

/// The integer grammar: an optional sign, then one or more digits.
pub open spec fn is_int_syntax(s: Seq<char>) -> bool {
    int_body(s).len() > 0 && all_digits(int_body(s))
}

pub open spec fn int_value(s: Seq<char>) -> int {
    if int_negative(s) {
        -digits_val(int_body(s))
    } else {
        digits_val(int_body(s))
    }
}

/// The strings `i64` reads: integer syntax with the value in range.
pub open spec fn is_i64_text(s: Seq<char>) -> bool {
    is_int_syntax(s) && i64::MIN <= int_value(s) <= i64::MAX
}

pub proof fn lemma_digits_val_nonneg(s: Seq<char>)
    requires
        all_digits(s),
    ensures
        digits_val(s) >= 0,
    decreases s.len(),
{
    if s.len() > 0 {
        assert(all_digits(s.drop_last()));
        lemma_digits_val_nonneg(s.drop_last());
    }
}

/// Every character of a rendered digit string is a digit, and the first is
/// not '0' unless the number is zero in one digit.
pub proof fn lemma_digits_text_digits(n: int)
    requires
        n >= 0,
    ensures
        digits_text(n).len() > 0,
        all_digits(digits_text(n)),
    decreases n,
{
    if n >= 10 {
        lemma_digits_text_digits(n / 10);
    }
}

/// Rendering then reading a non-negative integer gives it back.
pub proof fn lemma_digits_text_val(n: int)
    requires
        n >= 0,
    ensures
        digits_val(digits_text(n)) == n,
    decreases n,
{
    if n < 10 {
        let t = seq![digit_char(n)];
        assert(t.drop_last() =~= Seq::<char>::empty());
        assert(digits_val(t) == digits_val(Seq::<char>::empty()) * 10 + digit_val(t.last()));
        assert(digit_val(digit_char(n)) == n);
    } else {
        lemma_digits_text_val(n / 10);
        let t = digits_text(n / 10) + seq![digit_char(n % 10)];
        assert(t.drop_last() =~= digits_text(n / 10));
        assert(t.last() == digit_char(n % 10));
    }
}

/// A digit string extended by one digit grows in value.
pub proof fn lemma_digits_prefix_le(s: Seq<char>, k: int)
    requires
        all_digits(s),
        0 <= k <= s.len(),
    ensures
        digits_val(s.take(k)) <= digits_val(s),
    decreases s.len() - k,
{
    if k < s.len() {
        let t = s.take(k + 1);
        assert(t.drop_last() =~= s.take(k));
        assert(all_digits(s.take(k)));
        lemma_digits_val_nonneg(s.take(k));
        assert(digits_val(t) == digits_val(s.take(k)) * 10 + digit_val(s[k]));
        assert(digits_val(s.take(k)) * 10 >= digits_val(s.take(k)));
        lemma_digits_prefix_le(s, k + 1);
    } else {
        assert(s.take(k) =~= s);
    }
}

/// Shape of a rendered integer: a sign only when negative, digits after.
pub proof fn lemma_int_text_chars(n: int)
    ensures
        int_text(n).len() > 0,
        n >= 0 ==> all_digits(int_text(n)),
        n < 0 ==> int_text(n)[0] == '-' && all_digits(int_text(n).drop_first()),
{
    if n >= 0 {
        lemma_digits_text_digits(n);
    } else {
        lemma_digits_text_digits(-n);
        assert((seq!['-'] + digits_text(-n)).drop_first() =~= digits_text(-n));
    }
}

/// Reading back a rendered integer gives the same integer.
pub proof fn lemma_int_text_value(n: int)
    requires
        i64::MIN <= n <= i64::MAX,
    ensures
        is_i64_text(int_text(n)),
        int_value(int_text(n)) == n,
{
    let s = int_text(n);
    lemma_int_text_chars(n);
    if n >= 0 {
        lemma_digits_text_val(n);
        assert(is_digit_char(s[0]));
        assert(s[0] != '-' && s[0] != '+');
        assert(int_body(s) == s);
        assert(!int_negative(s));
    } else {
        lemma_digits_text_val(-n);
        assert(s[0] == '-');
        assert(int_body(s) =~= digits_text(-n));
        assert(int_negative(s));
    }
}

fn digit_str(d: u64) -> (r: &'static str)
    requires
        d < 10,
    ensures
        r@ =~= seq![digit_char(d as int)],
{
    proof {
        reveal_strlit("0");
        reveal_strlit("1");
        reveal_strlit("2");
        reveal_strlit("3");
        reveal_strlit("4");
        reveal_strlit("5");
        reveal_strlit("6");
        reveal_strlit("7");
        reveal_strlit("8");
        reveal_strlit("9");
    }
    if d == 0 { "0" }
    else if d == 1 { "1" }
    else if d == 2 { "2" }
    else if d == 3 { "3" }
    else if d == 4 { "4" }
    else if d == 5 { "5" }
    else if d == 6 { "6" }
    else if d == 7 { "7" }
    else if d == 8 { "8" }
    else { "9" }
}

fn push_digits(n: u64, out: &mut String)
    ensures
        final(out)@ == old(out)@ + digits_text(n as int),
    decreases n,
{
    if n < 10 {
        out.append(digit_str(n));
    } else {
        push_digits(n / 10, out);
        out.append(digit_str(n % 10));
        assert(old(out)@ + digits_text((n / 10) as int) + seq![digit_char((n % 10) as int)]
            =~= old(out)@ + (digits_text((n / 10) as int) + seq![digit_char((n % 10) as int)]));
    }
}

/// Renders an `i64` as its decimal text.
pub fn i64_to_string(i: i64) -> (r: String)
    ensures
        r@ == int_text(i as int),
{
    if i >= 0 {
        let mut s = String::new();
        push_digits(i as u64, &mut s);
        assert(Seq::<char>::empty() + digits_text(i as int) =~= digits_text(i as int));
        s
    } else {
        proof {
            reveal_strlit("-");
        }
        let mut s = to_negative_prefix();
        let mag: u64 = ((-(i + 1)) as u64) + 1;
        assert(mag as int == -(i as int));
        push_digits(mag, &mut s);
        assert(seq!['-'] + digits_text(mag as int) == int_text(i as int));
        s
    }
}

fn to_negative_prefix() -> (r: String)
    ensures
        r@ =~= seq!['-'],
{
    proof {
        reveal_strlit("-");
    }
    String::from_str("-")
}

/// Reads an `i64` from its decimal text; `None` exactly when the string is
/// not integer syntax or the value does not fit.
pub fn parse_i64(s: &str) -> (r: Option<i64>)
    ensures
        match r {
            Some(v) => is_i64_text(s@) && v as int == int_value(s@),
            None => !is_i64_text(s@),
        },
{
    let len = s.unicode_len();
    if len == 0 {
        return None;
    }
    let first = s.get_char(0);
    let negative = first == '-';
    let has_sign = first == '-' || first == '+';
    let start: usize = if has_sign { 1 } else { 0 };
    proof {
        if has_sign {
            assert(int_body(s@) =~= s@.drop_first());
        } else {
            assert(int_body(s@) =~= s@);
        }
    }
    let ghost body = int_body(s@);
    if start == len {
        assert(body.len() == 0);
        return None;
    }
    let bound: u64 = 9223372036854775808u64;
    let mut acc: u64 = 0;
    let mut i: usize = start;
    while i < len
        invariant
            start <= i <= len,
            len == s@.len(),
            start == if has_sign { 1int } else { 0int },
            body == int_body(s@),
            body == s@.subrange(start as int, len as int),
            bound == 9223372036854775808u64,
            all_digits(body.take(i - start)),
            acc as int == digits_val(body.take(i - start)),
            acc <= bound,
        decreases len - i,
    {
        let c = s.get_char(i);
        if !('0' <= c && c <= '9') {
            assert(body[i - start] == c);
            assert(!is_digit_char(body[i - start]));
            return None;
        }
        let d: u64 = (c as u32 - '0' as u32) as u64;
        assert(d < 10);
        proof {
            assert(body.take(i - start + 1).drop_last() =~= body.take(i - start));
            assert(body.take(i - start + 1).last() == c);
            assert(digits_val(body.take(i - start + 1)) == acc as int * 10 + d as int);
        }
        if acc > (bound - d) / 10 {
            // The digits already read exceed every value an i64 can hold.
            proof {
                assert(acc as int * 10 + d as int > bound as int) by (nonlinear_arith)
                    requires
                        acc as int > (bound as int - d as int) / 10,
                        0 <= d < 10,
                        bound as int == 9223372036854775808,
                        acc <= bound,
                ;
                if is_int_syntax(s@) {
                    lemma_digits_prefix_le(body, i - start + 1);
                    assert(digits_val(body) >= digits_val(body.take(i - start + 1)));
                    assert(digits_val(body) > 9223372036854775808);
                }
            }
            return None;
        }
        proof {
            assert(acc as int * 10 + d as int <= bound as int) by (nonlinear_arith)
                requires
                    acc as int <= (bound as int - d as int) / 10,
                    0 <= d < 10,
                    bound as int == 9223372036854775808,
            ;
        }
        acc = acc * 10 + d;
        i = i + 1;
    }
    assert(body.take(i - start) =~= body);
    assert(all_digits(body));
    assert(acc as int == digits_val(body));
    assert(is_int_syntax(s@));
    if negative {
        assert(int_negative(s@));
        assert(int_value(s@) == -(acc as int));
        if acc == bound {
            Some(i64::MIN)
        } else {
            Some(-(acc as i64))
        }
    } else {
        assert(!int_negative(s@));
        assert(int_value(s@) == acc as int);
        if acc > 9223372036854775807u64 {
            assert(int_value(s@) > i64::MAX);
            None
        } else {
            Some(acc as i64)
        }
    }
}

} // verus!
