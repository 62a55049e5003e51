//! Textual shapes the environment parser distinguishes: decimal-number
//! texts, path-like texts, and colon-separated lists, with verified
//! recognizers and the split/join pair used for list values.

use vstd::prelude::*;
use crate::inttext::is_digit_char;
use crate::strutil::{contains_char, find_char, to_owned_string};

verus! {

/// First index at or after `i` whose character is not a decimal digit.
pub open spec fn skip_digits(s: Seq<char>, i: int) -> int
    decreases s.len() - i when 0 <= i <= s.len()
{
    if i < s.len() && is_digit_char(s[i]) {
        skip_digits(s, i + 1)
    } else {
        i
    }
}

pub proof fn lemma_skip_digits(s: Seq<char>, i: int)
    requires
        0 <= i <= s.len(),
    ensures
        i <= skip_digits(s, i) <= s.len(),
        forall|k: int| i <= k < skip_digits(s, i) ==> is_digit_char(#[trigger] s[k]),
        skip_digits(s, i) < s.len() ==> !is_digit_char(s[skip_digits(s, i)]),
    decreases s.len() - i,
{
    if i < s.len() && is_digit_char(s[i]) {
        lemma_skip_digits(s, i + 1);
    }
}

/// 1 when the text opens with a sign, else 0.
pub open spec fn sign_off(s: Seq<char>) -> int {
    if s.len() > 0 && (s[0] == '-' || s[0] == '+') {
        1
    } else {
        0
    }
}

/// An exponent suffix starting at `j`: `e` or `E`, an optional sign, then
/// one or more digits reaching the end of the text.
pub open spec fn exp_ok(s: Seq<char>, j: int) -> bool
    recommends
        0 <= j <= s.len(),
{
    j < s.len() && (s[j] == 'e' || s[j] == 'E') && {
        let k = if j + 1 < s.len() && (s[j + 1] == '+' || s[j + 1] == '-') {
            j + 2
        } else {
            j + 1
        };
        k < s.len() && skip_digits(s, k) == s.len()
    }
}

/// A decimal-number text: an optional sign, digits around a mandatory
/// decimal point (with at least one digit on one side), and an optional
/// exponent. This is the dotted half of the host float grammar; texts
/// without a dot are never read as decimals.
pub open spec fn is_dec_text(s: Seq<char>) -> bool {
    let off = sign_off(s);
    let i = skip_digits(s, off);
    i < s.len() && s[i] == '.' && {
        let j = skip_digits(s, i + 1);
        (i > off || j > i + 1) && (j == s.len() || exp_ok(s, j))
    }
}

pub proof fn lemma_dec_text_has_dot(s: Seq<char>)
    requires
        is_dec_text(s),
    ensures
        s.contains('.'),
        s.len() > 0,
{
    let off = sign_off(s);
    lemma_skip_digits(s, off);
    let i = skip_digits(s, off);
    assert(s[i] == '.');
}

/// Every character of a decimal text is a sign, digit, dot, or exponent
/// marker; in particular no colon occurs.
pub proof fn lemma_dec_text_chars(s: Seq<char>)
    requires
        is_dec_text(s),
    ensures
        forall|k: int| 0 <= k < s.len() ==> (is_digit_char(#[trigger] s[k]) || s[k] == '-'
            || s[k] == '+' || s[k] == '.' || s[k] == 'e' || s[k] == 'E'),
{
    let off = sign_off(s);
    lemma_skip_digits(s, off);
    let i = skip_digits(s, off);
    lemma_skip_digits(s, i + 1);
    let j = skip_digits(s, i + 1);
    if j < s.len() {
        let k0 = if j + 1 < s.len() && (s[j + 1] == '+' || s[j + 1] == '-') {
            j + 2
        } else {
            j + 1
        };
        lemma_skip_digits(s, k0);
    }
}

pub proof fn lemma_dec_text_no_colon(s: Seq<char>)
    requires
        is_dec_text(s),
    ensures
        !s.contains(':'),
{
    lemma_dec_text_chars(s);
    if s.contains(':') {
        let k = choose|k: int| 0 <= k < s.len() && s[k] == ':';
        assert(is_digit_char(s[k]) || s[k] == '-' || s[k] == '+' || s[k] == '.' || s[k] == 'e'
            || s[k] == 'E');
    }
}

/// Exec form of `skip_digits`.
pub fn scan_digits(s: &str, from: usize) -> (r: usize)
    requires
        from <= s@.len(),
    ensures
        r as int == skip_digits(s@, from as int),
        from <= r <= s@.len(),
{
    let len = s.unicode_len();
    let mut j: usize = from;
    loop
        invariant
            from <= j <= len,
            len == s@.len(),
            skip_digits(s@, from as int) == skip_digits(s@, j as int),
        decreases len - j,
    {
        if j >= len {
            return j;
        }
        let c = s.get_char(j);
        if !('0' <= c && c <= '9') {
            return j;
        }
        j = j + 1;
    }
}

/// Exec recognizer for decimal-number texts.
pub fn is_decimal_str(s: &str) -> (r: bool)
    ensures
        r == is_dec_text(s@),
{
    let len = s.unicode_len();
    if len == 0 {
        return false;
    }
    let first = s.get_char(0);
    let off: usize = if first == '-' || first == '+' {
        1
    } else {
        0
    };
    let i = scan_digits(s, off);
    if i >= len {
        return false;
    }
    if s.get_char(i) != '.' {
        return false;
    }
    let j = scan_digits(s, i + 1);
    if !(i > off || j > i + 1) {
        return false;
    }
    if j == len {
        return true;
    }
    let e = s.get_char(j);
    if !(e == 'e' || e == 'E') {
        return false;
    }
    let k: usize = if j + 1 < len {
        let c = s.get_char(j + 1);
        if c == '+' || c == '-' {
            j + 2
        } else {
            j + 1
        }
    } else {
        j + 1
    };
    if k >= len {
        return false;
    }
    let m = scan_digits(s, k);
    m == len
}

/// A path-like text: absolute, home-relative with a slash, or explicitly
/// relative to the current or parent directory.
pub open spec fn is_path_text(s: Seq<char>) -> bool {
    (s.len() >= 1 && s[0] == '/') || (s.len() >= 1 && s[0] == '~' && s.contains('/')) || (s.len()
        >= 2 && s[0] == '.' && s[1] == '/') || (s.len() >= 3 && s[0] == '.' && s[1] == '.' && s[2]
        == '/')
}

/// Exec recognizer for path-like texts.
pub fn is_path_str(s: &str) -> (r: bool)
    ensures
        r == is_path_text(s@),
{
    let len = s.unicode_len();
    if len == 0 {
        return false;
    }
    let c0 = s.get_char(0);
    if c0 == '/' {
        return true;
    }
    if c0 == '~' {
        return contains_char(s, '/');
    }
    if c0 == '.' && len >= 2 {
        let c1 = s.get_char(1);
        if c1 == '/' {
            return true;
        }
        if c1 == '.' && len >= 3 && s.get_char(2) == '/' {
            return true;
        }
    }
    false
}

/// Pieces of a text split on ':'; always at least one piece, and no piece
/// contains the separator.
pub open spec fn split_colon(s: Seq<char>) -> Seq<Seq<char>>
    decreases s.len() via split_colon_decreases
{
    match s.index_of_first(':') {
        Some(i) => seq![s.subrange(0, i)] + split_colon(s.subrange(i + 1, s.len() as int)),
        None => seq![s],
    }
}

#[via_fn]
proof fn split_colon_decreases(s: Seq<char>) {
    match s.index_of_first(':') {
        Some(i) => {
            s.index_of_first_ensures(':');
        },
        None => {},
    }
}

/// Texts of a piece sequence joined with ':'.
pub open spec fn join_colon(pieces: Seq<Seq<char>>) -> Seq<char>
    decreases pieces.len(),
{
    if pieces.len() == 0 {
        Seq::empty()
    } else if pieces.len() == 1 {
        pieces[0]
    } else {
        pieces[0] + seq![':'] + join_colon(pieces.drop_first())
    }
}

/// A join of two or more colon-free pieces contains the separator.
pub proof fn lemma_join_contains_colon(pieces: Seq<Seq<char>>)
    requires
        pieces.len() >= 2,
    ensures
        join_colon(pieces).contains(':'),
{
    let s = join_colon(pieces);
    assert(s == pieces[0] + seq![':'] + join_colon(pieces.drop_first()));
    assert(s[pieces[0].len() as int] == ':');
}

/// Splitting the join of colon-free pieces restores exactly the pieces.
pub proof fn lemma_split_of_join(pieces: Seq<Seq<char>>)
    requires
        pieces.len() >= 1,
        forall|i: int| 0 <= i < pieces.len() ==> !(#[trigger] pieces[i]).contains(':'),
    ensures
        split_colon(join_colon(pieces)) == pieces,
    decreases pieces.len(),
{
    let s = join_colon(pieces);
    s.index_of_first_ensures(':');
    if pieces.len() == 1 {
        assert(s == pieces[0]);
        match s.index_of_first(':') {
            Some(i) => {
                assert(s.contains(':'));
                assert(pieces[0].contains(':'));
            },
            None => {
                assert(split_colon(s) =~= pieces);
            },
        }
    } else {
        let head = pieces[0];
        let rest = pieces.drop_first();
        let tail = join_colon(rest);
        assert(s == head + seq![':'] + tail);
        assert(s[head.len() as int] == ':');
        assert(s.contains(':'));
        match s.index_of_first(':') {
            Some(i) => {
                // The first colon of the join is the one written between the
                // first two pieces: the head itself is colon-free.
                assert(head.contains(':') == false);
                if i < head.len() {
                    assert(s[i] == head[i]);
                    assert(head[i] == ':');
                    assert(false);
                }
                assert(i >= head.len());
                assert(i <= head.len());
                let i0 = head.len() as int;
                assert(i == i0);
                assert(s.subrange(0, i0) =~= head);
                assert(s.subrange(i0 + 1, s.len() as int) =~= tail);
                lemma_split_of_join(rest);
                assert(split_colon(s) =~= seq![head] + split_colon(tail));
                assert(seq![head] + rest =~= pieces);
            },
            None => {
                assert(false);
            },
        }
    }
}

/// Exec split on ':'; mirrors `split_colon` piece for piece.
pub fn split_colon_str(s: &str) -> (r: Vec<String>)
    ensures
        r@.len() == split_colon(s@).len(),
        forall|i: int| 0 <= i < r@.len() ==> (#[trigger] r@[i])@ == split_colon(s@)[i],
    decreases s@.len(),
{
    proof {
        s@.index_of_first_ensures(':');
    }
    match find_char(s, ':') {
        Some(i) => {
            proof {
                let ghost fi = s@.index_of_first(':');
                assert(s@.contains(':'));
                assert(fi is Some);
                let fiv = fi->0;
                assert(s@[fiv] == ':');
                if fiv < i as int {
                    assert(false);
                }
                if fiv > i as int {
                    assert(s@[i as int] != ':');
                    assert(false);
                }
            }
            let len = s.unicode_len();
            let head = s.substring_char(0, i);
            let rest = s.substring_char(i + 1, len);
            let tail_pieces = split_colon_str(rest);
            let mut out: Vec<String> = Vec::new();
            out.push(to_owned_string(head));
            let mut k: usize = 0;
            let ghost target = split_colon(s@);
            proof {
                assert(target =~= seq![s@.subrange(0, i as int)] + split_colon(
                    s@.subrange(i as int + 1, s@.len() as int),
                ));
            }
            while k < tail_pieces.len()
                invariant
                    k <= tail_pieces.len(),
                    out@.len() == 1 + k,
                    target == split_colon(s@),
                    target.len() == 1 + tail_pieces@.len(),
                    out@[0]@ == target[0],
                    forall|j: int| 0 <= j < tail_pieces@.len() ==> (#[trigger] tail_pieces@[j])@
                        == target[j + 1],
                    forall|j: int| 1 <= j < out@.len() ==> (#[trigger] out@[j])@ == target[j],
                decreases tail_pieces.len() - k,
            {
                out.push(to_owned_string(tail_pieces[k].as_str()));
                k = k + 1;
            }
            out
        },
        None => {
            let mut out: Vec<String> = Vec::new();
            out.push(to_owned_string(s));
            proof {
                assert(split_colon(s@) =~= seq![s@]);
            }
            out
        },
    }
}

} // verus!
