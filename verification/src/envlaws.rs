//! The round-trip law of the environment value codec: parsing the
//! canonical projection of a canonical value gives the value back.

use vstd::prelude::*;
use crate::inttext::{
    int_text, is_i64_text, is_int_syntax, int_body, is_digit_char, lemma_int_text_chars,
    lemma_int_text_value,
};
use crate::textform::{
    is_dec_text, is_path_text, join_colon, lemma_dec_text_has_dot, lemma_dec_text_no_colon,
    lemma_join_contains_colon, lemma_split_of_join,
};
use crate::envvalue::{
    Val, project, project_list, parse_piece, parse_text, lemma_project_list,
};

verus! {

/// Canonical non-list values: those whose projection parses back to the
/// value itself. Texts must not look like any earlier parse category;
/// decimals carry a well-formed dotted number text; paths carry a path-like
/// text free of separators and not mistakable for a decimal.
pub open spec fn scalar_canonical(v: Val) -> bool {
    match v {
        Val::Text(t) => t.len() > 0 && t != "True"@ && t != "False"@ && !(!t.contains('.')
            && is_i64_text(t)) && !(t.contains('.') && is_dec_text(t)) && !t.contains(':')
            && !is_path_text(t),
        Val::Integer(n) => i64::MIN <= n <= i64::MAX,
        Val::Decimal(t) => is_dec_text(t),
        Val::Bool(_) => true,
        Val::Nil => true,
        Val::List(_) => false,
        Val::FilePath(t) => is_path_text(t) && !t.contains(':') && !(t.contains('.')
            && is_dec_text(t)),
    }
}

/// Canonical values: canonical scalars, or lists of at least two canonical
/// scalars. A one-element or nested list projects to a text whose parse
/// takes another shape, so only such lists round-trip.
pub open spec fn canonical(v: Val) -> bool {
    match v {
        Val::List(els) => els.len() >= 2 && forall|i: int|
            0 <= i < els.len() ==> scalar_canonical(#[trigger] els[i]),
        _ => scalar_canonical(v),
    }
}

/// A text containing a colon is not integer syntax.
proof fn lemma_colon_not_int(s: Seq<char>)
    requires
        s.contains(':'),
    ensures
        !is_int_syntax(s),
{
    let k = choose|k: int| 0 <= k < s.len() && s[k] == ':';
    if is_int_syntax(s) {
        let body = int_body(s);
        if s.len() > 0 && (s[0] == '-' || s[0] == '+') {
            assert(k >= 1);
            assert(body[k - 1] == ':');
            assert(is_digit_char(body[k - 1]));
        } else {
            assert(body[k] == ':');
            assert(is_digit_char(body[k]));
        }
    }
}

/// The projection of a canonical scalar parses back to the scalar, and
/// never contains the list separator.
pub proof fn lemma_scalar_roundtrip(v: Val)
    requires
        scalar_canonical(v),
    ensures
        parse_piece(project(v)) == v,
        !project(v).contains(':'),
{
    reveal_strlit("True");
    reveal_strlit("False");
    match v {
        Val::Text(t) => {},
        Val::Integer(n) => {
            let s = int_text(n);
            lemma_int_text_chars(n);
            lemma_int_text_value(n);
            assert forall|i: int| 0 <= i < s.len() implies #[trigger] s[i] == '-' || is_digit_char(
                s[i],
            ) by {
                if n < 0 && i > 0 {
                    assert(s.drop_first()[i - 1] == s[i]);
                }
            }
            assert(s != "True"@) by {
                if s == "True"@ {
                    assert(s[0] == 'T');
                }
            }
            assert(s != "False"@) by {
                if s == "False"@ {
                    assert(s[0] == 'F');
                }
            }
            assert(!s.contains('.')) by {
                if s.contains('.') {
                    let k = choose|k: int| 0 <= k < s.len() && s[k] == '.';
                    assert(s[k] == '-' || is_digit_char(s[k]));
                }
            }
            assert(!s.contains(':')) by {
                if s.contains(':') {
                    let k = choose|k: int| 0 <= k < s.len() && s[k] == ':';
                    assert(s[k] == '-' || is_digit_char(s[k]));
                }
            }
        },
        Val::Decimal(t) => {
            lemma_dec_text_has_dot(t);
            lemma_dec_text_no_colon(t);
            assert(t != "True"@) by {
                if t == "True"@ {
                    let k = choose|k: int| 0 <= k < t.len() && t[k] == '.';
                    assert(("True"@)[k] == '.');
                }
            }
            assert(t != "False"@) by {
                if t == "False"@ {
                    let k = choose|k: int| 0 <= k < t.len() && t[k] == '.';
                    assert(("False"@)[k] == '.');
                }
            }
        },
        Val::Bool(b) => {
            if b {
                let s = "True"@;
                assert(s.len() == 4);
                assert(!s.contains(':')) by {
                    if s.contains(':') {
                        let k = choose|k: int| 0 <= k < s.len() && s[k] == ':';
                    }
                }
            } else {
                let s = "False"@;
                assert(s.len() == 5);
                assert(s != "True"@);
                assert(!s.contains(':')) by {
                    if s.contains(':') {
                        let k = choose|k: int| 0 <= k < s.len() && s[k] == ':';
                    }
                }
            }
        },
        Val::Nil => {
            assert(!project(v).contains(':')) by {
                if project(v).contains(':') {
                    let k = choose|k: int| 0 <= k < project(v).len() && project(v)[k] == ':';
                }
            }
        },
        Val::List(_) => {},
        Val::FilePath(t) => {
            assert(t.len() >= 1);
            assert(t[0] == '/' || t[0] == '~' || t[0] == '.');
            assert(t != "True"@) by {
                if t == "True"@ {
                    assert(t[0] == 'T');
                }
            }
            assert(t != "False"@) by {
                if t == "False"@ {
                    assert(t[0] == 'F');
                }
            }
            assert(!is_int_syntax(t)) by {
                if is_int_syntax(t) {
                    assert(int_body(t) == t);
                    assert(is_digit_char(t[0]));
                }
            }
        },
    }
}

/// The round-trip law: for every canonical value, parsing the canonical
/// projection restores the value exactly.
pub proof fn lemma_env_roundtrip(v: Val)
    requires
        canonical(v),
    ensures
        parse_text(project(v)) == v,
{
    reveal_strlit("True");
    reveal_strlit("False");
    match v {
        Val::List(els) => {
            lemma_project_list(els);
            let pieces = project_list(els);
            assert forall|i: int| 0 <= i < els.len() implies !(#[trigger] pieces[i]).contains(':')
                && parse_piece(pieces[i]) == els[i] by {
                lemma_scalar_roundtrip(els[i]);
            }
            lemma_join_contains_colon(pieces);
            let s = join_colon(pieces);
            assert(s.len() > 0) by {
                let k = choose|k: int| 0 <= k < s.len() && s[k] == ':';
            }
            assert(s != "True"@) by {
                if s == "True"@ {
                    let k = choose|k: int| 0 <= k < s.len() && s[k] == ':';
                    assert(("True"@)[k] == ':');
                }
            }
            assert(s != "False"@) by {
                if s == "False"@ {
                    let k = choose|k: int| 0 <= k < s.len() && s[k] == ':';
                    assert(("False"@)[k] == ':');
                }
            }
            lemma_colon_not_int(s);
            if s.contains('.') {
                assert(!is_dec_text(s)) by {
                    if is_dec_text(s) {
                        lemma_dec_text_no_colon(s);
                    }
                }
            }
            lemma_split_of_join(pieces);
            let parsed = Seq::new(pieces.len(), |i: int| parse_piece(pieces[i]));
            assert(parse_text(s) == Val::List(parsed));
            assert(parsed =~= els);
        },
        _ => {
            lemma_scalar_roundtrip(v);
        },
    }
}

} // verus!
