//! Typed environment values: the tagged value domain of the shell store,
//! its canonical string projection for child processes, and the inverse
//! parse applied to inherited OS strings. The projection and parse are
//! specified over a mathematical model and proved to round-trip on
//! canonical values.

use vstd::prelude::*;
use crate::inttext::{int_text, int_value, is_i64_text, parse_i64, i64_to_string};
use crate::strutil::{str_eq, contains_char, to_owned_string};
use crate::textform::{
    is_dec_text, is_decimal_str, is_path_text, is_path_str, split_colon, join_colon,
    split_colon_str,
};

verus! {

/// Mathematical model of an environment value.
#[verifier::ext_equal]
pub enum Val {
    Text(Seq<char>),
    Integer(int),
    Decimal(Seq<char>),
    Bool(bool),
    Nil,
    List(Seq<Val>),
    FilePath(Seq<char>),
}

/// A value stored in the shell environment. Decimal values carry their
/// textual form; paths are carried as their text, unresolved.
#[derive(Debug)]
pub enum EnvValue {
    Text(String),
    Integer(i64),
    Decimal(String),
    Bool(bool),
    Nil,
    List(Vec<EnvValue>),
    FilePath(String),
}

/// Model of a value.
pub open spec fn val_of(v: EnvValue) -> Val
    decreases v,
{
    match v {
        EnvValue::Text(t) => Val::Text(t@),
        EnvValue::Integer(n) => Val::Integer(n as int),
        EnvValue::Decimal(t) => Val::Decimal(t@),
        EnvValue::Bool(b) => Val::Bool(b),
        EnvValue::Nil => Val::Nil,
        EnvValue::List(items) => Val::List(vals_of(items@)),
        EnvValue::FilePath(t) => Val::FilePath(t@),
    }
}

/// Models of each element of a value sequence.
pub open spec fn vals_of(items: Seq<EnvValue>) -> Seq<Val>
    decreases items,
{
    if items.len() == 0 {
        Seq::empty()
    } else {
        seq![val_of(items[0])] + vals_of(items.drop_first())
    }
}

pub proof fn lemma_vals_of(items: Seq<EnvValue>)
    ensures
        vals_of(items).len() == items.len(),
        forall|i: int| 0 <= i < items.len() ==> #[trigger] vals_of(items)[i] == val_of(items[i]),
    decreases items,
{
    if items.len() > 0 {
        lemma_vals_of(items.drop_first());
        assert forall|i: int| 0 <= i < items.len() implies #[trigger] vals_of(items)[i] == val_of(
            items[i],
        ) by {
            if i > 0 {
                assert(items.drop_first()[i - 1] == items[i]);
                assert(vals_of(items)[i] == vals_of(items.drop_first())[i - 1]);
            }
        }
    }
}

impl View for EnvValue {
    type V = Val;

    open spec fn view(&self) -> Val {
        val_of(*self)
    }
}

/// Canonical string projection of a value: text as-is, integers in decimal,
/// booleans as `True`/`False`, nil empty, lists joined with ':', paths as
/// their text.
pub open spec fn project(v: Val) -> Seq<char>
    decreases v,
{
    match v {
        Val::Text(t) => t,
        Val::Integer(n) => int_text(n),
        Val::Decimal(t) => t,
        Val::Bool(b) => if b {
            "True"@
        } else {
            "False"@
        },
        Val::Nil => Seq::empty(),
        Val::List(els) => join_colon(project_list(els)),
        Val::FilePath(t) => t,
    }
}

/// Projections of each element of a list value.
pub open spec fn project_list(els: Seq<Val>) -> Seq<Seq<char>>
    decreases els,
{
    if els.len() == 0 {
        Seq::empty()
    } else {
        seq![project(els[0])] + project_list(els.drop_first())
    }
}

pub proof fn lemma_project_list(els: Seq<Val>)
    ensures
        project_list(els).len() == els.len(),
        forall|i: int| 0 <= i < els.len() ==> #[trigger] project_list(els)[i] == project(els[i]),
    decreases els,
{
    if els.len() > 0 {
        lemma_project_list(els.drop_first());
        assert forall|i: int| 0 <= i < els.len() implies #[trigger] project_list(els)[i]
            == project(els[i]) by {
            if i > 0 {
                assert(els.drop_first()[i - 1] == els[i]);
                assert(project_list(els)[i] == project_list(els.drop_first())[i - 1]);
            }
        }
    }
}

/// Parse of a colon-free text, in priority order: empty, booleans,
/// integers (no dot), decimals (with dot), paths, plain text.
pub open spec fn parse_piece(s: Seq<char>) -> Val {
    if s.len() == 0 {
        Val::Nil
    } else if s == "True"@ {
        Val::Bool(true)
    } else if s == "False"@ {
        Val::Bool(false)
    } else if !s.contains('.') && is_i64_text(s) {
        Val::Integer(int_value(s))
    } else if s.contains('.') && is_dec_text(s) {
        Val::Decimal(s)
    } else if is_path_text(s) {
        Val::FilePath(s)
    } else {
        Val::Text(s)
    }
}

/// Parse of an inherited OS string. A text containing ':' that is not a
/// boolean, integer or decimal becomes a list of its parsed pieces; this
/// precedes path detection, so `PATH`-style values become lists.
pub open spec fn parse_text(s: Seq<char>) -> Val {
    if s.len() == 0 {
        Val::Nil
    } else if s == "True"@ {
        Val::Bool(true)
    } else if s == "False"@ {
        Val::Bool(false)
    } else if !s.contains('.') && is_i64_text(s) {
        Val::Integer(int_value(s))
    } else if s.contains('.') && is_dec_text(s) {
        Val::Decimal(s)
    } else if s.contains(':') {
        Val::List(Seq::new(split_colon(s).len(), |i: int| parse_piece(split_colon(s)[i])))
    } else if is_path_text(s) {
        Val::FilePath(s)
    } else {
        Val::Text(s)
    }
}

impl EnvValue {
    /// Renders the canonical string projection of this value.
    #[verifier::loop_isolation(false)]
    pub fn to_string_repr(&self) -> (r: String)
        ensures
            r@ == project(self@),
        decreases self,
    {
        match self {
            EnvValue::Text(t) => to_owned_string(t.as_str()),
            EnvValue::Integer(n) => i64_to_string(*n),
            EnvValue::Decimal(t) => to_owned_string(t.as_str()),
            EnvValue::Bool(b) => {
                if *b {
                    to_owned_string("True")
                } else {
                    to_owned_string("False")
                }
            },
            EnvValue::Nil => String::new(),
            EnvValue::List(items) => {
                let ghost els = vals_of(items@);
                let ghost pl = project_list(els);
                proof {
                    lemma_vals_of(items@);
                    lemma_project_list(els);
                }
                let mut out = String::new();
                let mut i: usize = 0;
                while i < items.len()
                    invariant
                        i <= items@.len(),
                        i == 0 ==> out@ == Seq::<char>::empty(),
                        i > 0 ==> out@ == join_colon(pl.take(i as int)),
                    decreases items@.len() - i,
                {
                    if i > 0 {
                        proof {
                            reveal_strlit(":");
                        }
                        out.append(":");
                    }
                    let piece = items[i].to_string_repr();
                    out.append(piece.as_str());
                    proof {
                        lemma_join_take_step(pl, i as int);
                        assert(pl[i as int] == project(els[i as int]));
                        assert(els[i as int] == items@[i as int]@);
                    }
                    i = i + 1;
                }
                proof {
                    if items@.len() == 0 {
                        assert(els.len() == 0);
                        assert(project(self@) == join_colon(project_list(els)));
                        assert(project_list(els) == Seq::<Seq<char>>::empty());
                    } else {
                        assert(pl.take(pl.len() as int) =~= pl);
                    }
                }
                out
            },
            EnvValue::FilePath(t) => to_owned_string(t.as_str()),
        }
    }

    /// Deep structural equality of two values.
    #[verifier::loop_isolation(false)]
    pub fn equals(&self, other: &EnvValue) -> (r: bool)
        ensures
            r == (self@ == other@),
        decreases self,
    {
        match (self, other) {
            (EnvValue::Text(a), EnvValue::Text(b)) => str_eq(a.as_str(), b.as_str()),
            (EnvValue::Integer(a), EnvValue::Integer(b)) => a == b,
            (EnvValue::Decimal(a), EnvValue::Decimal(b)) => str_eq(a.as_str(), b.as_str()),
            (EnvValue::Bool(a), EnvValue::Bool(b)) => a == b,
            (EnvValue::Nil, EnvValue::Nil) => true,
            (EnvValue::List(xs), EnvValue::List(ys)) => {
                let ghost xv = vals_of(xs@);
                let ghost yv = vals_of(ys@);
                proof {
                    lemma_vals_of(xs@);
                    lemma_vals_of(ys@);
                }
                if xs.len() != ys.len() {
                    assert(xv.len() != yv.len());
                    return false;
                }
                let mut i: usize = 0;
                while i < xs.len()
                    invariant
                        i <= xs@.len(),
                        forall|j: int| 0 <= j < i ==> xv[j] == yv[j],
                    decreases xs@.len() - i,
                {
                    if !xs[i].equals(&ys[i]) {
                        assert(xv[i as int] != yv[i as int]);
                        return false;
                    }
                    i = i + 1;
                }
                assert(xv =~= yv);
                true
            },
            (EnvValue::FilePath(a), EnvValue::FilePath(b)) => str_eq(a.as_str(), b.as_str()),
            _ => {
                assert(self@ != other@);
                false
            },
        }
    }

    /// Deep copy of a value.
    #[verifier::loop_isolation(false)]
    pub fn duplicate(&self) -> (r: EnvValue)
        ensures
            r@ == self@,
        decreases self,
    {
        match self {
            EnvValue::Text(t) => EnvValue::Text(to_owned_string(t.as_str())),
            EnvValue::Integer(n) => EnvValue::Integer(*n),
            EnvValue::Decimal(t) => EnvValue::Decimal(to_owned_string(t.as_str())),
            EnvValue::Bool(b) => EnvValue::Bool(*b),
            EnvValue::Nil => EnvValue::Nil,
            EnvValue::List(items) => {
                proof {
                    lemma_vals_of(items@);
                }
                let mut out: Vec<EnvValue> = Vec::new();
                let mut i: usize = 0;
                while i < items.len()
                    invariant
                        i <= items@.len(),
                        out@.len() == i,
                        forall|j: int| 0 <= j < i ==> (#[trigger] out@[j])@ == items@[j]@,
                    decreases items@.len() - i,
                {
                    out.push(items[i].duplicate());
                    i = i + 1;
                }
                let r = EnvValue::List(out);
                proof {
                    lemma_vals_of(out@);
                    assert(vals_of(out@) =~= vals_of(items@));
                }
                r
            },
            EnvValue::FilePath(t) => EnvValue::FilePath(to_owned_string(t.as_str())),
        }
    }
}

/// One step of a left-to-right join: appending the next piece after a ':'.
pub proof fn lemma_join_take_step(pieces: Seq<Seq<char>>, i: int)
    requires
        0 <= i < pieces.len(),
    ensures
        i == 0 ==> join_colon(pieces.take(1)) == pieces[0],
        i > 0 ==> join_colon(pieces.take(i + 1)) == join_colon(pieces.take(i)) + seq![':']
            + pieces[i],
    decreases i,
{
    if i == 0 {
        assert(pieces.take(1).len() == 1);
        assert(pieces.take(1)[0] == pieces[0]);
    } else {
        lemma_join_take_step(pieces.drop_first(), i - 1);
        let t1 = pieces.take(i + 1);
        let t0 = pieces.take(i);
        assert(t1.len() >= 2);
        assert(t1[0] == pieces[0]);
        assert(t1.drop_first() =~= pieces.drop_first().take(i));
        assert(t0[0] == pieces[0]);
        if i == 1 {
            assert(t0.len() == 1);
            assert(join_colon(t0) == pieces[0]);
            assert(join_colon(t1) == pieces[0] + seq![':'] + join_colon(t1.drop_first()));
            assert(pieces.drop_first().take(1) =~= seq![pieces[1]]);
            assert(join_colon(seq![pieces[1]]) == pieces[1]);
        } else {
            assert(t0.len() >= 2);
            assert(t0.drop_first() =~= pieces.drop_first().take(i - 1));
            assert(pieces.drop_first()[i - 1] == pieces[i]);
            assert(join_colon(t1) == pieces[0] + seq![':'] + join_colon(
                pieces.drop_first().take(i),
            ));
            assert(join_colon(t0) == pieces[0] + seq![':'] + join_colon(
                pieces.drop_first().take(i - 1),
            ));
            assert(join_colon(pieces.drop_first().take(i)) == join_colon(
                pieces.drop_first().take(i - 1),
            ) + seq![':'] + pieces[i]);
            assert(pieces[0] + seq![':'] + (join_colon(pieces.drop_first().take(i - 1))
                + seq![':'] + pieces[i]) =~= (pieces[0] + seq![':'] + join_colon(
                pieces.drop_first().take(i - 1),
            )) + seq![':'] + pieces[i]);
        }
    }
}

/// Parses a colon-free text (one piece of a list, or a whole value when no
/// separator occurs).
pub fn parse_scalar(s: &str) -> (r: EnvValue)
    ensures
        r@ == parse_piece(s@),
{
    let len = s.unicode_len();
    if len == 0 {
        return EnvValue::Nil;
    }
    if str_eq(s, "True") {
        return EnvValue::Bool(true);
    }
    if str_eq(s, "False") {
        return EnvValue::Bool(false);
    }
    let has_dot = contains_char(s, '.');
    if !has_dot {
        match parse_i64(s) {
            Some(v) => {
                return EnvValue::Integer(v);
            },
            None => {},
        }
    }
    if has_dot && is_decimal_str(s) {
        return EnvValue::Decimal(to_owned_string(s));
    }
    if is_path_str(s) {
        return EnvValue::FilePath(to_owned_string(s));
    }
    EnvValue::Text(to_owned_string(s))
}

/// Parses an inherited OS string into a typed value, per the priority
/// order of `parse_text`.
#[verifier::loop_isolation(false)]
pub fn parse_from_string(s: &str) -> (r: EnvValue)
    ensures
        r@ == parse_text(s@),
{
    let len = s.unicode_len();
    if len == 0 {
        return EnvValue::Nil;
    }
    if str_eq(s, "True") {
        return EnvValue::Bool(true);
    }
    if str_eq(s, "False") {
        return EnvValue::Bool(false);
    }
    let has_dot = contains_char(s, '.');
    if !has_dot {
        match parse_i64(s) {
            Some(v) => {
                return EnvValue::Integer(v);
            },
            None => {},
        }
    }
    if has_dot && is_decimal_str(s) {
        return EnvValue::Decimal(to_owned_string(s));
    }
    if contains_char(s, ':') {
        let pieces = split_colon_str(s);
        let ghost sp = split_colon(s@);
        let mut items: Vec<EnvValue> = Vec::new();
        let mut i: usize = 0;
        while i < pieces.len()
            invariant
                i <= pieces@.len(),
                items@.len() == i,
                forall|j: int| 0 <= j < i ==> (#[trigger] items@[j])@ == parse_piece(sp[j]),
            decreases pieces@.len() - i,
        {
            items.push(parse_scalar(pieces[i].as_str()));
            i = i + 1;
        }
        let r = EnvValue::List(items);
        proof {
            lemma_vals_of(items@);
            assert(vals_of(items@) =~= Seq::new(sp.len(), |k: int| parse_piece(sp[k])));
        }
        return r;
    }
    if is_path_str(s) {
        return EnvValue::FilePath(to_owned_string(s));
    }
    EnvValue::Text(to_owned_string(s))
}

} // verus!
