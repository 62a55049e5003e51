//! The command algebra: an immutable recursive sum of commands,
//! pipelines, subshells, redirections and environment overlays, with the
//! operators that compose them. Pipe composition keeps pipelines flat,
//! is associative on non-redirect operands, and rejects any redirected
//! operand; all three laws are stated and proved here.

use vstd::prelude::*;
use crate::overlay::EnvOverlay;
use crate::envvalue::Val;
use crate::strutil::{str_eq, to_owned_string};

verus! {

/// Where a redirection sends standard output.
#[derive(Debug)]
pub enum RedirectTarget {
    FilePath { path: String, append: bool },
    FileDescriptor { fd: i32 },
}

/// Model of a redirect target.
#[verifier::ext_equal]
pub enum TargetModel {
    FilePath { path: Seq<char>, append: bool },
    FileDescriptor { fd: int },
}

impl View for RedirectTarget {
    type V = TargetModel;

    open spec fn view(&self) -> TargetModel {
        match self {
            RedirectTarget::FilePath { path, append } => TargetModel::FilePath {
                path: path@,
                append: *append,
            },
            RedirectTarget::FileDescriptor { fd } => TargetModel::FileDescriptor {
                fd: *fd as int,
            },
        }
    }
}

impl RedirectTarget {
    pub fn duplicate(&self) -> (r: RedirectTarget)
        ensures
            r@ == self@,
    {
        match self {
            RedirectTarget::FilePath { path, append } => RedirectTarget::FilePath {
                path: to_owned_string(path.as_str()),
                append: *append,
            },
            RedirectTarget::FileDescriptor { fd } => RedirectTarget::FileDescriptor { fd: *fd },
        }
    }

    pub fn equals(&self, other: &RedirectTarget) -> (r: bool)
        ensures
            r == (self@ == other@),
    {
        match (self, other) {
            (
                RedirectTarget::FilePath { path: p1, append: a1 },
                RedirectTarget::FilePath { path: p2, append: a2 },
            ) => str_eq(p1.as_str(), p2.as_str()) && a1 == a2,
            (
                RedirectTarget::FileDescriptor { fd: f1 },
                RedirectTarget::FileDescriptor { fd: f2 },
            ) => f1 == f2,
            _ => {
                assert(self@ != other@);
                false
            },
        }
    }
}

/// An immutable command expression, suitable for repeated execution.
#[derive(Debug)]
pub enum Runnable {
    Command { prog: String, args: Vec<String> },
    Pipeline { predecessors: Vec<Runnable>, final_cmd: Box<Runnable> },
    Subshell { runnable: Box<Runnable> },
    Redirect { runnable: Box<Runnable>, target: RedirectTarget },
    WithEnv { runnable: Box<Runnable>, overlay: EnvOverlay },
}

/// Model of a command expression.
#[verifier::ext_equal]
pub enum RunModel {
    Command { prog: Seq<char>, args: Seq<Seq<char>> },
    Pipeline { predecessors: Seq<RunModel>, final_cmd: Box<RunModel> },
    Subshell { runnable: Box<RunModel> },
    Redirect { runnable: Box<RunModel>, target: TargetModel },
    WithEnv { runnable: Box<RunModel>, overlay: Seq<(Seq<char>, Val)> },
}

pub open spec fn model_of(r: Runnable) -> RunModel
    decreases r,
{
    match r {
        Runnable::Command { prog, args } => RunModel::Command {
            prog: prog@,
            args: Seq::new(args@.len(), |i: int| args@[i]@),
        },
        Runnable::Pipeline { predecessors, final_cmd } => RunModel::Pipeline {
            predecessors: models_of(predecessors@),
            final_cmd: Box::new(model_of(*final_cmd)),
        },
        Runnable::Subshell { runnable } => RunModel::Subshell {
            runnable: Box::new(model_of(*runnable)),
        },
        Runnable::Redirect { runnable, target } => RunModel::Redirect {
            runnable: Box::new(model_of(*runnable)),
            target: target@,
        },
        Runnable::WithEnv { runnable, overlay } => RunModel::WithEnv {
            runnable: Box::new(model_of(*runnable)),
            overlay: overlay.omodel(),
        },
    }
}

pub open spec fn models_of(rs: Seq<Runnable>) -> Seq<RunModel>
    decreases rs,
{
    if rs.len() == 0 {
        Seq::empty()
    } else {
        seq![model_of(rs[0])] + models_of(rs.drop_first())
    }
}

pub proof fn lemma_models_of(rs: Seq<Runnable>)
    ensures
        models_of(rs).len() == rs.len(),
        forall|i: int| 0 <= i < rs.len() ==> #[trigger] models_of(rs)[i] == model_of(rs[i]),
    decreases rs,
{
    if rs.len() > 0 {
        lemma_models_of(rs.drop_first());
        assert forall|i: int| 0 <= i < rs.len() implies #[trigger] models_of(rs)[i] == model_of(
            rs[i],
        ) by {
            if i > 0 {
                assert(rs.drop_first()[i - 1] == rs[i]);
                assert(models_of(rs)[i] == models_of(rs.drop_first())[i - 1]);
            }
        }
    }
}

impl View for Runnable {
    type V = RunModel;

    open spec fn view(&self) -> RunModel {
        model_of(*self)
    }
}

/// Pipeline flatness: every pipeline has at least one predecessor and no
/// pipeline as an immediate child in its predecessors or final stage.
pub open spec fn pipe_flat(m: RunModel) -> bool
    decreases m,
{
    match m {
        RunModel::Command { .. } => true,
        RunModel::Pipeline { predecessors, final_cmd } => predecessors.len() >= 1 && flat_stages(
            predecessors,
        ) && !(*final_cmd is Pipeline) && pipe_flat(*final_cmd),
        RunModel::Subshell { runnable } => pipe_flat(*runnable),
        RunModel::Redirect { runnable, .. } => pipe_flat(*runnable),
        RunModel::WithEnv { runnable, .. } => pipe_flat(*runnable),
    }
}

pub open spec fn flat_stages(ms: Seq<RunModel>) -> bool
    decreases ms,
{
    if ms.len() == 0 {
        true
    } else {
        !(ms[0] is Pipeline) && pipe_flat(ms[0]) && flat_stages(ms.drop_first())
    }
}

pub proof fn lemma_flat_stages(ms: Seq<RunModel>)
    ensures
        flat_stages(ms) <==> (forall|i: int|
            0 <= i < ms.len() ==> !(#[trigger] ms[i] is Pipeline) && pipe_flat(ms[i])),
    decreases ms,
{
    if ms.len() > 0 {
        lemma_flat_stages(ms.drop_first());
        assert forall|i: int| 1 <= i < ms.len() implies ms.drop_first()[i - 1] == ms[i] by {}
        if flat_stages(ms) {
            assert forall|i: int| 0 <= i < ms.len() implies !(#[trigger] ms[i] is Pipeline)
                && pipe_flat(ms[i]) by {
                if i > 0 {
                    assert(ms.drop_first()[i - 1] == ms[i]);
                }
            }
        }
    }
}

/// Stage sequence of an expression seen as a pipe operand: a pipeline
/// contributes all its stages in order, anything else itself.
pub open spec fn stage_seq(m: RunModel) -> Seq<RunModel> {
    match m {
        RunModel::Pipeline { predecessors, final_cmd } => predecessors.push(*final_cmd),
        _ => seq![m],
    }
}

/// The pipeline that composing two non-redirect operands denotes: all
/// stages of the left operand, then all stages of the right, the last
/// stage final.
pub open spec fn composed(a: RunModel, b: RunModel) -> RunModel {
    RunModel::Pipeline {
        predecessors: (stage_seq(a) + stage_seq(b)).drop_last(),
        final_cmd: Box::new((stage_seq(a) + stage_seq(b)).last()),
    }
}

/// A composition error: piping out of or into a redirected command.
#[derive(PartialEq, Eq, Structural, Debug)]
pub enum ComposeError {
    PipeFromRedirect,
    PipeIntoRedirect,
}

impl ComposeError {
    /// Diagnostic for the interpreter's type error.
    pub fn message(&self) -> (r: &'static str)
        ensures
            *self is PipeFromRedirect ==> r@ == (
            "Cannot pipe from a redirected command - redirection must be the final operation")@,
            *self is PipeIntoRedirect ==> r@ == (
            "Cannot pipe to a redirected command - redirection must be the final operation")@,
    {
        match self {
            ComposeError::PipeFromRedirect => {
                "Cannot pipe from a redirected command - redirection must be the final operation"
            },
            ComposeError::PipeIntoRedirect => {
                "Cannot pipe to a redirected command - redirection must be the final operation"
            },
        }
    }
}

impl Runnable {
    /// Deep copy of an expression.
    #[verifier::loop_isolation(false)]
    pub fn duplicate(&self) -> (r: Runnable)
        ensures
            r@ == self@,
        decreases self,
    {
        match self {
            Runnable::Command { prog, args } => {
                let mut out: Vec<String> = Vec::new();
                let mut i: usize = 0;
                while i < args.len()
                    invariant
                        i <= args@.len(),
                        out@.len() == i,
                        forall|j: int| 0 <= j < i ==> (#[trigger] out@[j])@ == args@[j]@,
                    decreases args@.len() - i,
                {
                    out.push(to_owned_string(args[i].as_str()));
                    i = i + 1;
                }
                let r = Runnable::Command { prog: to_owned_string(prog.as_str()), args: out };
                proof {
                    assert(Seq::new(out@.len(), |k: int| out@[k]@) =~= Seq::new(
                        args@.len(),
                        |k: int| args@[k]@,
                    ));
                }
                r
            },
            Runnable::Pipeline { predecessors, final_cmd } => {
                let mut out: Vec<Runnable> = Vec::new();
                let mut i: usize = 0;
                while i < predecessors.len()
                    invariant
                        i <= predecessors@.len(),
                        out@.len() == i,
                        forall|j: int| 0 <= j < i ==> (#[trigger] out@[j])@
                            == predecessors@[j]@,
                    decreases predecessors@.len() - i,
                {
                    out.push(predecessors[i].duplicate());
                    i = i + 1;
                }
                let fin = (&**final_cmd).duplicate();
                let r = Runnable::Pipeline { predecessors: out, final_cmd: Box::new(fin) };
                proof {
                    lemma_models_of(out@);
                    lemma_models_of(predecessors@);
                    assert(models_of(out@) =~= models_of(predecessors@));
                }
                r
            },
            Runnable::Subshell { runnable } => Runnable::Subshell {
                runnable: Box::new((&**runnable).duplicate()),
            },
            Runnable::Redirect { runnable, target } => Runnable::Redirect {
                runnable: Box::new((&**runnable).duplicate()),
                target: target.duplicate(),
            },
            Runnable::WithEnv { runnable, overlay } => Runnable::WithEnv {
                runnable: Box::new((&**runnable).duplicate()),
                overlay: overlay.duplicate(),
            },
        }
    }

    /// Deep structural equality of two expressions.
    #[verifier::loop_isolation(false)]
    pub fn equals(&self, other: &Runnable) -> (r: bool)
        ensures
            r == (self@ == other@),
        decreases self,
    {
        match (self, other) {
            (
                Runnable::Command { prog: p1, args: a1 },
                Runnable::Command { prog: p2, args: a2 },
            ) => {
                let ghost v1 = Seq::new(a1@.len(), |i: int| a1@[i]@);
                let ghost v2 = Seq::new(a2@.len(), |i: int| a2@[i]@);
                if !str_eq(p1.as_str(), p2.as_str()) {
                    return false;
                }
                if a1.len() != a2.len() {
                    assert(v1.len() != v2.len());
                    return false;
                }
                let mut i: usize = 0;
                while i < a1.len()
                    invariant
                        i <= a1@.len(),
                        forall|j: int| 0 <= j < i ==> v1[j] == v2[j],
                    decreases a1@.len() - i,
                {
                    if !str_eq(a1[i].as_str(), a2[i].as_str()) {
                        assert(v1[i as int] != v2[i as int]);
                        return false;
                    }
                    i = i + 1;
                }
                assert(v1 =~= v2);
                true
            },
            (
                Runnable::Pipeline { predecessors: p1, final_cmd: f1 },
                Runnable::Pipeline { predecessors: p2, final_cmd: f2 },
            ) => {
                proof {
                    lemma_models_of(p1@);
                    lemma_models_of(p2@);
                }
                if p1.len() != p2.len() {
                    assert(models_of(p1@).len() != models_of(p2@).len());
                    return false;
                }
                let mut i: usize = 0;
                while i < p1.len()
                    invariant
                        i <= p1@.len(),
                        forall|j: int| 0 <= j < i ==> #[trigger] models_of(p1@)[j]
                            == models_of(p2@)[j],
                    decreases p1@.len() - i,
                {
                    if !p1[i].equals(&p2[i]) {
                        assert(models_of(p1@)[i as int] != models_of(p2@)[i as int]);
                        return false;
                    }
                    i = i + 1;
                }
                assert(models_of(p1@) =~= models_of(p2@));
                (&**f1).equals(&**f2)
            },
            (Runnable::Subshell { runnable: r1 }, Runnable::Subshell { runnable: r2 }) => {
                (&**r1).equals(&**r2)
            },
            (
                Runnable::Redirect { runnable: r1, target: t1 },
                Runnable::Redirect { runnable: r2, target: t2 },
            ) => (&**r1).equals(&**r2) && t1.equals(t2),
            (
                Runnable::WithEnv { runnable: r1, overlay: o1 },
                Runnable::WithEnv { runnable: r2, overlay: o2 },
            ) => (&**r1).equals(&**r2) && o1.same_entries(o2),
            _ => {
                assert(self@ != other@);
                false
            },
        }
    }
}

/// A named program, the seed of a command.
pub struct ShipProgram {
    name: String,
}

impl ShipProgram {
    pub closed spec fn name_seq(&self) -> Seq<char> {
        self.name@
    }

    /// The program's name as given.
    pub fn name(&self) -> (r: &str)
        ensures
            r@ == self.name_seq(),
    {
        self.name.as_str()
    }
}

/// Names a program.
pub fn prog(name: String) -> (r: ShipProgram)
    ensures
        r.name_seq() == name@,
{
    ShipProgram { name }
}

/// Builds a command from a program and its arguments.
pub fn cmd(program: ShipProgram, args: Vec<String>) -> (r: Runnable)
    ensures
        r@ == (RunModel::Command {
            prog: program.name_seq(),
            args: Seq::new(args@.len(), |i: int| args@[i]@),
        }),
        pipe_flat(r@),
{
    let r = Runnable::Command { prog: program.name, args };
    r
}

/// Wraps an expression in a subshell.
pub fn sub(runnable: Runnable) -> (r: Runnable)
    ensures
        r@ == (RunModel::Subshell { runnable: Box::new(runnable@) }),
        pipe_flat(runnable@) ==> pipe_flat(r@),
{
    Runnable::Subshell { runnable: Box::new(runnable) }
}

/// Redirects standard output of an expression to a file, truncating.
pub fn redirect_to(runnable: &Runnable, path: String) -> (r: Runnable)
    ensures
        r@ == (RunModel::Redirect {
            runnable: Box::new(runnable@),
            target: TargetModel::FilePath { path: path@, append: false },
        }),
        pipe_flat(runnable@) ==> pipe_flat(r@),
{
    Runnable::Redirect {
        runnable: Box::new(runnable.duplicate()),
        target: RedirectTarget::FilePath { path, append: false },
    }
}

/// Redirects standard output of an expression to a file, appending.
pub fn redirect_append(runnable: &Runnable, path: String) -> (r: Runnable)
    ensures
        r@ == (RunModel::Redirect {
            runnable: Box::new(runnable@),
            target: TargetModel::FilePath { path: path@, append: true },
        }),
        pipe_flat(runnable@) ==> pipe_flat(r@),
{
    Runnable::Redirect {
        runnable: Box::new(runnable.duplicate()),
        target: RedirectTarget::FilePath { path, append: true },
    }
}

/// Redirects standard output of an expression onto an already-duplicated
/// file descriptor.
pub fn redirect_fd(runnable: &Runnable, fd: i32) -> (r: Runnable)
    ensures
        r@ == (RunModel::Redirect {
            runnable: Box::new(runnable@),
            target: TargetModel::FileDescriptor { fd: fd as int },
        }),
        pipe_flat(runnable@) ==> pipe_flat(r@),
{
    Runnable::Redirect {
        runnable: Box::new(runnable.duplicate()),
        target: RedirectTarget::FileDescriptor { fd },
    }
}

/// Attaches an environment overlay. An existing overlay wrapper is merged
/// with the new bindings winning, rather than nested; every binding of
/// the result is pinned by the lookup clause below.
pub fn with_env(runnable: &Runnable, overlay: EnvOverlay) -> (r: Runnable)
    requires
        overlay.wf(),
        match runnable {
            Runnable::WithEnv { overlay: existing, .. } => existing.wf(),
            _ => true,
        },
    ensures
        r@ is WithEnv,
        match runnable@ {
            RunModel::WithEnv { runnable: inner, .. } => r@->WithEnv_runnable == inner,
            _ => *r@->WithEnv_runnable == runnable@,
        },
        forall|k: Seq<char>| #[trigger] crate::overlay::model_lookup(r@->WithEnv_overlay, k)
            == (if overlay.olookup(k) is Some {
            overlay.olookup(k)
        } else {
            match runnable@ {
                RunModel::WithEnv { overlay: existing, .. } => crate::overlay::model_lookup(
                    existing,
                    k,
                ),
                _ => None,
            }
        }),
        pipe_flat(runnable@) ==> pipe_flat(r@),
{
    match runnable {
        Runnable::WithEnv { runnable: inner, overlay: existing } => {
            let merged = existing.merged(&overlay);
            let r = Runnable::WithEnv {
                runnable: Box::new((&**inner).duplicate()),
                overlay: merged,
            };
            proof {
                let m = r->WithEnv_overlay;
                assert forall|k: Seq<char>| true implies #[trigger] crate::overlay::model_lookup(
                    m.omodel(),
                    k,
                ) == (if overlay.olookup(k) is Some {
                    overlay.olookup(k)
                } else {
                    crate::overlay::model_lookup(existing.omodel(), k)
                }) by {
                    crate::overlay::lemma_model_lookup_olookup(m.entries_seq(), k);
                    crate::overlay::lemma_model_lookup_olookup(existing.entries_seq(), k);
                    assert(m.olookup(k) == crate::environment::assoc_lookup(m.entries_seq(), k));
                    assert(existing.olookup(k) == crate::environment::assoc_lookup(
                        existing.entries_seq(),
                        k,
                    ));
                    assert(overlay.olookup(k) == crate::environment::assoc_lookup(
                        overlay.entries_seq(),
                        k,
                    ));
                    assert(m.omodel() =~= Seq::new(
                        m.entries_seq().len(),
                        |i: int| (m.entries_seq()[i].0@, m.entries_seq()[i].1@),
                    ));
                    assert(existing.omodel() =~= Seq::new(
                        existing.entries_seq().len(),
                        |i: int| (existing.entries_seq()[i].0@, existing.entries_seq()[i].1@),
                    ));
                }
            }
            r
        },
        _ => {
            let r = Runnable::WithEnv { runnable: Box::new(runnable.duplicate()), overlay };
            proof {
                let m = r->WithEnv_overlay;
                assert forall|k: Seq<char>| true implies #[trigger] crate::overlay::model_lookup(
                    m.omodel(),
                    k,
                ) == m.olookup(k) by {
                    crate::overlay::lemma_model_lookup_olookup(m.entries_seq(), k);
                    assert(m.olookup(k) == crate::environment::assoc_lookup(m.entries_seq(), k));
                    assert(m.omodel() =~= Seq::new(
                        m.entries_seq().len(),
                        |i: int| (m.entries_seq()[i].0@, m.entries_seq()[i].1@),
                    ));
                }
            }
            r
        },
    }
}

/// Every stage of a flat operand is itself flat and not a pipeline.
pub proof fn lemma_stage_seq_flat(m: RunModel)
    requires
        pipe_flat(m),
    ensures
        forall|i: int| 0 <= i < stage_seq(m).len() ==> !(#[trigger] stage_seq(m)[i] is Pipeline)
            && pipe_flat(stage_seq(m)[i]),
{
    match m {
        RunModel::Pipeline { predecessors, final_cmd } => {
            lemma_flat_stages(predecessors);
            assert forall|i: int| 0 <= i < stage_seq(m).len() implies !(
            #[trigger] stage_seq(m)[i] is Pipeline) && pipe_flat(stage_seq(m)[i]) by {
                if i < predecessors.len() {
                    assert(stage_seq(m)[i] == predecessors[i]);
                } else {
                    assert(stage_seq(m)[i] == *final_cmd);
                }
            }
        },
        _ => {
            assert(stage_seq(m)[0] == m);
        },
    }
}

/// Composes two expressions into a flat pipeline; a redirected operand on
/// either side is a composition error. The operands are borrowed and the
/// result is built from copies of their stages, so composing never
/// changes either operand and both stay independently executable.
pub fn pipe_compose(a: &Runnable, b: &Runnable) -> (r: Result<Runnable, ComposeError>)
    requires
        pipe_flat(a@),
        pipe_flat(b@),
    ensures
        a@ is Redirect ==> r == Err::<Runnable, ComposeError>(ComposeError::PipeFromRedirect),
        !(a@ is Redirect) && b@ is Redirect ==> r == Err::<Runnable, ComposeError>(
            ComposeError::PipeIntoRedirect,
        ),
        !(a@ is Redirect) && !(b@ is Redirect) ==> (match r {
            Ok(c) => c@ == composed(a@, b@) && pipe_flat(c@),
            Err(_) => false,
        }),
{
    match a {
        Runnable::Redirect { .. } => {
            return Err(ComposeError::PipeFromRedirect);
        },
        _ => {},
    }
    match b {
        Runnable::Redirect { .. } => {
            return Err(ComposeError::PipeIntoRedirect);
        },
        _ => {},
    }
    let ghost sa = stage_seq(a@);
    let ghost sb = stage_seq(b@);
    let ghost s = sa + sb;
    let mut preds: Vec<Runnable>;
    let fin: Runnable;
    match a {
        Runnable::Pipeline { predecessors: pa, final_cmd: fa } => {
            preds = duplicate_stages(pa);
            preds.push((&**fa).duplicate());
            proof {
                lemma_models_of(pa@);
                lemma_models_of(preds@);
                assert(models_of(preds@) =~= sa);
            }
        },
        _ => {
            preds = Vec::new();
            preds.push(a.duplicate());
            proof {
                lemma_models_of(preds@);
                assert(models_of(preds@) =~= sa);
            }
        },
    }
    let ghost preds_a = preds@;
    match b {
        Runnable::Pipeline { predecessors: pb, final_cmd: fb } => {
            let mut pb2 = duplicate_stages(pb);
            let ghost pb2v = pb2@;
            preds.append(&mut pb2);
            fin = (&**fb).duplicate();
            proof {
                lemma_models_of(pb@);
                lemma_models_of(pb2v);
                lemma_models_of(preds@);
                assert(preds@ == preds_a + pb2v);
                assert forall|i: int| 0 <= i < preds@.len() implies #[trigger] models_of(
                    preds@,
                )[i] == s.drop_last()[i] by {
                    if i < preds_a.len() {
                        assert(preds@[i] == preds_a[i]);
                        assert(models_of(preds_a)[i] == model_of(preds_a[i]));
                        assert(s[i] == sa[i]);
                    } else {
                        assert(preds@[i] == pb2v[i - preds_a.len()]);
                        assert(s[i] == sb[i - sa.len()]);
                        assert(sb[i - sa.len()] == model_of(pb@[i - preds_a.len()]));
                    }
                }
                assert(models_of(preds@) =~= s.drop_last());
                assert(fin@ == s.last());
            }
        },
        _ => {
            fin = b.duplicate();
            proof {
                lemma_models_of(preds@);
                assert(s =~= sa.push(b@));
                assert forall|i: int| 0 <= i < preds@.len() implies #[trigger] models_of(
                    preds@,
                )[i] == s.drop_last()[i] by {
                    assert(models_of(preds_a)[i] == model_of(preds_a[i]));
                    assert(s[i] == sa[i]);
                }
                assert(models_of(preds@) =~= s.drop_last());
                assert(fin@ == s.last());
            }
        },
    }
    let r = Runnable::Pipeline { predecessors: preds, final_cmd: Box::new(fin) };
    proof {
        assert(r@ == composed(a@, b@));
        lemma_stage_seq_flat(a@);
        lemma_stage_seq_flat(b@);
        assert forall|i: int| 0 <= i < s.len() implies !(#[trigger] s[i] is Pipeline)
            && pipe_flat(s[i]) by {
            if i < sa.len() {
                assert(s[i] == sa[i]);
            } else {
                assert(s[i] == sb[i - sa.len()]);
            }
        }
        lemma_flat_stages(s.drop_last());
        assert forall|i: int| 0 <= i < s.drop_last().len() implies !(
        #[trigger] s.drop_last()[i] is Pipeline) && pipe_flat(s.drop_last()[i]) by {
            assert(s.drop_last()[i] == s[i]);
        }
        assert(pipe_flat(r@));
    }
    Ok(r)
}

/// Deep copy of a stage vector.
fn duplicate_stages(rs: &Vec<Runnable>) -> (r: Vec<Runnable>)
    ensures
        r@.len() == rs@.len(),
        forall|i: int| 0 <= i < r@.len() ==> (#[trigger] r@[i])@ == rs@[i]@,
{
    let mut out: Vec<Runnable> = Vec::new();
    let mut i: usize = 0;
    while i < rs.len()
        invariant
            i <= rs@.len(),
            out@.len() == i,
            forall|j: int| 0 <= j < i ==> (#[trigger] out@[j])@ == rs@[j]@,
        decreases rs@.len() - i,
    {
        out.push(rs[i].duplicate());
        i = i + 1;
    }
    out
}

/// Composes two or more expressions into one pipeline, left to right.
/// Stage sequences of a run of further operands, concatenated in order.
pub open spec fn stages_concat(rs: Seq<Runnable>) -> Seq<RunModel>
    decreases rs,
{
    if rs.len() == 0 {
        Seq::empty()
    } else {
        stage_seq(model_of(rs[0])) + stages_concat(rs.drop_first())
    }
}

proof fn lemma_stages_concat_snoc(pre: Seq<Runnable>, r: Runnable)
    ensures
        stages_concat(pre.push(r)) == stages_concat(pre) + stage_seq(model_of(r)),
    decreases pre.len(),
{
    if pre.len() == 0 {
        assert(pre.push(r)[0] == r);
        assert(pre.push(r).drop_first() =~= Seq::<Runnable>::empty());
        assert(stages_concat(pre.push(r).drop_first()) =~= Seq::<RunModel>::empty());
        assert(stage_seq(model_of(r)) + Seq::<RunModel>::empty() =~= Seq::<RunModel>::empty()
            + stage_seq(model_of(r)));
    } else {
        assert(pre.push(r)[0] == pre[0]);
        assert(pre.push(r).drop_first() =~= pre.drop_first().push(r));
        lemma_stages_concat_snoc(pre.drop_first(), r);
        assert(stage_seq(model_of(pre[0])) + (stages_concat(pre.drop_first()) + stage_seq(
            model_of(r),
        )) =~= (stage_seq(model_of(pre[0])) + stages_concat(pre.drop_first())) + stage_seq(
            model_of(r),
        ));
    }
}

#[verifier::loop_isolation(false)]
pub fn pipe(first: &Runnable, second: &Runnable, rest: &Vec<Runnable>) -> (r: Result<
    Runnable,
    ComposeError,
>)
    requires
        pipe_flat(first@),
        pipe_flat(second@),
        forall|i: int| 0 <= i < rest@.len() ==> pipe_flat((#[trigger] rest@[i])@),
    ensures
        (first@ is Redirect) ==> r == Err::<Runnable, ComposeError>(
            ComposeError::PipeFromRedirect,
        ),
        (!(first@ is Redirect) && (second@ is Redirect || exists|i: int|
            0 <= i < rest@.len() && (#[trigger] rest@[i])@ is Redirect)) ==> r == Err::<
            Runnable,
            ComposeError,
        >(ComposeError::PipeIntoRedirect),
        (!(first@ is Redirect) && !(second@ is Redirect) && (forall|i: int|
            0 <= i < rest@.len() ==> !((#[trigger] rest@[i])@ is Redirect))) ==> (match r {
            Ok(c) => c@ is Pipeline && pipe_flat(c@) && stage_seq(c@) == stage_seq(first@)
                + stage_seq(second@) + stages_concat(rest@),
            Err(_) => false,
        }),
{
    let mut acc = match pipe_compose(first, second) {
        Ok(c) => c,
        Err(e) => {
            return Err(e);
        },
    };
    proof {
        lemma_stage_seq_composed(first@, second@);
    }
    let mut i: usize = 0;
    while i < rest.len()
        invariant
            i <= rest@.len(),
            pipe_flat(acc@),
            acc@ is Pipeline,
            stage_seq(acc@) == stage_seq(first@) + stage_seq(second@) + stages_concat(
                rest@.take(i as int),
            ),
            forall|j: int| 0 <= j < i ==> !((#[trigger] rest@[j])@ is Redirect),
        decreases rest@.len() - i,
    {
        proof {
            assert(stages_concat(rest@.take(0)) =~= Seq::<RunModel>::empty());
        }
        acc = match pipe_compose(&acc, &rest[i]) {
            Ok(c) => c,
            Err(e) => {
                assert(rest@[i as int]@ is Redirect);
                return Err(e);
            },
        };
        proof {
            let ghost prev = stage_seq(first@) + stage_seq(second@) + stages_concat(
                rest@.take(i as int),
            );
            lemma_stages_concat_snoc(rest@.take(i as int), rest@[i as int]);
            assert(rest@.take(i as int).push(rest@[i as int]) =~= rest@.take(i + 1));
            assert(prev + stage_seq(rest@[i as int]@) =~= stage_seq(first@) + stage_seq(second@)
                + stages_concat(rest@.take(i + 1)));
        }
        i = i + 1;
    }
    proof {
        assert(rest@.take(rest@.len() as int) =~= rest@);
        assert(stages_concat(rest@.take(0)) =~= Seq::<RunModel>::empty());
        if rest@.len() == 0 {
            assert(stage_seq(first@) + stage_seq(second@) + stages_concat(rest@) =~= stage_seq(
                first@,
            ) + stage_seq(second@));
        }
    }
    Ok(acc)
}

/// Composing a pipeline's stage sequence is associative: the two
/// bracketings of three non-redirect operands produce structurally equal
/// trees.
pub proof fn lemma_pipe_assoc(a: RunModel, b: RunModel, c: RunModel)
    requires
        !(a is Redirect),
        !(b is Redirect),
        !(c is Redirect),
    ensures
        composed(composed(a, b), c) == composed(a, composed(b, c)),
{
    let ab = composed(a, b);
    let bc = composed(b, c);
    lemma_stage_seq_composed(a, b);
    lemma_stage_seq_composed(b, c);
    assert(stage_seq(ab) + stage_seq(c) =~= stage_seq(a) + stage_seq(bc));
    assert(composed(ab, c) == composed(a, bc)) by {
        assert((stage_seq(ab) + stage_seq(c)).drop_last() =~= (stage_seq(a) + stage_seq(
            bc,
        )).drop_last());
    }
}

/// The stage sequence of a composition is the concatenation of the
/// operands' stage sequences.
pub proof fn lemma_stage_seq_composed(a: RunModel, b: RunModel)
    ensures
        stage_seq(composed(a, b)) == stage_seq(a) + stage_seq(b),
{
    let s = stage_seq(a) + stage_seq(b);
    assert(s.len() >= 2);
    assert(stage_seq(composed(a, b)) == s.drop_last().push(s.last()));
    assert(s.drop_last().push(s.last()) =~= s);
}

} // verus!
