//! POSIX program resolution: a name containing `/` is a literal path
//! checked for existence and an execute bit; any other name is searched
//! for along `PATH`, whose value may be a list, a colon-separated string,
//! or a single path. Disk probes go through one trusted stat call; every
//! decision around them is verified.

use vstd::prelude::*;
use crate::envvalue::{EnvValue, Val};
use crate::strutil::{contains_char, to_owned_string};
use crate::textform::split_colon;

verus! {

/// View of an optional environment value.
pub open spec fn opt_val(v: Option<&EnvValue>) -> Option<Val> {
    match v {
        Some(x) => Some(x@),
        None => None,
    }
}

/// A failed program resolution, with its diagnostic.
#[derive(Debug)]
pub enum ProgramResolutionError {
    NotFound(String),
    NoSuchFile(String),
    PermissionDenied(String),
    InvalidPath(String),
}

/// Model of a resolution error.
#[verifier::ext_equal]
pub enum ResolutionErrorModel {
    NotFound(Seq<char>),
    NoSuchFile(Seq<char>),
    PermissionDenied(Seq<char>),
    InvalidPath(Seq<char>),
}

impl View for ProgramResolutionError {
    type V = ResolutionErrorModel;

    open spec fn view(&self) -> ResolutionErrorModel {
        match self {
            ProgramResolutionError::NotFound(m) => ResolutionErrorModel::NotFound(m@),
            ProgramResolutionError::NoSuchFile(m) => ResolutionErrorModel::NoSuchFile(m@),
            ProgramResolutionError::PermissionDenied(m) => ResolutionErrorModel::PermissionDenied(
                m@,
            ),
            ProgramResolutionError::InvalidPath(m) => ResolutionErrorModel::InvalidPath(m@),
        }
    }
}

impl ProgramResolutionError {
    /// POSIX-conventional exit code: 126 for a file that may not be
    /// executed, 127 for everything else.
    pub fn exit_code(&self) -> (r: i32)
        ensures
            r == (match self@ {
                ResolutionErrorModel::PermissionDenied(_) => 126int,
                _ => 127int,
            }),
    {
        match self {
            ProgramResolutionError::NotFound(_) => 127,
            ProgramResolutionError::NoSuchFile(_) => 127,
            ProgramResolutionError::PermissionDenied(_) => 126,
            ProgramResolutionError::InvalidPath(_) => 127,
        }
    }

    /// The diagnostic carried by the error.
    pub fn message(&self) -> (r: &str)
        ensures
            r@ == (match self@ {
                ResolutionErrorModel::NotFound(m) => m,
                ResolutionErrorModel::NoSuchFile(m) => m,
                ResolutionErrorModel::PermissionDenied(m) => m,
                ResolutionErrorModel::InvalidPath(m) => m,
            }),
    {
        match self {
            ProgramResolutionError::NotFound(m) => m.as_str(),
            ProgramResolutionError::NoSuchFile(m) => m.as_str(),
            ProgramResolutionError::PermissionDenied(m) => m.as_str(),
            ProgramResolutionError::InvalidPath(m) => m.as_str(),
        }
    }
}

pub open spec fn not_found_msg(prog: Seq<char>) -> Seq<char> {
    prog + ": command not found"@
}

pub open spec fn no_such_file_msg(prog: Seq<char>) -> Seq<char> {
    prog + ": No such file or directory"@
}

pub open spec fn permission_denied_msg(prog: Seq<char>) -> Seq<char> {
    prog + ": Permission denied"@
}

/// Relies on nix::sys::stat::stat: the `st_mode` of the file at `path`,
/// or `None` when the path cannot be stat'ed. The result is disk state,
/// so nothing is promised of it.
#[verifier::external_body]
fn stat_mode(path: &str) -> Option<u32> {
    match nix::sys::stat::stat(std::path::Path::new(path)) {
        Ok(st) => Some(st.st_mode),
        Err(_) => None,
    }
}

/// Whether the file exists, and whether any execute bit of its mode is
/// set. Both are momentary disk state.
fn probe_file(path: &str) -> (bool, bool) {
    match stat_mode(path) {
        Some(mode) => (true, mode & 0o111u32 != 0),
        None => (false, false),
    }
}

/// Text of a `PATH` list element, where it has one.
pub open spec fn dir_text_of(v: Val) -> Option<Seq<char>> {
    match v {
        Val::Text(t) => Some(t),
        Val::FilePath(t) => Some(t),
        _ => None,
    }
}

/// The directories the strict resolver reads from a `PATH` value: a list
/// must hold only strings and paths, a string splits on ':', a single
/// path stands alone; other shapes are invalid, and an absent `PATH`
/// falls back to the built-in default.
pub open spec fn strict_path_dirs(v: Option<Val>) -> Result<Seq<Seq<char>>, ResolutionErrorModel> {
    match v {
        Some(Val::List(items)) => if forall|i: int|
            0 <= i < items.len() ==> dir_text_of(#[trigger] items[i]) is Some {
            Ok(Seq::new(items.len(), |i: int| dir_text_of(items[i])->0))
        } else {
            Err(ResolutionErrorModel::InvalidPath("PATH list contains invalid values"@))
        },
        Some(Val::Text(t)) => Ok(split_colon(t)),
        Some(Val::FilePath(t)) => Ok(seq![t]),
        Some(_) => Err(ResolutionErrorModel::InvalidPath("PATH must be a string, path, or list"@)),
        None => Ok(seq!["/usr/local/bin"@, "/usr/bin"@, "/bin"@]),
    }
}

/// A candidate executable path: the directory, a slash, the program name.
pub open spec fn candidate_text(dir: Seq<char>, prog: Seq<char>) -> Seq<char> {
    dir + seq!['/'] + prog
}

/// `p` is the candidate built from some nonempty directory of `dirs`.
pub open spec fn is_candidate_of(p: Seq<char>, dirs: Seq<Seq<char>>, prog: Seq<char>) -> bool {
    exists|i: int|
        0 <= i < dirs.len() && (#[trigger] dirs[i]).len() > 0 && p == candidate_text(
            dirs[i],
            prog,
        )
}

/// Joins a directory and a program name.
fn join_candidate(dir: &str, prog: &str) -> (r: String)
    ensures
        r@ == candidate_text(dir@, prog@),
{
    proof {
        reveal_strlit("/");
    }
    let mut out = to_owned_string(dir);
    out.append("/");
    out.append(prog);
    out
}

/// Extracts the search directories from a `PATH` value, strictly.
#[verifier::loop_isolation(false)]
fn strict_dirs_exec(path_var: Option<&EnvValue>) -> (r: Result<Vec<String>, ProgramResolutionError>)
    ensures
        match r {
            Ok(ds) => strict_path_dirs(opt_val(path_var)) matches Ok(sds) && ds@.len() == sds.len() && (forall|i: int|
                0 <= i < ds@.len() ==> (#[trigger] ds@[i])@ == sds[i]),
            Err(e) => strict_path_dirs(opt_val(path_var)) == Err::<Seq<Seq<char>>, ResolutionErrorModel>(e@),
        },
{
    match path_var {
        Some(EnvValue::List(items)) => {
            proof {
                crate::envvalue::lemma_vals_of(items@);
            }
            let mut dirs: Vec<String> = Vec::new();
            let mut i: usize = 0;
            while i < items.len()
                invariant
                    i <= items@.len(),
                    dirs@.len() == i,
                    forall|j: int| 0 <= j < items@.len() ==> #[trigger]
                        crate::envvalue::vals_of(items@)[j] == crate::envvalue::val_of(
                        items@[j],
                    ),
                    crate::envvalue::vals_of(items@).len() == items@.len(),
                    forall|j: int| 0 <= j < i ==> dir_text_of(
                        #[trigger] crate::envvalue::vals_of(items@)[j],
                    ) is Some,
                    forall|j: int| 0 <= j < i ==> (#[trigger] dirs@[j])@ == dir_text_of(
                        crate::envvalue::vals_of(items@)[j],
                    )->0,
                decreases items@.len() - i,
            {
                match &items[i] {
                    EnvValue::Text(t) => {
                        dirs.push(to_owned_string(t.as_str()));
                    },
                    EnvValue::FilePath(t) => {
                        dirs.push(to_owned_string(t.as_str()));
                    },
                    _ => {
                        assert(dir_text_of(crate::envvalue::vals_of(items@)[i as int]) is None);
                        return Err(
                            ProgramResolutionError::InvalidPath(
                                to_owned_string("PATH list contains invalid values"),
                            ),
                        );
                    },
                }
                i = i + 1;
            }
            proof {
                let sds = Seq::new(
                    crate::envvalue::vals_of(items@).len(),
                    |j: int| dir_text_of(crate::envvalue::vals_of(items@)[j])->0,
                );
                assert forall|j: int| 0 <= j < dirs@.len() implies (#[trigger] dirs@[j])@
                    == sds[j] by {}
            }
            Ok(dirs)
        },
        Some(EnvValue::Text(t)) => {
            Ok(crate::textform::split_colon_str(t.as_str()))
        },
        Some(EnvValue::FilePath(t)) => {
            let mut dirs: Vec<String> = Vec::new();
            dirs.push(to_owned_string(t.as_str()));
            Ok(dirs)
        },
        Some(_) => Err(
            ProgramResolutionError::InvalidPath(
                to_owned_string("PATH must be a string, path, or list"),
            ),
        ),
        None => {
            let mut dirs: Vec<String> = Vec::new();
            dirs.push(to_owned_string("/usr/local/bin"));
            dirs.push(to_owned_string("/usr/bin"));
            dirs.push(to_owned_string("/bin"));
            Ok(dirs)
        },
    }
}

/// Views of a directory vector.
pub open spec fn dir_views(ds: Seq<String>) -> Seq<Seq<char>> {
    Seq::new(ds.len(), |i: int| ds[i]@)
}

/// A search hit at index `i`: the directory is a nonempty segment and its
/// candidate's probe qualified.
pub open spec fn hit_at(dirs: Seq<Seq<char>>, qualified: Seq<bool>, i: int) -> bool {
    0 <= i < dirs.len() && dirs[i].len() > 0 && qualified[i]
}

/// `i` is the first search hit: a hit, with no hit before it.
pub open spec fn first_hit(dirs: Seq<Seq<char>>, qualified: Seq<bool>, i: int) -> bool {
    hit_at(dirs, qualified, i) && (forall|j: int| 0 <= j < i ==> !hit_at(dirs, qualified, j))
}

/// The first-match rule of the POSIX search, verified for every probe
/// outcome: given the directories and the qualification of each one's
/// candidate, selects the first nonempty directory whose candidate
/// qualified, or reports that none did.
pub fn pick_first_hit(dirs: &Vec<String>, qualified: &Vec<bool>) -> (r: Option<usize>)
    requires
        qualified@.len() == dirs@.len(),
    ensures
        match r {
            Some(i) => first_hit(dir_views(dirs@), qualified@, i as int),
            None => forall|j: int| 0 <= j < dirs@.len() ==> !hit_at(dir_views(dirs@), qualified@, j),
        },
{
    let mut i: usize = 0;
    while i < dirs.len()
        invariant
            i <= dirs@.len(),
            qualified@.len() == dirs@.len(),
            forall|j: int| 0 <= j < i ==> !hit_at(dir_views(dirs@), qualified@, j),
        decreases dirs@.len() - i,
    {
        if dirs[i].as_str().unicode_len() > 0 && qualified[i] {
            assert(hit_at(dir_views(dirs@), qualified@, i as int));
            return Some(i);
        }
        assert(!hit_at(dir_views(dirs@), qualified@, i as int));
        i = i + 1;
    }
    None
}

/// Resolves a program name to an executable path. A name with `/` is a
/// literal path; otherwise the `PATH` directories are searched in order,
/// empty segments skipped, and the first existing candidate with an
/// execute bit wins. Which probe succeeds is disk state; everything else
/// is pinned: the shape of an `Ok` path, exactly which error comes with
/// which diagnostic, and — through `pick_first_hit`, which this body
/// applies to the collected probe results — that the first qualifying
/// candidate is the one taken.
#[verifier::loop_isolation(false)]
pub fn resolve_program_path(program: &str, path_var: Option<&EnvValue>) -> (r: Result<
    String,
    ProgramResolutionError,
>)
    ensures
        program@.contains('/') ==> (match r {
            Ok(p) => p@ == program@,
            Err(e) => e@ == ResolutionErrorModel::NoSuchFile(no_such_file_msg(program@)) || e@
                == ResolutionErrorModel::PermissionDenied(permission_denied_msg(program@)),
        }),
        !program@.contains('/') ==> (match strict_path_dirs(opt_val(path_var)) {
            Ok(sds) => (match r {
                Ok(p) => is_candidate_of(p@, sds, program@),
                Err(e) => e@ == ResolutionErrorModel::NotFound(not_found_msg(program@)),
            }),
            Err(em) => (match r {
                Ok(_) => false,
                Err(e) => e@ == em,
            }),
        }),
{
    if contains_char(program, '/') {
        let (exists_here, executable) = probe_file(program);
        if !exists_here {
            let mut msg = to_owned_string(program);
            msg.append(": No such file or directory");
            return Err(ProgramResolutionError::NoSuchFile(msg));
        }
        if !executable {
            let mut msg = to_owned_string(program);
            msg.append(": Permission denied");
            return Err(ProgramResolutionError::PermissionDenied(msg));
        }
        return Ok(to_owned_string(program));
    }
    let dirs = match strict_dirs_exec(path_var) {
        Ok(ds) => ds,
        Err(e) => {
            return Err(e);
        },
    };
    let ghost sds = match strict_path_dirs(opt_val(path_var)) {
        Ok(ds) => ds,
        Err(_) => Seq::empty(),
    };
    let mut qualified: Vec<bool> = Vec::new();
    let mut i: usize = 0;
    while i < dirs.len()
        invariant
            i <= dirs@.len(),
            dirs@.len() == sds.len(),
            forall|j: int| 0 <= j < dirs@.len() ==> (#[trigger] dirs@[j])@ == sds[j],
            qualified@.len() == i,
        decreases dirs@.len() - i,
    {
        let q: bool = if dirs[i].as_str().unicode_len() > 0 {
            let candidate = join_candidate(dirs[i].as_str(), program);
            let (exists_here, executable) = probe_file(candidate.as_str());
            exists_here && executable
        } else {
            false
        };
        qualified.push(q);
        i = i + 1;
    }
    match pick_first_hit(&dirs, &qualified) {
        Some(w) => {
            let candidate = join_candidate(dirs[w].as_str(), program);
            proof {
                assert(dir_views(dirs@)[w as int] == sds[w as int]);
                assert(sds[w as int].len() > 0);
                assert(candidate@ == candidate_text(sds[w as int], program@));
                assert(is_candidate_of(candidate@, sds, program@));
            }
            Ok(candidate)
        },
        None => {
            let mut msg = to_owned_string(program);
            msg.append(": command not found");
            Err(ProgramResolutionError::NotFound(msg))
        },
    }
}

/// The directories the lenient search of `which` reads from `PATH`:
/// list elements that are not strings or paths are skipped, and every
/// shape other than list, string or path falls back to the default.
pub open spec fn lenient_path_dirs(v: Option<Val>) -> Seq<Seq<char>> {
    match v {
        Some(Val::List(items)) => kept_dir_texts(items),
        Some(Val::Text(t)) => split_colon(t),
        Some(Val::FilePath(t)) => seq![t],
        _ => seq!["/usr/local/bin"@, "/usr/bin"@, "/bin"@],
    }
}

pub open spec fn kept_dir_texts(items: Seq<Val>) -> Seq<Seq<char>>
    decreases items,
{
    if items.len() == 0 {
        Seq::empty()
    } else {
        let rest = kept_dir_texts(items.drop_first());
        match dir_text_of(items[0]) {
            Some(t) => seq![t] + rest,
            None => rest,
        }
    }
}

/// Searches `PATH` for executables named `program`; with `find_all` every
/// hit is kept, otherwise only the first. Which candidates hit is disk
/// state; each result is pinned to be a candidate of a nonempty searched
/// directory.
#[verifier::loop_isolation(false)]
pub fn find_in_path(program: &str, path_var: Option<&EnvValue>, find_all: bool) -> (r: Vec<String>)
    ensures
        forall|j: int| 0 <= j < r@.len() ==> is_candidate_of(
            (#[trigger] r@[j])@,
            lenient_path_dirs(opt_val(path_var)),
            program@,
        ),
        !find_all ==> r@.len() <= 1,
{
    let ghost pv = match path_var {
        Some(v) => Some(v@),
        None => None::<Val>,
    };
    let dirs: Vec<String> = lenient_dirs_exec(path_var);
    let ghost sds = lenient_path_dirs(pv);
    let mut results: Vec<String> = Vec::new();
    let mut i: usize = 0;
    while i < dirs.len()
        invariant
            i <= dirs@.len(),
            dirs@.len() == sds.len(),
            sds == lenient_path_dirs(pv),
            forall|j: int| 0 <= j < dirs@.len() ==> (#[trigger] dirs@[j])@ == sds[j],
            forall|j: int| 0 <= j < results@.len() ==> is_candidate_of(
                (#[trigger] results@[j])@,
                sds,
                program@,
            ),
            !find_all ==> results@.len() <= 1,
            find_all || results@.len() == 0,
        decreases dirs@.len() - i,
    {
        if dirs[i].as_str().unicode_len() > 0 {
            let candidate = join_candidate(dirs[i].as_str(), program);
            let (exists_here, executable) = probe_file(candidate.as_str());
            if exists_here && executable {
                assert(sds[i as int].len() > 0);
                assert(candidate@ == candidate_text(sds[i as int], program@));
                let ghost results0 = results@;
                results.push(candidate);
                proof {
                    assert forall|j: int| 0 <= j < results@.len() implies is_candidate_of(
                        (#[trigger] results@[j])@,
                        sds,
                        program@,
                    ) by {
                        if j == results@.len() - 1 {
                            assert((i as int) < sds.len());
                            assert(sds[i as int].len() > 0);
                            assert((results@[j])@ == candidate_text(sds[i as int], program@));
                        } else {
                            assert(results@[j] == results0[j]);
                            assert(is_candidate_of((results0[j])@, sds, program@));
                        }
                    }
                }
                if !find_all {
                    return results;
                }
            }
        }
        i = i + 1;
    }
    proof {
        assert(sds == lenient_path_dirs(opt_val(path_var)));
    }
    results
}

/// Extracts the search directories from a `PATH` value, leniently.
#[verifier::loop_isolation(false)]
fn lenient_dirs_exec(path_var: Option<&EnvValue>) -> (r: Vec<String>)
    ensures
        r@.len() == lenient_path_dirs(opt_val(path_var)).len(),
        forall|i: int| 0 <= i < r@.len() ==> (#[trigger] r@[i])@ == lenient_path_dirs(opt_val(path_var))[i],
{
    match path_var {
        Some(EnvValue::List(items)) => {
            proof {
                crate::envvalue::lemma_vals_of(items@);
            }
            let mut dirs: Vec<String> = Vec::new();
            let mut i: usize = 0;
            while i < items.len()
                invariant
                    i <= items@.len(),
                    crate::envvalue::vals_of(items@).len() == items@.len(),
                    forall|j: int| 0 <= j < items@.len() ==> #[trigger]
                        crate::envvalue::vals_of(items@)[j] == crate::envvalue::val_of(
                        items@[j],
                    ),
                    dirs@.len() == kept_dir_texts(
                        crate::envvalue::vals_of(items@).take(i as int),
                    ).len(),
                    forall|j: int| 0 <= j < dirs@.len() ==> (#[trigger] dirs@[j])@
                        == kept_dir_texts(crate::envvalue::vals_of(items@).take(i as int))[j],
                decreases items@.len() - i,
            {
                let ghost pre = crate::envvalue::vals_of(items@).take(i as int);
                let ghost post = crate::envvalue::vals_of(items@).take(i + 1);
                match &items[i] {
                    EnvValue::Text(t) => {
                        dirs.push(to_owned_string(t.as_str()));
                    },
                    EnvValue::FilePath(t) => {
                        dirs.push(to_owned_string(t.as_str()));
                    },
                    _ => {},
                }
                proof {
                    lemma_kept_dir_snoc(pre, crate::envvalue::vals_of(items@)[i as int]);
                    assert(pre.push(crate::envvalue::vals_of(items@)[i as int]) =~= post);
                }
                i = i + 1;
            }
            proof {
                assert(crate::envvalue::vals_of(items@).take(items@.len() as int)
                    =~= crate::envvalue::vals_of(items@));
            }
            dirs
        },
        Some(EnvValue::Text(t)) => crate::textform::split_colon_str(t.as_str()),
        Some(EnvValue::FilePath(t)) => {
            let mut dirs: Vec<String> = Vec::new();
            dirs.push(to_owned_string(t.as_str()));
            dirs
        },
        _ => {
            let mut dirs: Vec<String> = Vec::new();
            dirs.push(to_owned_string("/usr/local/bin"));
            dirs.push(to_owned_string("/usr/bin"));
            dirs.push(to_owned_string("/bin"));
            dirs
        },
    }
}

/// Appending one element to the scanned prefix extends the kept texts by
/// that element's text, when it has one.
proof fn lemma_kept_dir_snoc(pre: Seq<Val>, v: Val)
    ensures
        kept_dir_texts(pre.push(v)) == (match dir_text_of(v) {
            Some(t) => kept_dir_texts(pre) + seq![t],
            None => kept_dir_texts(pre),
        }),
    decreases pre.len(),
{
    if pre.len() == 0 {
        assert(pre.push(v)[0] == v);
        assert(pre.push(v).drop_first() =~= Seq::<Val>::empty());
        assert(kept_dir_texts(pre.push(v).drop_first()) =~= Seq::<Seq<char>>::empty());
        assert(kept_dir_texts(pre) =~= Seq::<Seq<char>>::empty());
        match dir_text_of(v) {
            Some(t) => {
                assert(kept_dir_texts(pre.push(v)) == seq![t] + kept_dir_texts(
                    pre.push(v).drop_first(),
                ));
                assert(seq![t] + kept_dir_texts(pre.push(v).drop_first()) =~= kept_dir_texts(pre)
                    + seq![t]);
            },
            None => {},
        }
    } else {
        assert(pre.push(v)[0] == pre[0]);
        assert(pre.push(v).drop_first() =~= pre.drop_first().push(v));
        lemma_kept_dir_snoc(pre.drop_first(), v);
        match dir_text_of(v) {
            Some(t) => {
                match dir_text_of(pre[0]) {
                    Some(t0) => {
                        assert(seq![t0] + (kept_dir_texts(pre.drop_first()) + seq![t]) =~= (
                        seq![t0] + kept_dir_texts(pre.drop_first())) + seq![t]);
                    },
                    None => {},
                }
            },
            None => {},
        }
    }
}

} // verus!
