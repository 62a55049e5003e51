//! Decision logic of the built-in commands. Everything that reads or
//! writes the filesystem or the terminal stays with the process driver;
//! what stands here is each built-in's pure core: where `cd` goes, what
//! `pwd` reports, how the directory stack moves, how `exit` reads its
//! argument, and what `which` concludes.

use vstd::prelude::*;
use crate::envvalue::{EnvValue, Val};
use crate::environment::ShellEnvironment;
use crate::inttext::{is_int_syntax, int_value, parse_i64};
use crate::resolve::{opt_val, find_in_path, is_candidate_of, lenient_path_dirs};
use crate::command_spec::{get_builtin, spec_builtin};
use crate::strutil::{str_eq, to_owned_string};

verus! {

/// Views of an argument vector.
pub open spec fn arg_views(args: Seq<String>) -> Seq<Seq<char>> {
    Seq::new(args.len(), |i: int| args[i]@)
}

/// Whether the arguments carry the given flag word.
pub open spec fn has_arg(args: Seq<String>, flag: Seq<char>) -> bool {
    exists|i: int| 0 <= i < args.len() && (#[trigger] args[i])@ == flag
}

/// Joining a `~` path against the home directory: `~` alone is home,
/// `~/x` hangs `x` under home, anything else (a `~user` form) stays as
/// written.
pub open spec fn tilde_join(home: Seq<char>, path: Seq<char>) -> Seq<char> {
    if path == "~"@ {
        home
    } else if path.len() >= 2 && path[0] == '~' && path[1] == '/' {
        home + path.drop_first()
    } else {
        path
    }
}

/// Where `cd` goes: no argument means home, `-` means the previous
/// directory (and is echoed), a `~` form is expanded against home, and
/// anything else is taken as written. Missing `HOME` or `OLDPWD` are the
/// two failures.
pub open spec fn cd_target_spec(
    args: Seq<Seq<char>>,
    home: Option<Val>,
    oldpwd: Option<Val>,
) -> Result<(Seq<char>, bool), Seq<char>> {
    if args.len() == 0 {
        match home {
            Some(Val::Text(t)) => Ok((t, false)),
            Some(Val::FilePath(t)) => Ok((t, false)),
            _ => Err("cd: HOME not set"@),
        }
    } else if args[0] == "-"@ {
        match oldpwd {
            Some(Val::Text(t)) => Ok((t, true)),
            Some(Val::FilePath(t)) => Ok((t, true)),
            _ => Err("cd: OLDPWD not set"@),
        }
    } else if args[0].len() > 0 && args[0][0] == '~' {
        match home {
            Some(Val::Text(h)) => Ok((tilde_join(h, args[0]), false)),
            Some(Val::FilePath(h)) => Ok((tilde_join(h, args[0]), false)),
            _ => Err("cd: HOME not set"@),
        }
    } else {
        Ok((args[0], false))
    }
}

/// Computes the directory `cd` should change to, and whether the target
/// is echoed (as `cd -` does). The caller performs the change and then
/// records the move with `cd_update_env`.
pub fn cd_target(args: &Vec<String>, home: Option<&EnvValue>, oldpwd: Option<&EnvValue>) -> (r:
    Result<(String, bool), String>)
    ensures
        match r {
            Ok((t, echo)) => cd_target_spec(
                arg_views(args@),
                opt_val(home),
                opt_val(oldpwd),
            ) == Ok::<(Seq<char>, bool), Seq<char>>((t@, echo)),
            Err(m) => cd_target_spec(
                arg_views(args@),
                opt_val(home),
                opt_val(oldpwd),
            ) == Err::<(Seq<char>, bool), Seq<char>>(m@),
        },
{
    let ghost sargs = arg_views(args@);
    if args.len() == 0 {
        match home {
            Some(EnvValue::Text(t)) => Ok((to_owned_string(t.as_str()), false)),
            Some(EnvValue::FilePath(t)) => Ok((to_owned_string(t.as_str()), false)),
            _ => Err(to_owned_string("cd: HOME not set")),
        }
    } else if str_eq(args[0].as_str(), "-") {
        assert(sargs[0] == "-"@);
        match oldpwd {
            Some(EnvValue::Text(t)) => Ok((to_owned_string(t.as_str()), true)),
            Some(EnvValue::FilePath(t)) => Ok((to_owned_string(t.as_str()), true)),
            _ => Err(to_owned_string("cd: OLDPWD not set")),
        }
    } else {
        assert(sargs[0] == args@[0]@);
        let first = &args[0];
        let flen = first.as_str().unicode_len();
        if flen > 0 && first.as_str().get_char(0) == '~' {
            let home_text: String = match home {
                Some(EnvValue::Text(t)) => to_owned_string(t.as_str()),
                Some(EnvValue::FilePath(t)) => to_owned_string(t.as_str()),
                _ => {
                    return Err(to_owned_string("cd: HOME not set"));
                },
            };
            if str_eq(first.as_str(), "~") {
                return Ok((home_text, false));
            }
            if flen >= 2 && first.as_str().get_char(1) == '/' {
                let rest = first.as_str().substring_char(1, flen);
                let mut joined = home_text;
                joined.append(rest);
                proof {
                    assert(rest@ =~= sargs[0].drop_first());
                }
                return Ok((joined, false));
            }
            proof {
                reveal_strlit("~");
                assert(sargs[0] != "~"@);
            }
            Ok((to_owned_string(first.as_str()), false))
        } else {
            Ok((to_owned_string(first.as_str()), false))
        }
    }
}

/// Records a completed directory change: the prior directory becomes
/// `OLDPWD`, the new one `PWD`.
pub fn cd_update_env(env: &mut ShellEnvironment, old_dir: String, new_dir: String)
    requires
        old(env).wf(),
    ensures
        final(env).wf(),
        final(env).spec_get("OLDPWD"@) == Some(Val::FilePath(old_dir@)),
        final(env).spec_get("PWD"@) == Some(Val::FilePath(new_dir@)),
        forall|k: Seq<char>| k != "OLDPWD"@ && k != "PWD"@ ==> final(env).spec_get(k) == old(
            env,
        ).spec_get(k),
        final(env).dirs() == old(env).dirs(),
{
    proof {
        crate::environment::lemma_distinguished_names();
        crate::environment::lemma_boot_names();
    }
    env.set(to_owned_string("OLDPWD"), EnvValue::FilePath(old_dir));
    env.set(to_owned_string("PWD"), EnvValue::FilePath(new_dir));
}

/// What `pwd` prints: the kernel's directory with `-P` (or when no usable
/// logical `PWD` exists), else the logical `PWD`.
pub enum PwdSource {
    Physical,
    Logical(String),
}

pub open spec fn pwd_source_spec(args: Seq<Seq<char>>, pwd: Option<Val>) -> Option<Seq<char>> {
    if exists|i: int| 0 <= i < args.len() && args[i] == "-P"@ {
        None
    } else {
        match pwd {
            Some(Val::FilePath(t)) => Some(t),
            Some(Val::Text(t)) => Some(t),
            _ => None,
        }
    }
}

/// Decides the source of `pwd`'s output.
pub fn pwd_source(args: &Vec<String>, pwd: Option<&EnvValue>) -> (r: PwdSource)
    ensures
        match r {
            PwdSource::Physical => pwd_source_spec(
                arg_views(args@),
                opt_val(pwd),
            ) is None,
            PwdSource::Logical(t) => pwd_source_spec(
                arg_views(args@),
                opt_val(pwd),
            ) == Some(t@),
        },
{
    let ghost sargs = arg_views(args@);
    let mut physical = false;
    let mut i: usize = 0;
    while i < args.len()
        invariant
            i <= args@.len(),
            sargs == arg_views(args@),
            physical == exists|j: int| 0 <= j < i && #[trigger] sargs[j] == "-P"@,
        decreases args@.len() - i,
    {
        if str_eq(args[i].as_str(), "-P") {
            assert(sargs[i as int] == "-P"@);
            physical = true;
        }
        i = i + 1;
    }
    if physical {
        return PwdSource::Physical;
    }
    assert(!(exists|j: int| 0 <= j < sargs.len() && #[trigger] sargs[j] == "-P"@));
    match pwd {
        Some(EnvValue::FilePath(t)) => PwdSource::Logical(to_owned_string(t.as_str())),
        Some(EnvValue::Text(t)) => PwdSource::Logical(to_owned_string(t.as_str())),
        _ => PwdSource::Physical,
    }
}

/// `pushd` needs a directory argument.
pub fn pushd_check(args: &Vec<String>) -> (r: Result<(), String>)
    ensures
        match r {
            Ok(_) => args@.len() > 0,
            Err(m) => args@.len() == 0 && m@ == "pushd: no directory specified"@,
        },
{
    if args.len() == 0 {
        Err(to_owned_string("pushd: no directory specified"))
    } else {
        Ok(())
    }
}

/// `popd` takes no arguments and fails on an empty stack; on success the
/// most recently pushed directory is removed and returned.
pub fn popd_pop(env: &mut ShellEnvironment, args: &Vec<String>) -> (r: Result<String, String>)
    ensures
        match r {
            Ok(d) => args@.len() == 0 && old(env).dirs().len() > 0 && d@ == old(
                env,
            ).dirs().last() && final(env).dirs() == old(env).dirs().drop_last(),
            Err(m) => final(env).dirs() == old(env).dirs() && (if args@.len() > 0 {
                m@ == "popd: too many arguments"@
            } else {
                old(env).dirs().len() == 0 && m@ == "popd: directory stack empty"@
            }),
        },
        forall|k: Seq<char>| final(env).spec_get(k) == old(env).spec_get(k),
        final(env).wf() == old(env).wf(),
{
    if args.len() > 0 {
        return Err(to_owned_string("popd: too many arguments"));
    }
    match env.pop_dir() {
        Some(d) => Ok(d),
        None => Err(to_owned_string("popd: directory stack empty")),
    }
}

/// The lines `dirs` prints: the current directory, then the stack.
pub fn dirs_lines(env: &ShellEnvironment, args: &Vec<String>, current_dir: &str) -> (r: Result<
    Vec<String>,
    String,
>)
    ensures
        match r {
            Ok(lines) => args@.len() == 0 && lines@.len() == 1 + env.dirs().len() && lines@[0]@
                == current_dir@ && (forall|i: int|
                1 <= i < lines@.len() ==> (#[trigger] lines@[i])@ == env.dirs()[i - 1]),
            Err(m) => args@.len() > 0 && m@ == "dirs: too many arguments"@,
        },
{
    if args.len() > 0 {
        return Err(to_owned_string("dirs: too many arguments"));
    }
    let mut lines: Vec<String> = Vec::new();
    lines.push(to_owned_string(current_dir));
    let stack = env.dir_stack();
    let mut i: usize = 0;
    while i < stack.len()
        invariant
            i <= stack@.len(),
            stack@.len() == env.dirs().len(),
            forall|j: int| 0 <= j < stack@.len() ==> (#[trigger] stack@[j])@ == env.dirs()[j],
            lines@.len() == 1 + i,
            lines@[0]@ == current_dir@,
            forall|j: int| 1 <= j < lines@.len() ==> (#[trigger] lines@[j])@ == env.dirs()[j - 1],
        decreases stack@.len() - i,
    {
        lines.push(to_owned_string(stack[i].as_str()));
        i = i + 1;
    }
    Ok(lines)
}

/// The code `exit` and `quit` leave with: 0 without an argument, the
/// argument when it reads as a 32-bit integer, 1 otherwise.
pub open spec fn exit_code_spec(args: Seq<Seq<char>>) -> int {
    if args.len() == 0 {
        0
    } else if is_int_syntax(args[0]) && i32::MIN <= int_value(args[0]) <= i32::MAX {
        int_value(args[0])
    } else {
        1
    }
}

/// Reads the exit code `exit` was asked for. The caller terminates the
/// process with it.
pub fn exit_builtin(args: &Vec<String>) -> (r: i32)
    ensures
        r as int == exit_code_spec(arg_views(args@)),
{
    if args.len() == 0 {
        return 0;
    }
    assert(arg_views(args@)[0] == args@[0]@);
    match parse_i64(args[0].as_str()) {
        Some(v) => {
            if -2147483648i64 <= v && v <= 2147483647i64 {
                v as i32
            } else {
                1
            }
        },
        None => 1,
    }
}

/// `quit` is `exit` under another name.
pub fn quit(args: &Vec<String>) -> (r: i32)
    ensures
        r as int == exit_code_spec(arg_views(args@)),
{
    exit_builtin(args)
}

/// Parsed `which` invocation: flags and the names to look up.
pub struct WhichQuery {
    pub show_all: bool,
    pub silent: bool,
    pub programs: Vec<String>,
}

/// The non-flag arguments of `which`, in order.
pub open spec fn which_programs(args: Seq<Seq<char>>) -> Seq<Seq<char>>
    decreases args,
{
    if args.len() == 0 {
        Seq::empty()
    } else {
        let rest = which_programs(args.drop_first());
        if args[0] == "-a"@ || args[0] == "-s"@ {
            rest
        } else {
            seq![args[0]] + rest
        }
    }
}

proof fn lemma_which_programs_snoc(pre: Seq<Seq<char>>, a: Seq<char>)
    ensures
        which_programs(pre.push(a)) == (if a == "-a"@ || a == "-s"@ {
            which_programs(pre)
        } else {
            which_programs(pre) + seq![a]
        }),
    decreases pre.len(),
{
    if pre.len() == 0 {
        assert(pre.push(a)[0] == a);
        assert(pre.push(a).drop_first() =~= Seq::<Seq<char>>::empty());
        assert(which_programs(pre.push(a).drop_first()) =~= Seq::<Seq<char>>::empty());
        if !(a == "-a"@ || a == "-s"@) {
            assert(which_programs(pre.push(a)) == seq![a] + which_programs(
                pre.push(a).drop_first(),
            ));
            assert(seq![a] + which_programs(pre.push(a).drop_first()) =~= which_programs(pre)
                + seq![a]);
        }
    } else {
        assert(pre.push(a)[0] == pre[0]);
        assert(pre.push(a).drop_first() =~= pre.drop_first().push(a));
        lemma_which_programs_snoc(pre.drop_first(), a);
        if !(a == "-a"@ || a == "-s"@) {
            if !(pre[0] == "-a"@ || pre[0] == "-s"@) {
                assert(seq![pre[0]] + (which_programs(pre.drop_first()) + seq![a]) =~= (
                seq![pre[0]] + which_programs(pre.drop_first())) + seq![a]);
            }
        }
    }
}

/// Parses `which`'s arguments: `-a` lists all hits, `-s` silences
/// output, everything else is a program name.
#[verifier::loop_isolation(false)]
pub fn which_parse(args: &Vec<String>) -> (r: WhichQuery)
    ensures
        r.show_all == (exists|i: int|
            0 <= i < args@.len() && (#[trigger] args@[i])@ == "-a"@),
        r.silent == (exists|i: int| 0 <= i < args@.len() && (#[trigger] args@[i])@ == "-s"@),
        r.programs@.len() == which_programs(arg_views(args@)).len(),
        forall|i: int| 0 <= i < r.programs@.len() ==> (#[trigger] r.programs@[i])@
            == which_programs(arg_views(args@))[i],
{
    let ghost sargs = arg_views(args@);
    let mut show_all = false;
    let mut silent = false;
    let mut programs: Vec<String> = Vec::new();
    let mut i: usize = 0;
    while i < args.len()
        invariant
            i <= args@.len(),
            show_all == (exists|j: int| 0 <= j < i && (#[trigger] args@[j])@ == "-a"@),
            silent == (exists|j: int| 0 <= j < i && (#[trigger] args@[j])@ == "-s"@),
            programs@.len() == which_programs(sargs.take(i as int)).len(),
            forall|j: int| 0 <= j < programs@.len() ==> (#[trigger] programs@[j])@
                == which_programs(sargs.take(i as int))[j],
        decreases args@.len() - i,
    {
        proof {
            lemma_which_programs_snoc(sargs.take(i as int), sargs[i as int]);
            assert(sargs.take(i as int).push(sargs[i as int]) =~= sargs.take(i + 1));
            reveal_strlit("-a");
            reveal_strlit("-s");
            assert("-a"@.len() == 2 && "-s"@.len() == 2);
            assert("-a"@[1] == 'a' && "-s"@[1] == 's');
        }
        if str_eq(args[i].as_str(), "-a") {
            assert(args@[i as int]@ == "-a"@);
            show_all = true;
        } else if str_eq(args[i].as_str(), "-s") {
            assert(args@[i as int]@ == "-s"@);
            silent = true;
        } else {
            programs.push(to_owned_string(args[i].as_str()));
        }
        i = i + 1;
    }
    proof {
        assert(sargs.take(args@.len() as int) =~= sargs);
    }
    WhichQuery { show_all, silent, programs }
}

/// Whether `which` treats a name as a shell built-in: a registry entry,
/// or the `source` word.
pub open spec fn which_is_builtin(name: Seq<char>) -> bool {
    spec_builtin(name) is Some || name == "source"@
}

/// The built-in notice `which` prints for a name.
pub open spec fn notice_line(name: Seq<char>) -> Seq<char> {
    name + ": shell built-in command"@
}

/// Which of the names the registry (or the `source` word) answers for.
pub open spec fn builtin_flags(names: Seq<Seq<char>>) -> Seq<bool> {
    Seq::new(names.len(), |i: int| which_is_builtin(names[i]))
}

/// The exit code of a `which` run: 0 exactly when every name was located,
/// as a built-in or with at least one search hit; 1 otherwise.
pub open spec fn which_code(flags: Seq<bool>, hitss: Seq<Seq<Seq<char>>>) -> int {
    if forall|i: int| 0 <= i < flags.len() ==> (#[trigger] flags[i]) || hitss[i].len() > 0 {
        0
    } else {
        1
    }
}

/// The report lines of a `which` run: per name in order, the built-in
/// notice when the name is one, then that name's search hits.
pub open spec fn which_lines(
    names: Seq<Seq<char>>,
    flags: Seq<bool>,
    hitss: Seq<Seq<Seq<char>>>,
) -> Seq<Seq<char>>
    decreases names,
{
    if names.len() == 0 {
        Seq::empty()
    } else {
        (if flags[0] {
            seq![notice_line(names[0])]
        } else {
            Seq::empty()
        }) + hitss[0] + which_lines(names.drop_first(), flags.drop_first(), hitss.drop_first())
    }
}

proof fn lemma_which_lines_snoc(
    ns: Seq<Seq<char>>,
    fs: Seq<bool>,
    hs: Seq<Seq<Seq<char>>>,
    n: Seq<char>,
    f: bool,
    h: Seq<Seq<char>>,
)
    requires
        ns.len() == fs.len(),
        ns.len() == hs.len(),
    ensures
        which_lines(ns.push(n), fs.push(f), hs.push(h)) == which_lines(ns, fs, hs) + (if f {
            seq![notice_line(n)]
        } else {
            Seq::<Seq<char>>::empty()
        }) + h,
    decreases ns.len(),
{
    let entry = (if f {
        seq![notice_line(n)]
    } else {
        Seq::<Seq<char>>::empty()
    }) + h;
    if ns.len() == 0 {
        assert(ns.push(n)[0] == n);
        assert(fs.push(f)[0] == f);
        assert(hs.push(h)[0] == h);
        assert(ns.push(n).drop_first() =~= Seq::<Seq<char>>::empty());
        assert(fs.push(f).drop_first() =~= Seq::<bool>::empty());
        assert(hs.push(h).drop_first() =~= Seq::<Seq<Seq<char>>>::empty());
        assert(which_lines(
            ns.push(n).drop_first(),
            fs.push(f).drop_first(),
            hs.push(h).drop_first(),
        ) =~= Seq::<Seq<char>>::empty());
        assert(which_lines(ns.push(n), fs.push(f), hs.push(h)) =~= which_lines(ns, fs, hs)
            + entry);
    } else {
        assert(ns.push(n)[0] == ns[0]);
        assert(fs.push(f)[0] == fs[0]);
        assert(hs.push(h)[0] == hs[0]);
        assert(ns.push(n).drop_first() =~= ns.drop_first().push(n));
        assert(fs.push(f).drop_first() =~= fs.drop_first().push(f));
        assert(hs.push(h).drop_first() =~= hs.drop_first().push(h));
        lemma_which_lines_snoc(ns.drop_first(), fs.drop_first(), hs.drop_first(), n, f, h);
        let head = (if fs[0] {
            seq![notice_line(ns[0])]
        } else {
            Seq::<Seq<char>>::empty()
        }) + hs[0];
        assert(head + (which_lines(ns.drop_first(), fs.drop_first(), hs.drop_first()) + entry)
            =~= (head + which_lines(ns.drop_first(), fs.drop_first(), hs.drop_first())) + entry);
    }
}

/// Names of the gathered per-name outcomes.
pub open spec fn found_names(found: Seq<(String, bool, Vec<String>)>) -> Seq<Seq<char>> {
    Seq::new(found.len(), |i: int| found[i].0@)
}

/// Built-in verdicts of the gathered per-name outcomes.
pub open spec fn found_flags(found: Seq<(String, bool, Vec<String>)>) -> Seq<bool> {
    Seq::new(found.len(), |i: int| found[i].1)
}

/// Views of one name's search hits.
pub open spec fn hit_views(hits: Seq<String>) -> Seq<Seq<char>> {
    Seq::new(hits.len(), |i: int| hits[i]@)
}

/// Search-hit views of the gathered per-name outcomes.
pub open spec fn found_hits(found: Seq<(String, bool, Vec<String>)>) -> Seq<Seq<Seq<char>>> {
    Seq::new(found.len(), |i: int| hit_views(found[i].2@))
}

/// The decision half of `which`, over per-name outcomes (name, built-in
/// test, search hits): exit code 0 exactly when every name counts as
/// located, and, unless silenced, the report lines in order, the
/// built-in notice for each built-in name, then that name's hits.
#[verifier::loop_isolation(false)]
pub fn which_report(found: &Vec<(String, bool, Vec<String>)>, silent: bool) -> (r: (i32, Vec<
    String,
>))
    ensures
        r.0 as int == which_code(found_flags(found@), found_hits(found@)),
        silent ==> r.1@.len() == 0,
        !silent ==> r.1@.len() == which_lines(
            found_names(found@),
            found_flags(found@),
            found_hits(found@),
        ).len() && (forall|i: int|
            0 <= i < r.1@.len() ==> (#[trigger] r.1@[i])@ == which_lines(
                found_names(found@),
                found_flags(found@),
                found_hits(found@),
            )[i]),
{
    let ghost ns = found_names(found@);
    let ghost fs = found_flags(found@);
    let ghost hs = found_hits(found@);
    let mut all_found = true;
    let mut lines: Vec<String> = Vec::new();
    let mut i: usize = 0;
    while i < found.len()
        invariant
            i <= found@.len(),
            all_found == (forall|j: int| 0 <= j < i ==> (#[trigger] fs[j]) || hs[j].len() > 0),
            silent ==> lines@.len() == 0,
            !silent ==> lines@.len() == which_lines(
                ns.take(i as int),
                fs.take(i as int),
                hs.take(i as int),
            ).len() && (forall|j: int|
                0 <= j < lines@.len() ==> (#[trigger] lines@[j])@ == which_lines(
                    ns.take(i as int),
                    fs.take(i as int),
                    hs.take(i as int),
                )[j]),
        decreases found@.len() - i,
    {
        let ghost lines0 = lines@;
        let ghost entry_target = (if fs[i as int] {
            seq![notice_line(ns[i as int])]
        } else {
            Seq::<Seq<char>>::empty()
        }) + hs[i as int];
        if !(found[i].1 || found[i].2.len() > 0) {
            all_found = false;
        }
        if !silent {
            if found[i].1 {
                let mut line = to_owned_string(found[i].0.as_str());
                line.append(": shell built-in command");
                lines.push(line);
            }
            let ghost lines1 = lines@;
            let mut k: usize = 0;
            while k < found[i].2.len()
                invariant
                    k <= found@[i as int].2@.len(),
                    lines@.len() == lines1.len() + k,
                    forall|j: int| 0 <= j < lines1.len() ==> lines@[j] == lines1[j],
                    forall|j: int| 0 <= j < k ==> (#[trigger] lines@[lines1.len() + j])@
                        == found@[i as int].2@[j]@,
                decreases found@[i as int].2@.len() - k,
            {
                lines.push(to_owned_string(found[i].2[k].as_str()));
                k = k + 1;
            }
            proof {
                assert(lines1.len() == lines0.len() + (if fs[i as int] {
                    1int
                } else {
                    0int
                }));
                assert(hs[i as int] == hit_views(found@[i as int].2@));
                assert(lines@.len() == lines0.len() + entry_target.len());
                assert forall|j: int| 0 <= j < lines@.len() implies (#[trigger] lines@[j])@
                    == (lines0.map_values(|x: String| x@) + entry_target)[j] by {
                    if j < lines0.len() {
                        assert(lines1[j] == lines0[j]);
                        assert(lines@[j] == lines1[j]);
                        assert((lines0.map_values(|x: String| x@))[j] == (lines0[j])@);
                    } else if fs[i as int] && j == lines0.len() {
                        assert(lines1[j] == lines0.push(lines1[j]).last());
                        assert(lines@[j] == lines1[j]);
                        assert((lines@[j])@ == notice_line(ns[i as int]));
                        assert(entry_target[0] == notice_line(ns[i as int]));
                    } else {
                        let jj = j - lines1.len();
                        assert(0 <= jj < found@[i as int].2@.len());
                        assert((lines@[lines1.len() + jj])@ == found@[i as int].2@[jj]@);
                        assert(lines1.len() + jj == j);
                        assert(hs[i as int][jj] == found@[i as int].2@[jj]@);
                        assert(entry_target[j - lines0.len()] == hs[i as int][jj]);
                    }
                }
            }
        }
        proof {
            lemma_which_lines_snoc(
                ns.take(i as int),
                fs.take(i as int),
                hs.take(i as int),
                ns[i as int],
                fs[i as int],
                hs[i as int],
            );
            assert(ns.take(i as int).push(ns[i as int]) =~= ns.take(i + 1));
            assert(fs.take(i as int).push(fs[i as int]) =~= fs.take(i + 1));
            assert(hs.take(i as int).push(hs[i as int]) =~= hs.take(i + 1));
            if !silent {
                let ghost prev_lines = which_lines(
                    ns.take(i as int),
                    fs.take(i as int),
                    hs.take(i as int),
                );
                assert(which_lines(ns.take(i + 1), fs.take(i + 1), hs.take(i + 1)) == prev_lines
                    + entry_target);
                assert(prev_lines.len() == lines0.len());
                assert forall|j: int| 0 <= j < lines@.len() implies (#[trigger] lines@[j])@
                    == which_lines(ns.take(i + 1), fs.take(i + 1), hs.take(i + 1))[j] by {
                    assert((lines@[j])@ == (lines0.map_values(|x: String| x@)
                        + entry_target)[j]);
                    if j < lines0.len() {
                        assert((lines0.map_values(|x: String| x@))[j] == (lines0[j])@);
                        assert((lines0[j])@ == prev_lines[j]);
                        assert((prev_lines + entry_target)[j] == prev_lines[j]);
                    } else {
                        assert((lines0.map_values(|x: String| x@) + entry_target)[j]
                            == entry_target[j - lines0.len()]);
                        assert((prev_lines + entry_target)[j] == entry_target[j
                            - lines0.len()]);
                    }
                }
            }
        }
        i = i + 1;
    }
    proof {
        assert(ns.take(found@.len() as int) =~= ns);
        assert(fs.take(found@.len() as int) =~= fs);
        assert(hs.take(found@.len() as int) =~= hs);
    }
    if all_found {
        (0, lines)
    } else {
        (1, lines)
    }
}

/// One valid outcome of a `which` run over the given names and search
/// directories: some per-name hit lists, each hit a candidate of a
/// searched nonempty directory, empty where a built-in name skipped the
/// search, at most one hit each unless all were asked for — with the
/// exit code and report lines exactly those of `which_code` and
/// `which_lines` over them.
pub open spec fn which_outcome(
    progs: Seq<Seq<char>>,
    dirs: Seq<Seq<char>>,
    show_all: bool,
    silent: bool,
    hitss: Seq<Seq<Seq<char>>>,
    code: int,
    lines: Seq<String>,
) -> bool {
    &&& hitss.len() == progs.len()
    &&& (forall|i: int|
        0 <= i < progs.len() && which_is_builtin(#[trigger] progs[i]) && !show_all
            ==> hitss[i].len() == 0)
    &&& (forall|i: int, k: int|
        0 <= i < progs.len() && 0 <= k < hitss[i].len() ==> is_candidate_of(
            #[trigger] hitss[i][k],
            dirs,
            progs[i],
        ))
    &&& (!show_all ==> (forall|i: int|
        0 <= i < progs.len() ==> (#[trigger] hitss[i]).len() <= 1))
    &&& code == which_code(builtin_flags(progs), hitss)
    &&& (silent ==> lines.len() == 0)
    &&& (!silent ==> lines.len() == which_lines(progs, builtin_flags(progs), hitss).len() && (
    forall|i: int|
        0 <= i < lines.len() ==> (#[trigger] lines[i])@ == which_lines(
            progs,
            builtin_flags(progs),
            hitss,
        )[i]))
}

/// Runs `which`: gathers, for each requested name, its built-in verdict
/// and (where searched) its `PATH` hits, then derives the verdict through
/// `which_report`. Which candidates hit is disk state; everything else is
/// pinned: no names is a usage error with its diagnostic, `-s` silences
/// all output, and the exit code and every report line are exactly
/// `which_code` and `which_lines` of the gathered outcomes.
#[verifier::loop_isolation(false)]
pub fn which(args: &Vec<String>, path_var: Option<&EnvValue>) -> (r: (i32, Vec<String>, Vec<
    String,
>))
    ensures
        which_programs(arg_views(args@)).len() == 0 ==> r.0 == 1 && r.1@.len() == 0 && (has_arg(
            args@,
            "-s"@,
        ) ==> r.2@.len() == 0) && (!has_arg(args@, "-s"@) ==> r.2@.len() == 1 && r.2@[0]@
            == "which: missing argument"@),
        which_programs(arg_views(args@)).len() > 0 ==> r.2@.len() == 0 && (exists|hitss: Seq<
            Seq<Seq<char>>,
        >|
            #[trigger] which_outcome(
                which_programs(arg_views(args@)),
                lenient_path_dirs(opt_val(path_var)),
                has_arg(args@, "-a"@),
                has_arg(args@, "-s"@),
                hitss,
                r.0 as int,
                r.1@,
            )),
        (which_programs(arg_views(args@)).len() > 0 && forall|i: int|
            0 <= i < which_programs(arg_views(args@)).len() ==> which_is_builtin(
                #[trigger] which_programs(arg_views(args@))[i],
            )) ==> r.0 == 0,
        has_arg(args@, "-s"@) ==> r.1@.len() == 0,
        r.0 == 0 || r.0 == 1,
{
    let query = which_parse(args);
    let ghost progs = which_programs(arg_views(args@));
    let ghost dirs = lenient_path_dirs(opt_val(path_var));
    if query.programs.len() == 0 {
        let mut err_lines: Vec<String> = Vec::new();
        if !query.silent {
            err_lines.push(to_owned_string("which: missing argument"));
        }
        return (1, Vec::new(), err_lines);
    }
    let mut found: Vec<(String, bool, Vec<String>)> = Vec::new();
    let mut i: usize = 0;
    while i < query.programs.len()
        invariant
            i <= query.programs@.len(),
            query.programs@.len() == progs.len(),
            forall|j: int| 0 <= j < progs.len() ==> (#[trigger] query.programs@[j])@ == progs[j],
            found@.len() == i,
            forall|j: int| 0 <= j < i ==> (#[trigger] found@[j]).0@ == progs[j],
            forall|j: int| 0 <= j < i ==> (#[trigger] found@[j]).1 == which_is_builtin(progs[j]),
            forall|j: int| 0 <= j < i ==> (which_is_builtin(progs[j]) && !query.show_all
                ==> (#[trigger] found@[j]).2@.len() == 0),
            forall|j: int, k: int| 0 <= j < i && 0 <= k < found@[j].2@.len() ==> is_candidate_of(
                (#[trigger] found@[j].2@[k])@,
                dirs,
                progs[j],
            ),
            !query.show_all ==> (forall|j: int| 0 <= j < i ==> (#[trigger] found@[j]).2@.len()
                <= 1),
        decreases query.programs@.len() - i,
    {
        let program = to_owned_string(query.programs[i].as_str());
        let is_builtin = match get_builtin(program.as_str()) {
            Some(_) => true,
            None => str_eq(program.as_str(), "source"),
        };
        let hits: Vec<String> = if !is_builtin || query.show_all {
            find_in_path(program.as_str(), path_var, query.show_all)
        } else {
            Vec::new()
        };
        found.push((program, is_builtin, hits));
        i = i + 1;
    }
    let (code, out_lines) = which_report(&found, query.silent);
    let empty_err: Vec<String> = Vec::new();
    let r = (code, out_lines, empty_err);
    proof {
        assert(found_names(found@) =~= progs);
        assert(found_flags(found@) =~= builtin_flags(progs));
        let witness = found_hits(found@);
        assert(which_outcome(
            progs,
            dirs,
            query.show_all,
            query.silent,
            witness,
            code as int,
            out_lines@,
        )) by {
            assert forall|a: int, k: int|
                0 <= a < progs.len() && 0 <= k < witness[a].len() implies is_candidate_of(
                #[trigger] witness[a][k],
                dirs,
                progs[a],
            ) by {
                assert(witness[a] == hit_views(found@[a].2@));
                assert(witness[a][k] == found@[a].2@[k]@);
            }
            assert forall|a: int|
                0 <= a < progs.len() && which_is_builtin(#[trigger] progs[a])
                    && !query.show_all implies witness[a].len() == 0 by {
                assert(found@[a].2@.len() == 0);
            }
            if !query.show_all {
                assert forall|a: int| 0 <= a < progs.len() implies (#[trigger] witness[a]).len()
                    <= 1 by {
                    assert(found@[a].2@.len() <= 1);
                }
            }
        }
        if forall|a: int| 0 <= a < progs.len() ==> which_is_builtin(#[trigger] progs[a]) {
            assert forall|a: int| 0 <= a < found_flags(found@).len() implies (
            #[trigger] found_flags(found@)[a]) || found_hits(found@)[a].len() > 0 by {
                assert(found_flags(found@)[a] == which_is_builtin(progs[a]));
            }
            assert(which_code(found_flags(found@), found_hits(found@)) == 0);
        }
        assert(query.show_all == has_arg(args@, "-a"@));
        assert(query.silent == has_arg(args@, "-s"@));
        assert(r.0 == code && r.1@ == out_lines@ && r.2@.len() == 0);
        assert(which_outcome(
            which_programs(arg_views(args@)),
            lenient_path_dirs(opt_val(path_var)),
            has_arg(args@, "-a"@),
            has_arg(args@, "-s"@),
            witness,
            r.0 as int,
            r.1@,
        ));
    }
    r
}

} // verus!
