//! The typed shell environment store: an open table of named values with
//! unique keys, reserved slots for distinguished names (`?`, `$`, `PPID`,
//! `OLDPWD`, `PS1`, `PS2`, `PS4`), and a directory stack. Reads return
//! snapshot copies; reserved slots are invisible to enumeration and are
//! not exported to child processes.

use vstd::prelude::*;
use crate::envvalue::{EnvValue, Val, parse_from_string, parse_text};
use crate::strutil::{str_eq, to_owned_string};
use crate::sysinfo::{current_pid, parent_pid};

verus! {

/// Last-wins lookup over an association list of environment entries.
pub open spec fn assoc_lookup(entries: Seq<(String, EnvValue)>, k: Seq<char>) -> Option<Val>
    decreases entries,
{
    if entries.len() == 0 {
        None
    } else if entries.last().0@ == k {
        Some(entries.last().1@)
    } else {
        assoc_lookup(entries.drop_last(), k)
    }
}

/// All keys of the association list are distinct.
pub open spec fn keys_distinct(entries: Seq<(String, EnvValue)>) -> bool {
    forall|i: int, j: int|
        0 <= i < j < entries.len() ==> (#[trigger] entries[i]).0@ != (#[trigger] entries[j]).0@
}

/// The names routed to reserved slots rather than the open table.
pub open spec fn is_distinguished(k: Seq<char>) -> bool {
    k == "?"@ || k == "$"@ || k == "PPID"@ || k == "OLDPWD"@ || k == "PS1"@ || k == "PS2"@ || k
        == "PS4"@
}

pub proof fn lemma_assoc_lookup_at(entries: Seq<(String, EnvValue)>, i: int)
    requires
        keys_distinct(entries),
        0 <= i < entries.len(),
    ensures
        assoc_lookup(entries, entries[i].0@) == Some(entries[i].1@),
    decreases entries,
{
    if i < entries.len() - 1 {
        assert(entries.last().0@ != entries[i].0@);
        assert(entries.drop_last()[i] == entries[i]);
        lemma_assoc_lookup_at(entries.drop_last(), i);
    }
}

pub proof fn lemma_assoc_lookup_absent(entries: Seq<(String, EnvValue)>, k: Seq<char>)
    requires
        forall|i: int| 0 <= i < entries.len() ==> (#[trigger] entries[i]).0@ != k,
    ensures
        assoc_lookup(entries, k) is None,
    decreases entries,
{
    if entries.len() > 0 {
        lemma_assoc_lookup_absent(entries.drop_last(), k);
    }
}

pub proof fn lemma_assoc_remove(entries: Seq<(String, EnvValue)>, i: int, k: Seq<char>)
    requires
        keys_distinct(entries),
        0 <= i < entries.len(),
    ensures
        assoc_lookup(entries.remove(i), k) == if entries[i].0@ == k {
            None
        } else {
            assoc_lookup(entries, k)
        },
    decreases entries,
{
    let removed = entries.remove(i);
    if i == entries.len() - 1 {
        assert(removed =~= entries.drop_last());
        if entries[i].0@ == k {
            assert(forall|j: int|
                0 <= j < removed.len() ==> (#[trigger] removed[j]).0@ != k);
            lemma_assoc_lookup_absent(removed, k);
        }
    } else {
        assert(removed.last() == entries.last());
        assert(removed.drop_last() =~= entries.drop_last().remove(i));
        assert(keys_distinct(entries.drop_last())) by {
            assert(forall|a: int, b: int|
                0 <= a < b < entries.drop_last().len() ==> (#[trigger] entries.drop_last()[a]).0@
                    != (#[trigger] entries.drop_last()[b]).0@);
        }
        assert(entries.drop_last()[i] == entries[i]);
        lemma_assoc_remove(entries.drop_last(), i, k);
    }
}

pub proof fn lemma_keys_distinct_remove(entries: Seq<(String, EnvValue)>, i: int)
    requires
        keys_distinct(entries),
        0 <= i < entries.len(),
    ensures
        keys_distinct(entries.remove(i)),
{
    let removed = entries.remove(i);
    assert forall|a: int, b: int| 0 <= a < b < removed.len() implies (#[trigger] removed[a]).0@ != (
    #[trigger] removed[b]).0@ by {
        let a0 = if a < i {
            a
        } else {
            a + 1
        };
        let b0 = if b < i {
            b
        } else {
            b + 1
        };
        assert(removed[a] == entries[a0]);
        assert(removed[b] == entries[b0]);
    }
}

/// The seven distinguished names are pairwise distinct.
pub proof fn lemma_distinguished_names()
    ensures
        "?"@ != "$"@,
        "?"@ != "PPID"@,
        "?"@ != "OLDPWD"@,
        "?"@ != "PS1"@,
        "?"@ != "PS2"@,
        "?"@ != "PS4"@,
        "$"@ != "PPID"@,
        "$"@ != "OLDPWD"@,
        "$"@ != "PS1"@,
        "$"@ != "PS2"@,
        "$"@ != "PS4"@,
        "PPID"@ != "OLDPWD"@,
        "PPID"@ != "PS1"@,
        "PPID"@ != "PS2"@,
        "PPID"@ != "PS4"@,
        "OLDPWD"@ != "PS1"@,
        "OLDPWD"@ != "PS2"@,
        "OLDPWD"@ != "PS4"@,
        "PS1"@ != "PS2"@,
        "PS1"@ != "PS4"@,
        "PS2"@ != "PS4"@,
{
    reveal_strlit("?");
    reveal_strlit("$");
    reveal_strlit("PPID");
    reveal_strlit("OLDPWD");
    reveal_strlit("PS1");
    reveal_strlit("PS2");
    reveal_strlit("PS4");
    assert("?"@.len() == 1);
    assert("$"@.len() == 1);
    assert("PPID"@.len() == 4);
    assert("OLDPWD"@.len() == 6);
    assert("PS1"@.len() == 3);
    assert("PS2"@.len() == 3);
    assert("PS4"@.len() == 3);
    assert("?"@[0] == '?');
    assert("$"@[0] == '$');
    assert("PS1"@[2] == '1');
    assert("PS2"@[2] == '2');
    assert("PS4"@[2] == '4');
}

/// The typed environment store.
pub struct ShellEnvironment {
    vars: Vec<(String, EnvValue)>,
    dir_stack: Vec<String>,
    last_exit: EnvValue,
    pid: EnvValue,
    ppid: EnvValue,
    old_pwd: EnvValue,
    ps1: EnvValue,
    ps2: EnvValue,
    ps4: EnvValue,
}

impl ShellEnvironment {
    /// Entries of the open table, in storage order.
    pub closed spec fn entries(&self) -> Seq<(String, EnvValue)> {
        self.vars@
    }

    pub closed spec fn dirs(&self) -> Seq<Seq<char>> {
        Seq::new(self.dir_stack@.len(), |i: int| self.dir_stack@[i]@)
    }

    pub closed spec fn last_exit_val(&self) -> Val {
        self.last_exit@
    }

    pub closed spec fn pid_val(&self) -> Val {
        self.pid@
    }

    pub closed spec fn ppid_val(&self) -> Val {
        self.ppid@
    }

    pub closed spec fn old_pwd_val(&self) -> Val {
        self.old_pwd@
    }

    pub closed spec fn ps1_val(&self) -> Val {
        self.ps1@
    }

    pub closed spec fn ps2_val(&self) -> Val {
        self.ps2@
    }

    pub closed spec fn ps4_val(&self) -> Val {
        self.ps4@
    }

    /// Well-formedness: open-table keys are unique and never distinguished.
    pub open spec fn wf(&self) -> bool {
        keys_distinct(self.entries()) && forall|i: int|
            0 <= i < self.entries().len() ==> !is_distinguished(
                (#[trigger] self.entries()[i]).0@,
            )
    }

    /// Value a read of `k` observes: reserved slots for distinguished
    /// names, the open table otherwise.
    pub open spec fn spec_get(&self, k: Seq<char>) -> Option<Val> {
        if k == "?"@ {
            Some(self.last_exit_val())
        } else if k == "$"@ {
            Some(self.pid_val())
        } else if k == "PPID"@ {
            Some(self.ppid_val())
        } else if k == "OLDPWD"@ {
            Some(self.old_pwd_val())
        } else if k == "PS1"@ {
            Some(self.ps1_val())
        } else if k == "PS2"@ {
            Some(self.ps2_val())
        } else if k == "PS4"@ {
            Some(self.ps4_val())
        } else {
            assoc_lookup(self.entries(), k)
        }
    }

    /// A fresh store: empty table, zero last exit, process identity from
    /// the system, empty prompts and directory stack.
    pub fn new() -> (r: ShellEnvironment)
        ensures
            r.wf(),
            r.entries() =~= Seq::<(String, EnvValue)>::empty(),
            r.dirs() =~= Seq::<Seq<char>>::empty(),
            r.last_exit_val() == Val::Integer(0),
            r.pid_val() is Integer,
            r.ppid_val() is Integer,
            r.old_pwd_val() == Val::Nil,
            r.ps1_val() == Val::Nil,
            r.ps2_val() == Val::Nil,
            r.ps4_val() == Val::Nil,
    {
        ShellEnvironment {
            vars: Vec::new(),
            dir_stack: Vec::new(),
            last_exit: EnvValue::Integer(0),
            pid: EnvValue::Integer(current_pid()),
            ppid: EnvValue::Integer(parent_pid()),
            old_pwd: EnvValue::Nil,
            ps1: EnvValue::Nil,
            ps2: EnvValue::Nil,
            ps4: EnvValue::Nil,
        }
    }

    /// Snapshot read of a variable. Distinguished names are served from
    /// their reserved slots and always present.
    pub fn get(&self, key: &str) -> (r: Option<EnvValue>)
        requires
            self.wf(),
        ensures
            match r {
                Some(v) => self.spec_get(key@) == Some(v@),
                None => self.spec_get(key@) is None,
            },
    {
        if str_eq(key, "?") {
            return Some(self.last_exit.duplicate());
        }
        if str_eq(key, "$") {
            return Some(self.pid.duplicate());
        }
        if str_eq(key, "PPID") {
            return Some(self.ppid.duplicate());
        }
        if str_eq(key, "OLDPWD") {
            return Some(self.old_pwd.duplicate());
        }
        if str_eq(key, "PS1") {
            return Some(self.ps1.duplicate());
        }
        if str_eq(key, "PS2") {
            return Some(self.ps2.duplicate());
        }
        if str_eq(key, "PS4") {
            return Some(self.ps4.duplicate());
        }
        match self.find_key(key) {
            Some(i) => {
                proof {
                    lemma_assoc_lookup_at(self.entries(), i as int);
                }
                Some(self.vars[i].1.duplicate())
            },
            None => {
                proof {
                    lemma_assoc_lookup_absent(self.entries(), key@);
                }
                None
            },
        }
    }

    /// Index of a key in the open table, scanning in storage order.
    fn find_key(&self, key: &str) -> (r: Option<usize>)
        ensures
            match r {
                Some(i) => i < self.entries().len() && self.entries()[i as int].0@ == key@,
                None => forall|j: int|
                    0 <= j < self.entries().len() ==> (#[trigger] self.entries()[j]).0@ != key@,
            },
    {
        let mut i: usize = 0;
        while i < self.vars.len()
            invariant
                i <= self.vars@.len(),
                forall|j: int| 0 <= j < i ==> (#[trigger] self.vars@[j]).0@ != key@,
            decreases self.vars@.len() - i,
        {
            if str_eq(self.vars[i].0.as_str(), key) {
                return Some(i);
            }
            i = i + 1;
        }
        None
    }

    /// Writes a variable: distinguished names to their slots, all others
    /// into the open table, inserting or overwriting.
    pub fn set(&mut self, key: String, value: EnvValue)
        requires
            old(self).wf(),
        ensures
            final(self).wf(),
            final(self).spec_get(key@) == Some(value@),
            forall|k2: Seq<char>| k2 != key@ ==> final(self).spec_get(k2) == old(self).spec_get(
                k2,
            ),
            final(self).dirs() == old(self).dirs(),
            is_distinguished(key@) ==> final(self).entries() == old(self).entries(),
    {
        if str_eq(key.as_str(), "?") {
            self.last_exit = value;
            return;
        }
        if str_eq(key.as_str(), "$") {
            self.pid = value;
            return;
        }
        if str_eq(key.as_str(), "PPID") {
            self.ppid = value;
            return;
        }
        if str_eq(key.as_str(), "OLDPWD") {
            self.old_pwd = value;
            return;
        }
        if str_eq(key.as_str(), "PS1") {
            self.ps1 = value;
            return;
        }
        if str_eq(key.as_str(), "PS2") {
            self.ps2 = value;
            return;
        }
        if str_eq(key.as_str(), "PS4") {
            self.ps4 = value;
            return;
        }
        let ghost entries0 = self.vars@;
        let ghost kq = key@;
        let ghost vq = value@;
        match self.find_key(key.as_str()) {
            Some(i) => {
                let _ = self.vars.remove(i);
                let ghost entries1 = self.vars@;
                proof {
                    assert(entries1 == entries0.remove(i as int));
                    lemma_keys_distinct_remove(entries0, i as int);
                    assert forall|j: int| 0 <= j < entries1.len() implies !is_distinguished(
                        (#[trigger] entries1[j]).0@,
                    ) by {
                        let j0 = if j < i as int {
                            j
                        } else {
                            j + 1
                        };
                        assert(entries1[j] == entries0[j0]);
                    }
                    assert(entries0[i as int].0@ == kq);
                }
                self.vars.push((key, value));
                proof {
                    let e = self.vars@.last();
                    assert(e.0@ == kq && e.1@ == vq);
                    assert(self.vars@.drop_last() =~= entries1);
                    assert forall|k2: Seq<char>| #[trigger] assoc_lookup(self.vars@, k2)
                        == (if k2 == kq {
                        Some(vq)
                    } else {
                        assoc_lookup(entries0, k2)
                    }) by {
                        lemma_assoc_remove(entries0, i as int, k2);
                    }
                    assert(keys_distinct(self.vars@)) by {
                        assert forall|a: int, b: int| 0 <= a < b < self.vars@.len() implies (
                        #[trigger] self.vars@[a]).0@ != (#[trigger] self.vars@[b]).0@ by {
                            if b == self.vars@.len() - 1 {
                                assert(self.vars@[a] == entries1[a]);
                                let a0 = if a < i as int {
                                    a
                                } else {
                                    a + 1
                                };
                                assert(entries1[a] == entries0[a0]);
                                assert(self.vars@[b].0@ == kq);
                            } else {
                                assert(self.vars@[a] == entries1[a]);
                                assert(self.vars@[b] == entries1[b]);
                            }
                        }
                    }
                    assert forall|j: int| 0 <= j < self.vars@.len() implies !is_distinguished(
                        (#[trigger] self.vars@[j]).0@,
                    ) by {
                        if j < self.vars@.len() - 1 {
                            assert(self.vars@[j] == entries1[j]);
                        }
                    }
                }
            },
            None => {
                self.vars.push((key, value));
                proof {
                    let e = self.vars@.last();
                    assert(e.0@ == kq && e.1@ == vq);
                    assert(self.vars@.drop_last() =~= entries0);
                    assert forall|k2: Seq<char>| #[trigger] assoc_lookup(self.vars@, k2)
                        == (if k2 == kq {
                        Some(vq)
                    } else {
                        assoc_lookup(entries0, k2)
                    }) by {
                        if k2 != kq {
                            assert(assoc_lookup(self.vars@, k2) == assoc_lookup(entries0, k2));
                        }
                    }
                    assert(keys_distinct(self.vars@)) by {
                        assert forall|a: int, b: int| 0 <= a < b < self.vars@.len() implies (
                        #[trigger] self.vars@[a]).0@ != (#[trigger] self.vars@[b]).0@ by {
                            if b == self.vars@.len() - 1 {
                                assert(self.vars@[a] == entries0[a]);
                            } else {
                                assert(self.vars@[a] == entries0[a]);
                                assert(self.vars@[b] == entries0[b]);
                            }
                        }
                    }
                    assert forall|j: int| 0 <= j < self.vars@.len() implies !is_distinguished(
                        (#[trigger] self.vars@[j]).0@,
                    ) by {
                        if j < self.vars@.len() - 1 {
                            assert(self.vars@[j] == entries0[j]);
                        }
                    }
                }
            },
        }
    }

    /// Removes a variable from the open table only; reserved slots cannot
    /// be removed. Returns the removed value.
    pub fn unset(&mut self, key: &str) -> (r: Option<EnvValue>)
        requires
            old(self).wf(),
        ensures
            final(self).wf(),
            final(self).spec_get(key@) == if is_distinguished(key@) {
                old(self).spec_get(key@)
            } else {
                None::<Val>
            },
            forall|k2: Seq<char>| k2 != key@ ==> final(self).spec_get(k2) == old(self).spec_get(
                k2,
            ),
            final(self).dirs() == old(self).dirs(),
            match r {
                Some(v) => assoc_lookup(old(self).entries(), key@) == Some(v@),
                None => assoc_lookup(old(self).entries(), key@) is None,
            },
    {
        let ghost entries0 = self.vars@;
        match self.find_key(key) {
            Some(i) => {
                proof {
                    lemma_assoc_lookup_at(entries0, i as int);
                    lemma_keys_distinct_remove(entries0, i as int);
                    assert forall|j: int| 0 <= j < entries0.remove(i as int).len() implies
                        !is_distinguished((#[trigger] entries0.remove(i as int)[j]).0@) by {
                        let j0 = if j < i as int {
                            j
                        } else {
                            j + 1
                        };
                        assert(entries0.remove(i as int)[j] == entries0[j0]);
                    }
                    assert forall|k2: Seq<char>| true implies #[trigger] assoc_lookup(
                        entries0.remove(i as int),
                        k2,
                    ) == (if k2 == entries0[i as int].0@ {
                        None::<Val>
                    } else {
                        assoc_lookup(entries0, k2)
                    }) by {
                        lemma_assoc_remove(entries0, i as int, k2);
                    }
                }
                let e = self.vars.remove(i);
                Some(e.1)
            },
            None => {
                proof {
                    lemma_assoc_lookup_absent(entries0, key@);
                }
                None
            },
        }
    }

    /// Whether the open table holds `key`; reserved slots are not seen.
    pub fn contains_key(&self, key: &str) -> (r: bool)
        requires
            self.wf(),
        ensures
            r == (assoc_lookup(self.entries(), key@) is Some),
    {
        match self.find_key(key) {
            Some(i) => {
                proof {
                    lemma_assoc_lookup_at(self.entries(), i as int);
                }
                true
            },
            None => {
                proof {
                    lemma_assoc_lookup_absent(self.entries(), key@);
                }
                false
            },
        }
    }

    /// Number of open-table variables.
    pub fn len(&self) -> (r: usize)
        ensures
            r == self.entries().len(),
    {
        self.vars.len()
    }

    /// Keys of the open table, in storage order.
    pub fn keys(&self) -> (r: Vec<String>)
        ensures
            r@.len() == self.entries().len(),
            forall|i: int| 0 <= i < r@.len() ==> (#[trigger] r@[i])@ == self.entries()[i].0@,
    {
        let mut out: Vec<String> = Vec::new();
        let mut i: usize = 0;
        while i < self.vars.len()
            invariant
                i <= self.vars@.len(),
                out@.len() == i,
                forall|j: int| 0 <= j < i ==> (#[trigger] out@[j])@ == self.vars@[j].0@,
            decreases self.vars@.len() - i,
        {
            out.push(to_owned_string(self.vars[i].0.as_str()));
            i = i + 1;
        }
        out
    }

    /// Snapshot of the open table's entries.
    pub fn all_vars(&self) -> (r: Vec<(String, EnvValue)>)
        ensures
            r@.len() == self.entries().len(),
            forall|i: int| 0 <= i < r@.len() ==> (#[trigger] r@[i]).0@ == self.entries()[i].0@
                && r@[i].1@ == self.entries()[i].1@,
    {
        let mut out: Vec<(String, EnvValue)> = Vec::new();
        let mut i: usize = 0;
        while i < self.vars.len()
            invariant
                i <= self.vars@.len(),
                out@.len() == i,
                forall|j: int| 0 <= j < i ==> (#[trigger] out@[j]).0@ == self.vars@[j].0@
                    && out@[j].1@ == self.vars@[j].1@,
            decreases self.vars@.len() - i,
        {
            let entry = (
                to_owned_string(self.vars[i].0.as_str()),
                self.vars[i].1.duplicate(),
            );
            out.push(entry);
            i = i + 1;
        }
        out
    }

    /// Materializes the open table as `KEY=VALUE` lines for exec; reserved
    /// slots are excluded, and empty projections are still emitted.
    pub fn to_envp(&self) -> (r: Vec<String>)
        ensures
            r@.len() == self.entries().len(),
            forall|i: int| 0 <= i < r@.len() ==> (#[trigger] r@[i])@ == self.entries()[i].0@
                + seq!['='] + crate::envvalue::project(self.entries()[i].1@),
    {
        proof {
            reveal_strlit("=");
        }
        let mut out: Vec<String> = Vec::new();
        let mut i: usize = 0;
        while i < self.vars.len()
            invariant
                i <= self.vars@.len(),
                out@.len() == i,
                forall|j: int| 0 <= j < i ==> (#[trigger] out@[j])@ == self.vars@[j].0@
                    + seq!['='] + crate::envvalue::project(self.vars@[j].1@),
            decreases self.vars@.len() - i,
        {
            let mut line = to_owned_string(self.vars[i].0.as_str());
            line.append("=");
            let repr = self.vars[i].1.to_string_repr();
            line.append(repr.as_str());
            proof {
                reveal_strlit("=");
                assert(("=")@ =~= seq!['=']);
            }
            out.push(line);
            i = i + 1;
        }
        out
    }

    /// Pushes a directory onto the directory stack.
    pub fn push_dir(&mut self, dir: String)
        ensures
            final(self).dirs() == old(self).dirs().push(dir@),
            final(self).entries() == old(self).entries(),
            forall|k: Seq<char>| final(self).spec_get(k) == old(self).spec_get(k),
            final(self).wf() == old(self).wf(),
    {
        self.dir_stack.push(dir);
        proof {
            assert(self.dirs() =~= old(self).dirs().push(dir@));
        }
    }

    /// Pops the most recently pushed directory, if any.
    pub fn pop_dir(&mut self) -> (r: Option<String>)
        ensures
            final(self).entries() == old(self).entries(),
            forall|k: Seq<char>| final(self).spec_get(k) == old(self).spec_get(k),
            final(self).wf() == old(self).wf(),
            match r {
                Some(d) => old(self).dirs().len() > 0 && d@ == old(self).dirs().last()
                    && final(self).dirs() == old(self).dirs().drop_last(),
                None => old(self).dirs().len() == 0 && final(self).dirs() == old(self).dirs(),
            },
    {
        let r = self.dir_stack.pop();
        proof {
            match r {
                Some(_) => {
                    assert(self.dirs() =~= old(self).dirs().drop_last());
                },
                None => {
                    assert(self.dirs() =~= old(self).dirs());
                },
            }
        }
        r
    }

    /// The directory stack, oldest first.
    pub fn dir_stack(&self) -> (r: &Vec<String>)
        ensures
            r@.len() == self.dirs().len(),
            forall|i: int| 0 <= i < r@.len() ==> (#[trigger] r@[i])@ == self.dirs()[i],
    {
        &self.dir_stack
    }

    /// Records the exit code of the last executed command in the `?` slot.
    pub fn set_last_exit(&mut self, code: u8)
        ensures
            final(self).spec_get("?"@) == Some(Val::Integer(code as int)),
            forall|k2: Seq<char>| k2 != "?"@ ==> final(self).spec_get(k2) == old(self).spec_get(
                k2,
            ),
            final(self).entries() == old(self).entries(),
            final(self).dirs() == old(self).dirs(),
            final(self).wf() == old(self).wf(),
    {
        self.last_exit = EnvValue::Integer(code as i64);
    }
}

/// Views of the key/value string pairs of an inherited OS environment.
pub open spec fn pair_views(pairs: Seq<(String, String)>) -> Seq<(Seq<char>, Seq<char>)> {
    Seq::new(pairs.len(), |i: int| (pairs[i].0@, pairs[i].1@))
}

/// Last-wins parsed lookup over inherited pairs.
pub open spec fn boot_lookup(pairs: Seq<(Seq<char>, Seq<char>)>, k: Seq<char>) -> Option<Val>
    decreases pairs,
{
    if pairs.len() == 0 {
        None
    } else if pairs.last().0 == k {
        Some(parse_text(pairs.last().1))
    } else {
        boot_lookup(pairs.drop_last(), k)
    }
}

impl ShellEnvironment {
    /// A store initialized from inherited key/value pairs, each value put
    /// through the typed parse, with distinguished names routed to their
    /// reserved slots.
    pub fn from_parent(pairs: &Vec<(String, String)>) -> (r: ShellEnvironment)
        ensures
            r.wf(),
            forall|k: Seq<char>| !is_distinguished(k) ==> #[trigger] assoc_lookup(r.entries(), k)
                == boot_lookup(pair_views(pairs@), k),
            r.last_exit_val() == (match boot_lookup(pair_views(pairs@), "?"@) {
                Some(v) => v,
                None => Val::Integer(0),
            }),
            (match boot_lookup(pair_views(pairs@), "$"@) {
                Some(v) => r.pid_val() == v,
                None => r.pid_val() is Integer,
            }),
            (match boot_lookup(pair_views(pairs@), "PPID"@) {
                Some(v) => r.ppid_val() == v,
                None => r.ppid_val() is Integer,
            }),
            r.old_pwd_val() == (match boot_lookup(pair_views(pairs@), "OLDPWD"@) {
                Some(v) => v,
                None => Val::Nil,
            }),
            r.ps1_val() == (match boot_lookup(pair_views(pairs@), "PS1"@) {
                Some(v) => v,
                None => Val::Nil,
            }),
            r.ps2_val() == (match boot_lookup(pair_views(pairs@), "PS2"@) {
                Some(v) => v,
                None => Val::Nil,
            }),
            r.ps4_val() == (match boot_lookup(pair_views(pairs@), "PS4"@) {
                Some(v) => v,
                None => Val::Nil,
            }),
            r.dirs() =~= Seq::<Seq<char>>::empty(),
    {
        let ghost pv = pair_views(pairs@);
        let mut env = ShellEnvironment::new();
        let mut i: usize = 0;
        while i < pairs.len()
            invariant
                i <= pairs@.len(),
                pv == pair_views(pairs@),
                pv.len() == pairs@.len(),
                env.wf(),
                forall|k: Seq<char>| !is_distinguished(k) ==> #[trigger] assoc_lookup(
                    env.entries(),
                    k,
                ) == boot_lookup(pv.take(i as int), k),
                env.last_exit_val() == (match boot_lookup(pv.take(i as int), "?"@) {
                    Some(v) => v,
                    None => Val::Integer(0),
                }),
                (match boot_lookup(pv.take(i as int), "$"@) {
                    Some(v) => env.pid_val() == v,
                    None => env.pid_val() is Integer,
                }),
                (match boot_lookup(pv.take(i as int), "PPID"@) {
                    Some(v) => env.ppid_val() == v,
                    None => env.ppid_val() is Integer,
                }),
                env.old_pwd_val() == (match boot_lookup(pv.take(i as int), "OLDPWD"@) {
                    Some(v) => v,
                    None => Val::Nil,
                }),
                env.ps1_val() == (match boot_lookup(pv.take(i as int), "PS1"@) {
                    Some(v) => v,
                    None => Val::Nil,
                }),
                env.ps2_val() == (match boot_lookup(pv.take(i as int), "PS2"@) {
                    Some(v) => v,
                    None => Val::Nil,
                }),
                env.ps4_val() == (match boot_lookup(pv.take(i as int), "PS4"@) {
                    Some(v) => v,
                    None => Val::Nil,
                }),
                env.dirs() =~= Seq::<Seq<char>>::empty(),
            decreases pairs@.len() - i,
        {
            proof {
                assert(pv.take(i as int).len() == i);
            }
            let key = to_owned_string(pairs[i].0.as_str());
            let value = parse_from_string(pairs[i].1.as_str());
            proof {
                assert(pv[i as int] == (pairs@[i as int].0@, pairs@[i as int].1@));
                assert(key@ == pv[i as int].0);
                assert(value@ == parse_text(pv[i as int].1));
            }
            let ghost env_before = env;
            env.set(key, value);
            proof {
                lemma_distinguished_names();
                assert(env_before.spec_get("?"@) == Some(env_before.last_exit_val()));
                assert(env.spec_get("?"@) == Some(env.last_exit_val()));
                assert(env_before.spec_get("$"@) == Some(env_before.pid_val()));
                assert(env.spec_get("$"@) == Some(env.pid_val()));
                assert(env_before.spec_get("PPID"@) == Some(env_before.ppid_val()));
                assert(env.spec_get("PPID"@) == Some(env.ppid_val()));
                assert(env_before.spec_get("OLDPWD"@) == Some(env_before.old_pwd_val()));
                assert(env.spec_get("OLDPWD"@) == Some(env.old_pwd_val()));
                assert(env_before.spec_get("PS1"@) == Some(env_before.ps1_val()));
                assert(env.spec_get("PS1"@) == Some(env.ps1_val()));
                assert(env_before.spec_get("PS2"@) == Some(env_before.ps2_val()));
                assert(env.spec_get("PS2"@) == Some(env.ps2_val()));
                assert(env_before.spec_get("PS4"@) == Some(env_before.ps4_val()));
                assert(env.spec_get("PS4"@) == Some(env.ps4_val()));
                let t1 = pv.take(i + 1);
                assert(t1.drop_last() =~= pv.take(i as int));
                assert(t1.last() == pv[i as int]);
                let ghost kq = pv[i as int].0;
                assert forall|k: Seq<char>| !is_distinguished(k) implies #[trigger] assoc_lookup(
                    env.entries(),
                    k,
                ) == boot_lookup(t1, k) by {
                    assert(env.spec_get(k) == assoc_lookup(env.entries(), k));
                    assert(env_before.spec_get(k) == assoc_lookup(env_before.entries(), k));
                    assert(boot_lookup(t1, k) == (if kq == k {
                        Some(parse_text(pv[i as int].1))
                    } else {
                        boot_lookup(pv.take(i as int), k)
                    }));
                    if is_distinguished(kq) {
                        assert(env.entries() == env_before.entries());
                        assert(k != kq);
                    }
                }
            }
            i = i + 1;
        }
        proof {
            assert(pv.take(pairs@.len() as int) =~= pv);
        }
        env
    }
}

/// The bootstrap names are not distinguished and pairwise distinct.
pub proof fn lemma_boot_names()
    ensures
        !is_distinguished("HOME"@),
        !is_distinguished("PWD"@),
        !is_distinguished("PATH"@),
        !is_distinguished("SHLVL"@),
        "HOME"@ != "PWD"@,
        "HOME"@ != "PATH"@,
        "HOME"@ != "SHLVL"@,
        "PWD"@ != "PATH"@,
        "PWD"@ != "SHLVL"@,
        "PATH"@ != "SHLVL"@,
{
    lemma_distinguished_names();
    reveal_strlit("HOME");
    reveal_strlit("PWD");
    reveal_strlit("PATH");
    reveal_strlit("SHLVL");
    reveal_strlit("?");
    reveal_strlit("$");
    reveal_strlit("PPID");
    reveal_strlit("OLDPWD");
    reveal_strlit("PS1");
    reveal_strlit("PS2");
    reveal_strlit("PS4");
    assert("HOME"@.len() == 4);
    assert("PWD"@.len() == 3);
    assert("PATH"@.len() == 5 - 1);
    assert("SHLVL"@.len() == 5);
    assert("HOME"@[0] == 'H');
    assert("PATH"@[0] == 'P');
    assert("PATH"@[1] == 'A');
    assert("PPID"@[1] == 'P');
    assert("PWD"@[1] == 'W');
    assert("PS1"@[1] == 'S');
    assert("PS2"@[1] == 'S');
    assert("PS4"@[1] == 'S');
}

/// The default `PATH` used when the inherited environment has none.
pub open spec fn default_path_val() -> Val {
    Val::List(seq![Val::FilePath("/usr/bin"@), Val::FilePath("/bin"@)])
}

/// Store bootstrap: parse the inherited environment, then derive `HOME`
/// from the given home directory, default `PWD` from the working
/// directory (or home), default `PATH`, and increment `SHLVL` (0 when
/// absent or not an integer, saturating at the integer maximum).
pub fn initialize(pairs: &Vec<(String, String)>, home: Option<&str>, cwd: Option<&str>) -> (r:
    ShellEnvironment)
    ensures
        r.wf(),
        r.spec_get("HOME"@) == Some(
            match home {
                Some(h) => if h@.len() > 0 {
                    Val::FilePath(h@)
                } else {
                    Val::Nil
                },
                None => Val::Nil,
            },
        ),
        r.spec_get("PWD"@) == Some(
            match boot_lookup(pair_views(pairs@), "PWD"@) {
                Some(v) => v,
                None => match cwd {
                    Some(c) => Val::FilePath(c@),
                    None => match home {
                        Some(h) => if h@.len() > 0 {
                            Val::FilePath(h@)
                        } else {
                            Val::Nil
                        },
                        None => Val::Nil,
                    },
                },
            },
        ),
        r.spec_get("PATH"@) == Some(
            match boot_lookup(pair_views(pairs@), "PATH"@) {
                Some(v) => v,
                None => default_path_val(),
            },
        ),
        r.spec_get("SHLVL"@) == Some(
            match boot_lookup(pair_views(pairs@), "SHLVL"@) {
                Some(Val::Integer(n)) => Val::Integer(
                    if n < i64::MAX {
                        n + 1
                    } else {
                        i64::MAX as int
                    },
                ),
                _ => Val::Integer(0),
            },
        ),
        forall|k: Seq<char>|
            !is_distinguished(k) && k != "HOME"@ && k != "PWD"@ && k != "PATH"@ && k != "SHLVL"@
                ==> #[trigger] assoc_lookup(r.entries(), k) == boot_lookup(pair_views(pairs@), k),
        r.spec_get("?"@) == Some(
            match boot_lookup(pair_views(pairs@), "?"@) {
                Some(v) => v,
                None => Val::Integer(0),
            },
        ),
{
    proof {
        lemma_boot_names();
        lemma_distinguished_names();
    }
    let mut env = ShellEnvironment::from_parent(pairs);
    let ghost pv = pair_views(pairs@);
    let ghost e0 = env;
    let home_value: EnvValue = match home {
        Some(h) => {
            if h.unicode_len() > 0 {
                EnvValue::FilePath(to_owned_string(h))
            } else {
                EnvValue::Nil
            }
        },
        None => EnvValue::Nil,
    };
    let home_copy = home_value.duplicate();
    env.set(to_owned_string("HOME"), home_value);
    let ghost e1 = env;
    match env.get("PWD") {
        Some(_) => {},
        None => {
            let pwd_value: EnvValue = match cwd {
                Some(c) => EnvValue::FilePath(to_owned_string(c)),
                None => home_copy,
            };
            env.set(to_owned_string("PWD"), pwd_value);
        },
    }
    let ghost e2 = env;
    match env.get("PATH") {
        Some(_) => {},
        None => {
            let mut dirs: Vec<EnvValue> = Vec::new();
            dirs.push(EnvValue::FilePath(to_owned_string("/usr/bin")));
            dirs.push(EnvValue::FilePath(to_owned_string("/bin")));
            let ghost dv = dirs@;
            let path_value = EnvValue::List(dirs);
            proof {
                crate::envvalue::lemma_vals_of(dv);
                assert(dv.len() == 2);
                assert(dv[0]@ == Val::FilePath("/usr/bin"@));
                assert(dv[1]@ == Val::FilePath("/bin"@));
                assert(crate::envvalue::vals_of(dv)[0] == crate::envvalue::val_of(dv[0]));
                assert(crate::envvalue::vals_of(dv)[1] == crate::envvalue::val_of(dv[1]));
                assert(crate::envvalue::vals_of(dv) =~= seq![
                    Val::FilePath("/usr/bin"@),
                    Val::FilePath("/bin"@),
                ]);
                assert(path_value@ == Val::List(crate::envvalue::vals_of(dv)));
                assert(path_value@ == default_path_val());
            }
            env.set(to_owned_string("PATH"), path_value);
        },
    }
    let ghost e3 = env;
    let level: i64 = match env.get("SHLVL") {
        Some(v) => {
            match v {
                EnvValue::Integer(n) => {
                    if n < i64::MAX {
                        n + 1
                    } else {
                        i64::MAX
                    }
                },
                _ => 0,
            }
        },
        None => 0,
    };
    env.set(to_owned_string("SHLVL"), EnvValue::Integer(level));
    proof {
        assert forall|k: Seq<char>|
            !is_distinguished(k) && k != "HOME"@ && k != "PWD"@ && k != "PATH"@ && k
                != "SHLVL"@ implies #[trigger] assoc_lookup(env.entries(), k) == boot_lookup(
            pv,
            k,
        ) by {
            assert(env.spec_get(k) == assoc_lookup(env.entries(), k));
            assert(e3.spec_get(k) == env.spec_get(k));
            assert(e2.spec_get(k) == e3.spec_get(k));
            assert(e1.spec_get(k) == e2.spec_get(k));
            assert(e0.spec_get(k) == e1.spec_get(k));
            assert(e0.spec_get(k) == assoc_lookup(e0.entries(), k));
            assert(assoc_lookup(e0.entries(), k) == boot_lookup(pv, k));
        }
    }
    env
}


/// Reads a variable from the store.
pub fn get_var(env: &ShellEnvironment, key: &str) -> (r: Option<EnvValue>)
    requires
        env.wf(),
    ensures
        match r {
            Some(v) => env.spec_get(key@) == Some(v@),
            None => env.spec_get(key@) is None,
        },
{
    env.get(key)
}

/// Writes a variable into the store.
pub fn set_var(env: &mut ShellEnvironment, key: String, value: EnvValue)
    requires
        old(env).wf(),
    ensures
        final(env).wf(),
        final(env).spec_get(key@) == Some(value@),
        forall|k2: Seq<char>| k2 != key@ ==> final(env).spec_get(k2) == old(env).spec_get(k2),
        final(env).dirs() == old(env).dirs(),
{
    env.set(key, value);
}

/// Removes a variable from the open table.
pub fn unset_var(env: &mut ShellEnvironment, key: &str) -> (r: Option<EnvValue>)
    requires
        old(env).wf(),
    ensures
        final(env).wf(),
        final(env).spec_get(key@) == if is_distinguished(key@) {
            old(env).spec_get(key@)
        } else {
            None::<Val>
        },
        forall|k2: Seq<char>| k2 != key@ ==> final(env).spec_get(k2) == old(env).spec_get(k2),
        match r {
            Some(v) => assoc_lookup(old(env).entries(), key@) == Some(v@),
            None => assoc_lookup(old(env).entries(), key@) is None,
        },
{
    env.unset(key)
}

/// Whether the open table holds the variable.
pub fn contains_var(env: &ShellEnvironment, key: &str) -> (r: bool)
    requires
        env.wf(),
    ensures
        r == (assoc_lookup(env.entries(), key@) is Some),
{
    env.contains_key(key)
}

/// Number of open-table variables.
pub fn var_count(env: &ShellEnvironment) -> (r: usize)
    ensures
        r == env.entries().len(),
{
    env.len()
}

/// Keys of the open table.
pub fn all_var_keys(env: &ShellEnvironment) -> (r: Vec<String>)
    ensures
        r@.len() == env.entries().len(),
        forall|i: int| 0 <= i < r@.len() ==> (#[trigger] r@[i])@ == env.entries()[i].0@,
{
    env.keys()
}

/// Snapshot of the open table.
pub fn all_vars(env: &ShellEnvironment) -> (r: Vec<(String, EnvValue)>)
    ensures
        r@.len() == env.entries().len(),
        forall|i: int| 0 <= i < r@.len() ==> (#[trigger] r@[i]).0@ == env.entries()[i].0@
            && r@[i].1@ == env.entries()[i].1@,
{
    env.all_vars()
}

/// Records the last exit code in the `?` slot; every later read of `?`
/// observes exactly this code.
pub fn set_last_exit(env: &mut ShellEnvironment, code: u8)
    ensures
        final(env).spec_get("?"@) == Some(Val::Integer(code as int)),
        forall|k2: Seq<char>| k2 != "?"@ ==> final(env).spec_get(k2) == old(env).spec_get(k2),
        final(env).entries() == old(env).entries(),
        final(env).dirs() == old(env).dirs(),
        final(env).wf() == old(env).wf(),
{
    env.set_last_exit(code);
}

/// Builds a store from the inherited environment pairs: every variable
/// parsed through the typed parse, the directory stack empty, and the
/// exit slot reset to zero unless the inherited pairs carry a `?` value.
pub fn init_from_parent(pairs: &Vec<(String, String)>) -> (r: ShellEnvironment)
    ensures
        r.wf(),
        forall|k: Seq<char>| !is_distinguished(k) ==> #[trigger] assoc_lookup(r.entries(), k)
            == boot_lookup(pair_views(pairs@), k),
        r.dirs() == Seq::<Seq<char>>::empty(),
        r.spec_get("?"@) == Some(
            match boot_lookup(pair_views(pairs@), "?"@) {
                Some(v) => v,
                None => Val::Integer(0),
            },
        ),
{
    ShellEnvironment::from_parent(pairs)
}

} // verus!
