//! Environment overlays: finite key/value maps attached to a runnable by
//! `with_env`, applied to the store for the duration of one execution and
//! then rolled back exactly. The scoping law is proved here: restoring the
//! snapshot returns every overlaid key to its prior state, whatever the
//! execution did in between.

use vstd::prelude::*;
use crate::envvalue::{EnvValue, Val};
use crate::environment::{
    ShellEnvironment, assoc_lookup, keys_distinct, is_distinguished, lemma_assoc_lookup_at,
    lemma_assoc_lookup_absent,
};
use crate::strutil::to_owned_string;

verus! {

/// An overlay of variable bindings with unique keys, ordered by insertion.
#[derive(Debug)]
pub struct EnvOverlay {
    entries: Vec<(String, EnvValue)>,
}

impl EnvOverlay {
    pub closed spec fn entries_seq(&self) -> Seq<(String, EnvValue)> {
        self.entries@
    }

    pub open spec fn wf(&self) -> bool {
        keys_distinct(self.entries_seq())
    }

    /// Binding of `k` in the overlay, if any.
    pub open spec fn olookup(&self, k: Seq<char>) -> Option<Val> {
        assoc_lookup(self.entries_seq(), k)
    }

    pub fn new() -> (r: EnvOverlay)
        ensures
            r.wf(),
            r.entries_seq() =~= Seq::<(String, EnvValue)>::empty(),
    {
        EnvOverlay { entries: Vec::new() }
    }

    /// Number of bindings.
    pub fn len(&self) -> (r: usize)
        ensures
            r == self.entries_seq().len(),
    {
        self.entries.len()
    }

    fn find_key(&self, key: &str) -> (r: Option<usize>)
        ensures
            match r {
                Some(i) => i < self.entries_seq().len() && self.entries_seq()[i as int].0@
                    == key@,
                None => forall|j: int|
                    0 <= j < self.entries_seq().len() ==> (#[trigger] self.entries_seq()[j]).0@
                        != key@,
            },
    {
        let mut i: usize = 0;
        while i < self.entries.len()
            invariant
                i <= self.entries@.len(),
                forall|j: int| 0 <= j < i ==> (#[trigger] self.entries@[j]).0@ != key@,
            decreases self.entries@.len() - i,
        {
            if crate::strutil::str_eq(self.entries[i].0.as_str(), key) {
                return Some(i);
            }
            i = i + 1;
        }
        None
    }

    /// Inserts or overwrites a binding; a new key goes to the end.
    pub fn insert(&mut self, key: String, value: EnvValue)
        requires
            old(self).wf(),
        ensures
            final(self).wf(),
            final(self).olookup(key@) == Some(value@),
            forall|k2: Seq<char>| k2 != key@ ==> final(self).olookup(k2) == old(self).olookup(
                k2,
            ),
            final(self).entries_seq().len() <= old(self).entries_seq().len() + 1,
    {
        let ghost entries0 = self.entries@;
        let ghost kq = key@;
        let ghost vq = value@;
        match self.find_key(key.as_str()) {
            Some(i) => {
                let _ = self.entries.remove(i);
                let ghost entries1 = self.entries@;
                proof {
                    crate::environment::lemma_keys_distinct_remove(entries0, i as int);
                    assert(entries0[i as int].0@ == kq);
                }
                self.entries.push((key, value));
                proof {
                    assert(self.entries@.drop_last() =~= entries1);
                    assert forall|k2: Seq<char>| #[trigger] assoc_lookup(self.entries@, k2)
                        == (if k2 == kq {
                        Some(vq)
                    } else {
                        assoc_lookup(entries0, k2)
                    }) by {
                        crate::environment::lemma_assoc_remove(entries0, i as int, k2);
                    }
                    assert(keys_distinct(self.entries@)) by {
                        assert forall|a: int, b: int| 0 <= a < b < self.entries@.len() implies (
                        #[trigger] self.entries@[a]).0@ != (#[trigger] self.entries@[b]).0@ by {
                            if b == self.entries@.len() - 1 {
                                assert(self.entries@[a] == entries1[a]);
                                let a0 = if a < i as int {
                                    a
                                } else {
                                    a + 1
                                };
                                assert(entries1[a] == entries0[a0]);
                            } else {
                                assert(self.entries@[a] == entries1[a]);
                                assert(self.entries@[b] == entries1[b]);
                            }
                        }
                    }
                }
            },
            None => {
                self.entries.push((key, value));
                proof {
                    assert(self.entries@.drop_last() =~= entries0);
                    assert(keys_distinct(self.entries@)) by {
                        assert forall|a: int, b: int| 0 <= a < b < self.entries@.len() implies (
                        #[trigger] self.entries@[a]).0@ != (#[trigger] self.entries@[b]).0@ by {
                            assert(self.entries@[a] == entries0[a]);
                            if b < self.entries@.len() - 1 {
                                assert(self.entries@[b] == entries0[b]);
                            }
                        }
                    }
                }
            },
        }
    }

    /// Deep copy of the overlay.
    pub fn duplicate(&self) -> (r: EnvOverlay)
        ensures
            r.entries_seq().len() == self.entries_seq().len(),
            forall|i: int| 0 <= i < r.entries_seq().len() ==> (#[trigger] r.entries_seq()[i]).0@
                == self.entries_seq()[i].0@ && r.entries_seq()[i].1@
                == self.entries_seq()[i].1@,
            r.wf() == self.wf(),
            forall|k: Seq<char>| #[trigger] r.olookup(k) == self.olookup(k),
            r.omodel() == self.omodel(),
    {
        let mut out: Vec<(String, EnvValue)> = Vec::new();
        let mut i: usize = 0;
        while i < self.entries.len()
            invariant
                i <= self.entries@.len(),
                out@.len() == i,
                forall|j: int| 0 <= j < i ==> (#[trigger] out@[j]).0@ == self.entries@[j].0@
                    && out@[j].1@ == self.entries@[j].1@,
            decreases self.entries@.len() - i,
        {
            let entry = (
                to_owned_string(self.entries[i].0.as_str()),
                self.entries[i].1.duplicate(),
            );
            out.push(entry);
            i = i + 1;
        }
        let r = EnvOverlay { entries: out };
        proof {
            lemma_assoc_congruent(r.entries_seq(), self.entries_seq());
            assert(r.omodel() =~= self.omodel());
        }
        r
    }

    /// Bindings in insertion order, as copies.
    pub fn items(&self) -> (r: Vec<(String, EnvValue)>)
        ensures
            r@.len() == self.entries_seq().len(),
            forall|i: int| 0 <= i < r@.len() ==> (#[trigger] r@[i]).0@
                == self.entries_seq()[i].0@ && r@[i].1@ == self.entries_seq()[i].1@,
    {
        let mut out: Vec<(String, EnvValue)> = Vec::new();
        let mut i: usize = 0;
        while i < self.entries.len()
            invariant
                i <= self.entries@.len(),
                out@.len() == i,
                forall|j: int| 0 <= j < i ==> (#[trigger] out@[j]).0@ == self.entries@[j].0@
                    && out@[j].1@ == self.entries@[j].1@,
            decreases self.entries@.len() - i,
        {
            let entry = (
                to_owned_string(self.entries[i].0.as_str()),
                self.entries[i].1.duplicate(),
            );
            out.push(entry);
            i = i + 1;
        }
        out
    }

    /// The overlay with every binding of `over` written over `self`; keys
    /// of `over` win, as a later `with_env` overrides an earlier one.
    pub fn merged(&self, over: &EnvOverlay) -> (r: EnvOverlay)
        requires
            self.wf(),
            over.wf(),
        ensures
            r.wf(),
            forall|k: Seq<char>| #[trigger] r.olookup(k) == if over.olookup(k) is Some {
                over.olookup(k)
            } else {
                self.olookup(k)
            },
    {
        let mut out = self.duplicate();
        let src = over.items();
        let ghost oseq = over.entries_seq();
        let mut i: usize = 0;
        while i < src.len()
            invariant
                i <= src@.len(),
                src@.len() == oseq.len(),
                forall|j: int| 0 <= j < src@.len() ==> (#[trigger] src@[j]).0@ == oseq[j].0@
                    && src@[j].1@ == oseq[j].1@,
                keys_distinct(oseq),
                out.wf(),
                forall|k: Seq<char>| #[trigger] out.olookup(k) == if assoc_lookup(
                    oseq.take(i as int),
                    k,
                ) is Some {
                    assoc_lookup(oseq.take(i as int), k)
                } else {
                    self.olookup(k)
                },
            decreases src@.len() - i,
        {
            let key = to_owned_string(src[i].0.as_str());
            let value = src[i].1.duplicate();
            out.insert(key, value);
            proof {
                assert(oseq.take(i + 1).drop_last() =~= oseq.take(i as int));
                assert(oseq.take(i + 1).last() == oseq[i as int]);
            }
            i = i + 1;
        }
        proof {
            assert(oseq.take(oseq.len() as int) =~= oseq);
        }
        out
    }
}

/// Last-wins lookup over an overlay model.
pub open spec fn model_lookup(entries: Seq<(Seq<char>, Val)>, k: Seq<char>) -> Option<Val>
    decreases entries,
{
    if entries.len() == 0 {
        None
    } else if entries.last().0 == k {
        Some(entries.last().1)
    } else {
        model_lookup(entries.drop_last(), k)
    }
}

/// An overlay's model lookup agrees with its own lookup.
pub proof fn lemma_model_lookup_olookup(entries: Seq<(String, EnvValue)>, k: Seq<char>)
    ensures
        model_lookup(
            Seq::new(entries.len(), |i: int| (entries[i].0@, entries[i].1@)),
            k,
        ) == assoc_lookup(entries, k),
    decreases entries,
{
    if entries.len() > 0 {
        let m = Seq::new(entries.len(), |i: int| (entries[i].0@, entries[i].1@));
        let md = Seq::new(
            entries.drop_last().len(),
            |i: int| (entries.drop_last()[i].0@, entries.drop_last()[i].1@),
        );
        assert(m.drop_last() =~= md);
        lemma_model_lookup_olookup(entries.drop_last(), k);
    }
}

impl EnvOverlay {
    /// Ordered model of the overlay: key and value views in insertion
    /// order.
    pub open spec fn omodel(&self) -> Seq<(Seq<char>, Val)> {
        Seq::new(
            self.entries_seq().len(),
            |i: int| (self.entries_seq()[i].0@, self.entries_seq()[i].1@),
        )
    }

    /// Structural equality of two overlays: same bindings in same order.
    pub fn same_entries(&self, other: &EnvOverlay) -> (r: bool)
        ensures
            r == (self.omodel() == other.omodel()),
    {
        if self.entries.len() != other.entries.len() {
            assert(self.omodel().len() != other.omodel().len());
            return false;
        }
        let mut i: usize = 0;
        while i < self.entries.len()
            invariant
                i <= self.entries@.len(),
                self.entries@.len() == other.entries@.len(),
                forall|j: int| 0 <= j < i ==> #[trigger] self.omodel()[j] == other.omodel()[j],
            decreases self.entries@.len() - i,
        {
            if !crate::strutil::str_eq(self.entries[i].0.as_str(), other.entries[i].0.as_str()) {
                assert(self.omodel()[i as int] != other.omodel()[i as int]);
                return false;
            }
            if !self.entries[i].1.equals(&other.entries[i].1) {
                assert(self.omodel()[i as int] != other.omodel()[i as int]);
                return false;
            }
            i = i + 1;
        }
        assert(self.omodel() =~= other.omodel());
        true
    }
}

/// Association lookups agree on lists equal entry for entry.
proof fn lemma_assoc_congruent(a: Seq<(String, EnvValue)>, b: Seq<(String, EnvValue)>)
    requires
        a.len() == b.len(),
        forall|i: int| 0 <= i < a.len() ==> (#[trigger] a[i]).0@ == b[i].0@ && a[i].1@
            == b[i].1@,
    ensures
        forall|k: Seq<char>| #[trigger] assoc_lookup(a, k) == assoc_lookup(b, k),
        keys_distinct(a) == keys_distinct(b),
    decreases a,
{
    if a.len() > 0 {
        assert forall|i: int| 0 <= i < a.drop_last().len() implies (
        #[trigger] a.drop_last()[i]).0@ == b.drop_last()[i].0@ && a.drop_last()[i].1@
            == b.drop_last()[i].1@ by {
            assert(a.drop_last()[i] == a[i]);
            assert(b.drop_last()[i] == b[i]);
        }
        lemma_assoc_congruent(a.drop_last(), b.drop_last());
        assert(a.last() == a[a.len() - 1]);
        assert(b.last() == b[b.len() - 1]);
        assert forall|k: Seq<char>| true implies #[trigger] assoc_lookup(a, k) == assoc_lookup(
            b,
            k,
        ) by {
            assert(a.last().0@ == b.last().0@);
            assert(a.last().1@ == b.last().1@);
            if a.last().0@ != k {
                assert(assoc_lookup(a, k) == assoc_lookup(a.drop_last(), k));
                assert(assoc_lookup(b, k) == assoc_lookup(b.drop_last(), k));
            }
        }
    }
    assert(keys_distinct(a) == keys_distinct(b)) by {
        if keys_distinct(a) {
            assert forall|i: int, j: int| 0 <= i < j < b.len() implies (#[trigger] b[i]).0@ != (
            #[trigger] b[j]).0@ by {
                assert(a[i].0@ == b[i].0@);
                assert(a[j].0@ == b[j].0@);
            }
        }
        if keys_distinct(b) {
            assert forall|i: int, j: int| 0 <= i < j < a.len() implies (#[trigger] a[i]).0@ != (
            #[trigger] a[j]).0@ by {
                assert(a[i].0@ == b[i].0@);
                assert(a[j].0@ == b[j].0@);
            }
        }
    }
}

/// Snapshots the prior binding of every overlay key (presence and value),
/// then applies the overlay to the store.
pub fn with_env_enter(env: &mut ShellEnvironment, overlay: &EnvOverlay) -> (saved: Vec<
    (String, Option<EnvValue>),
>)
    requires
        old(env).wf(),
        overlay.wf(),
    ensures
        final(env).wf(),
        final(env).dirs() == old(env).dirs(),
        saved@.len() == overlay.entries_seq().len(),
        forall|i: int| 0 <= i < saved@.len() ==> (#[trigger] saved@[i]).0@
            == overlay.entries_seq()[i].0@,
        forall|i: int| 0 <= i < saved@.len() ==> (match (#[trigger] saved@[i]).1 {
            Some(v) => old(env).spec_get(saved@[i].0@) == Some(v@),
            None => old(env).spec_get(saved@[i].0@) is None,
        }),
        forall|i: int| 0 <= i < saved@.len() ==> ((#[trigger] saved@[i]).1 is None
            ==> !is_distinguished(saved@[i].0@)),
        forall|k: Seq<char>| #[trigger] final(env).spec_get(k) == if overlay.olookup(
            k,
        ) is Some {
            overlay.olookup(k)
        } else {
            old(env).spec_get(k)
        },
{
    let items = overlay.items();
    let ghost oseq = overlay.entries_seq();
    let mut saved: Vec<(String, Option<EnvValue>)> = Vec::new();
    let mut i: usize = 0;
    while i < items.len()
        invariant
            i <= items@.len(),
            items@.len() == oseq.len(),
            forall|j: int| 0 <= j < items@.len() ==> (#[trigger] items@[j]).0@ == oseq[j].0@
                && items@[j].1@ == oseq[j].1@,
            env.wf(),
            env == old(env),
            saved@.len() == i,
            forall|j: int| 0 <= j < i ==> (#[trigger] saved@[j]).0@ == oseq[j].0@,
            forall|j: int| 0 <= j < i ==> (match (#[trigger] saved@[j]).1 {
                Some(v) => old(env).spec_get(saved@[j].0@) == Some(v@),
                None => old(env).spec_get(saved@[j].0@) is None,
            }),
            forall|j: int| 0 <= j < i ==> ((#[trigger] saved@[j]).1 is None
                ==> !is_distinguished(saved@[j].0@)),
        decreases items@.len() - i,
    {
        let key = to_owned_string(items[i].0.as_str());
        let prior = env.get(key.as_str());
        proof {
            if prior is None {
                crate::environment::lemma_distinguished_names();
                assert(!is_distinguished(key@)) by {
                    if is_distinguished(key@) {
                        assert(env.spec_get(key@) is Some);
                    }
                }
            }
        }
        saved.push((key, prior));
        i = i + 1;
    }
    let ghost env0 = *env;
    let mut i2: usize = 0;
    while i2 < items.len()
        invariant
            i2 <= items@.len(),
            items@.len() == oseq.len(),
            forall|j: int| 0 <= j < items@.len() ==> (#[trigger] items@[j]).0@ == oseq[j].0@
                && items@[j].1@ == oseq[j].1@,
            keys_distinct(oseq),
            env.wf(),
            env.dirs() == env0.dirs(),
            forall|k: Seq<char>| #[trigger] env.spec_get(k) == if assoc_lookup(
                oseq.take(i2 as int),
                k,
            ) is Some {
                assoc_lookup(oseq.take(i2 as int), k)
            } else {
                env0.spec_get(k)
            },
        decreases items@.len() - i2,
    {
        let key = to_owned_string(items[i2].0.as_str());
        let value = items[i2].1.duplicate();
        env.set(key, value);
        proof {
            assert(oseq.take(i2 + 1).drop_last() =~= oseq.take(i2 as int));
            assert(oseq.take(i2 + 1).last() == oseq[i2 as int]);
        }
        i2 = i2 + 1;
    }
    proof {
        assert(oseq.take(oseq.len() as int) =~= oseq);
    }
    saved
}

/// Keys of a snapshot are unique.
pub open spec fn saved_keys_distinct(saved: Seq<(String, Option<EnvValue>)>) -> bool {
    forall|i: int, j: int|
        0 <= i < j < saved.len() ==> (#[trigger] saved[i]).0@ != (#[trigger] saved[j]).0@
}

/// Restores a snapshot taken by `with_env_enter`: absent keys are removed,
/// present keys are written back with their saved value.
pub fn with_env_exit(env: &mut ShellEnvironment, saved: &Vec<(String, Option<EnvValue>)>)
    requires
        old(env).wf(),
        saved_keys_distinct(saved@),
        forall|i: int| 0 <= i < saved@.len() ==> ((#[trigger] saved@[i]).1 is None
            ==> !is_distinguished(saved@[i].0@)),
    ensures
        final(env).wf(),
        final(env).dirs() == old(env).dirs(),
        forall|i: int| 0 <= i < saved@.len() ==> #[trigger] final(env).spec_get(saved@[i].0@)
            == (match saved@[i].1 {
            Some(v) => Some(v@),
            None => None::<Val>,
        }),
        forall|k: Seq<char>| (forall|i: int|
            0 <= i < saved@.len() ==> (#[trigger] saved@[i]).0@ != k)
            ==> #[trigger] final(env).spec_get(k) == old(env).spec_get(k),
{
    let mut i: usize = 0;
    while i < saved.len()
        invariant
            i <= saved@.len(),
            env.wf(),
            env.dirs() == old(env).dirs(),
            saved_keys_distinct(saved@),
            forall|j: int| 0 <= j < saved@.len() ==> ((#[trigger] saved@[j]).1 is None
                ==> !is_distinguished(saved@[j].0@)),
            forall|j: int| 0 <= j < i ==> #[trigger] env.spec_get(saved@[j].0@)
                == (match saved@[j].1 {
                Some(v) => Some(v@),
                None => None::<Val>,
            }),
            forall|k: Seq<char>| (forall|j: int|
                0 <= j < saved@.len() ==> (#[trigger] saved@[j]).0@ != k)
                ==> #[trigger] env.spec_get(k) == old(env).spec_get(k),
            forall|k: Seq<char>| (forall|j: int| 0 <= j < i ==> (#[trigger] saved@[j]).0@ != k)
                ==> #[trigger] env.spec_get(k) == old(env).spec_get(k),
        decreases saved@.len() - i,
    {
        let key = to_owned_string(saved[i].0.as_str());
        match &saved[i].1 {
            Some(v) => {
                env.set(key, v.duplicate());
            },
            None => {
                let _ = env.unset(key.as_str());
            },
        }
        i = i + 1;
    }
}

/// The with-env scoping law: the store observed after a `with_env`
/// execution agrees with the store observed before it on every key of the
/// overlay, whatever the inner execution did. `env0` is the store at entry
/// (whose bindings the snapshot captured) and `env2` the store after the
/// snapshot was restored.
pub proof fn lemma_with_env_scoping(
    env0: ShellEnvironment,
    env2: ShellEnvironment,
    saved: Seq<(String, Option<EnvValue>)>,
)
    requires
        forall|i: int| 0 <= i < saved.len() ==> (match (#[trigger] saved[i]).1 {
            Some(v) => env0.spec_get(saved[i].0@) == Some(v@),
            None => env0.spec_get(saved[i].0@) is None,
        }),
        forall|i: int| 0 <= i < saved.len() ==> #[trigger] env2.spec_get(saved[i].0@)
            == (match saved[i].1 {
            Some(v) => Some(v@),
            None => None::<Val>,
        }),
    ensures
        forall|i: int| 0 <= i < saved.len() ==> #[trigger] env2.spec_get(saved[i].0@)
            == env0.spec_get(saved[i].0@),
{
    assert forall|i: int| 0 <= i < saved.len() implies #[trigger] env2.spec_get(saved[i].0@)
        == env0.spec_get(saved[i].0@) by {
        match saved[i].1 {
            Some(v) => {},
            None => {},
        }
    }
}

} // verus!
