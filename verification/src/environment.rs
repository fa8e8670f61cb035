//! Shell variables: value, export flag, read-only flag, with scoped
//! snapshots.
//!
//! The environment is modeled as an association list with distinct
//! names; contracts speak of `spec_lookup` over its view.

use vstd::prelude::*;

verus! {

/// One shell variable.
#[derive(Debug, Clone, PartialEq, Eq)]
pub struct Variable {
    pub value: String,
    pub export: bool,
    pub readonly: bool,
}

impl Variable {
    /// A variable marked for export, as when it was taken over from
    /// the surrounding process environment.
    pub fn new_exported(value: String) -> (r: Variable)
        ensures
            r.value == value,
            r.export,
            !r.readonly,
    {
        Variable { value, export: true, readonly: false }
    }

    /// An ordinary, unexported variable.
    pub fn new(value: String) -> (r: Variable)
        ensures
            r.value == value,
            !r.export,
            !r.readonly,
    {
        Variable { value, export: false, readonly: false }
    }
}

/// The model of one variable.
pub struct VarModel {
    pub value: Seq<char>,
    pub export: bool,
    pub readonly: bool,
}

/// The model of one binding.
pub open spec fn binding_model(b: (String, Variable)) -> (Seq<char>, VarModel) {
    (b.0@, VarModel { value: b.1.value@, export: b.1.export, readonly: b.1.readonly })
}

/// The first binding of `name`, if any.
pub open spec fn spec_lookup(entries: Seq<(Seq<char>, VarModel)>, name: Seq<char>) -> Option<
    VarModel,
>
    decreases entries.len(),
{
    if entries.len() == 0 {
        None
    } else if entries.first().0 == name {
        Some(entries.first().1)
    } else {
        spec_lookup(entries.drop_first(), name)
    }
}

/// The environment after `name` is bound to `vm`: the first binding
/// of `name` is replaced, or a new binding is appended.
pub open spec fn env_set_model(
    m: Seq<(Seq<char>, VarModel)>,
    name: Seq<char>,
    vm: VarModel,
) -> Seq<(Seq<char>, VarModel)>
    decreases m.len(),
{
    if m.len() == 0 {
        seq![(name, vm)]
    } else if m.first().0 == name {
        seq![(name, vm)] + m.drop_first()
    } else {
        seq![m.first()] + env_set_model(m.drop_first(), name, vm)
    }
}

/// The exported bindings of an environment, as name and value pairs,
/// in order.
pub open spec fn spec_exported(m: Seq<(Seq<char>, VarModel)>) -> Seq<(Seq<char>, Seq<char>)>
    decreases m.len(),
{
    if m.len() == 0 {
        Seq::empty()
    } else {
        (if m.first().1.export {
            seq![(m.first().0, m.first().1.value)]
        } else {
            Seq::empty()
        }) + spec_exported(m.drop_first())
    }
}

/// The model of a list of name and value strings.
pub open spec fn pairs_model(ps: Seq<(String, String)>) -> Seq<(Seq<char>, Seq<char>)> {
    ps.map(|i: int, p: (String, String)| (p.0@, p.1@))
}

/// Shell variables by name.
#[derive(Debug, PartialEq, Eq)]
pub struct Environment {
    pub entries: Vec<(String, Variable)>,
}

impl View for Environment {
    type V = Seq<(Seq<char>, VarModel)>;

    open spec fn view(&self) -> Seq<(Seq<char>, VarModel)> {
        self.entries@.map(|i: int, b: (String, Variable)| binding_model(b))
    }
}

/// Distinct names: each lookup hits at most one binding.
pub open spec fn env_wf(m: Seq<(Seq<char>, VarModel)>) -> bool {
    forall|i: int, j: int| 0 <= i < j < m.len() ==> (#[trigger] m[i]).0 != (#[trigger] m[j]).0
}

/// Why a variable write was rejected.
#[derive(Debug, Clone, Copy, PartialEq, Eq, Structural)]
pub enum EnvError {
    /// The variable is read-only.
    Readonly,
}

impl Environment {
    /// An empty environment.
    pub fn new() -> (r: Environment)
        ensures
            r@ == Seq::<(Seq<char>, VarModel)>::empty(),
            env_wf(r@),
    {
        let r = Environment { entries: Vec::new() };
        assert(r@ =~= Seq::<(Seq<char>, VarModel)>::empty());
        r
    }

    /// The value of `name`, when it is set.
    pub fn get_value(&self, name: &str) -> (r: Option<String>)
        ensures
            match r {
                Some(v) => spec_lookup(self@, name@) matches Some(vm) && vm.value == v@,
                None => spec_lookup(self@, name@) is None,
            },
    {
        let mut i: usize = 0;
        proof {
            assert(self@.skip(0) =~= self@);
        }
        while i < self.entries.len()
            invariant
                i <= self.entries@.len(),
                self@.len() == self.entries@.len(),
                spec_lookup(self@, name@) == spec_lookup(self@.skip(i as int), name@),
            decreases self.entries@.len() - i,
        {
            proof {
                assert(self@.skip(i as int).first() == self@[i as int]);
                assert(self@.skip(i as int).drop_first() =~= self@.skip(i + 1));
            }
            if crate::strings::str_equal(self.entries[i].0.as_str(), name) {
                return Some(self.entries[i].1.value.clone());
            }
            i = i + 1;
        }
        None
    }

    /// Whether `name` is set at all.
    pub fn is_set(&self, name: &str) -> (r: bool)
        ensures
            r == (spec_lookup(self@, name@) is Some),
    {
        match self.get_value(name) {
            Some(_) => true,
            None => false,
        }
    }

    /// Binds `name` to a fresh variable, replacing any old binding,
    /// unless the old binding is read-only.  The new binding carries
    /// the given export mark and is not read-only.
    pub fn set(&mut self, name: &str, value: String, export: bool) -> (r: Result<
        (),
        EnvError,
    >)
        requires
            env_wf(old(self)@),
        ensures
            env_wf(final(self)@),
            r is Ok ==> (spec_lookup(old(self)@, name@) matches Some(vm) ==> !vm.readonly)
                && final(self)@ == env_set_model(
                old(self)@,
                name@,
                VarModel { value: value@, export, readonly: false },
            ) && spec_lookup(final(self)@, name@) == Some(
                VarModel { value: value@, export, readonly: false },
            ) && (forall|other: Seq<char>|
                other != name@ ==> spec_lookup(final(self)@, other) == spec_lookup(
                    old(self)@,
                    other,
                )),
            r is Err ==> r == Err::<(), EnvError>(EnvError::Readonly) && (spec_lookup(
                old(self)@,
                name@,
            ) matches Some(vm) && vm.readonly) && final(self)@ == old(self)@,
    {
        let ghost m0 = self@;
        let mut i: usize = 0;
        proof {
            assert(m0.skip(0) =~= m0);
        }
        while i < self.entries.len()
            invariant
                i <= self.entries@.len(),
                m0 == self@,
                m0 == old(self)@,
                env_wf(m0),
                m0.len() == self.entries@.len(),
                spec_lookup(m0, name@) == spec_lookup(m0.skip(i as int), name@),
                forall|t: int| 0 <= t < i ==> (#[trigger] m0[t]).0 != name@,
            decreases self.entries@.len() - i,
        {
            proof {
                assert(m0.skip(i as int).first() == m0[i as int]);
                assert(m0.skip(i as int).drop_first() =~= m0.skip(i + 1));
            }
            if crate::strings::str_equal(self.entries[i].0.as_str(), name) {
                proof {
                    assert(m0[i as int] == binding_model(self.entries@[i as int]));
                    assert(m0[i as int].0 == name@);
                    assert(spec_lookup(m0, name@) == Some(m0[i as int].1));
                }
                if self.entries[i].1.readonly {
                    return Err(EnvError::Readonly);
                }
                let nv = Variable { value, export, readonly: false };
                let key = self.entries[i].0.clone();
                self.entries.set(i, (key, nv));
                proof {
                    assert(self@ =~= m0.update(
                        i as int,
                        (name@, VarModel { value: value@, export, readonly: false }),
                    ));
                    lemma_lookup_update(m0, i as int, name@, VarModel {
                        value: value@,
                        export,
                        readonly: false,
                    });
                    lemma_env_set_model_update(m0, i as int, name@, VarModel {
                        value: value@,
                        export,
                        readonly: false,
                    });
                }
                return Ok(());
            }
            i = i + 1;
        }
        let ghost vm = VarModel { value: value@, export, readonly: false };
        self.entries.push((name.to_owned(), Variable { value, export, readonly: false }));
        proof {
            assert(self@ =~= m0.push((name@, vm)));
            lemma_lookup_push(m0, name@, vm);
            lemma_env_set_model_push(m0, name@, vm);
            assert forall|other: Seq<char>|
                other != name@ implies spec_lookup(self@, other) == spec_lookup(
                m0,
                other,
            ) by {
                lemma_lookup_push_other(m0, name@, vm, other);
            }
        }
        Ok(())
    }

    /// An independent copy, for entering a subshell or a command-local
    /// assignment scope.
    pub fn snapshot(&self) -> (r: Environment)
        ensures
            r@ == self@,
    {
        let mut entries: Vec<(String, Variable)> = Vec::new();
        let mut i: usize = 0;
        while i < self.entries.len()
            invariant
                i <= self.entries@.len(),
                entries@.len() == i,
                forall|t: int|
                    0 <= t < i ==> binding_model(#[trigger] entries@[t]) == binding_model(
                        self.entries@[t],
                    ),
            decreases self.entries@.len() - i,
        {
            let name = self.entries[i].0.clone();
            let v = &self.entries[i].1;
            entries.push(
                (name, Variable { value: v.value.clone(), export: v.export, readonly: v.readonly }),
            );
            i = i + 1;
        }
        let r = Environment { entries };
        assert(r@ =~= self@);
        r
    }

    /// The exported bindings, as name and value pairs, in order:
    /// exactly the bindings whose export mark is set.
    pub fn exported(&self) -> (r: Vec<(String, String)>)
        ensures
            pairs_model(r@) == spec_exported(self@),
    {
        let mut r: Vec<(String, String)> = Vec::new();
        let mut i: usize = 0;
        proof {
            assert(self@.skip(0) =~= self@);
            assert(pairs_model(r@) =~= Seq::<(Seq<char>, Seq<char>)>::empty());
        }
        while i < self.entries.len()
            invariant
                i <= self.entries@.len(),
                self@.len() == self.entries@.len(),
                spec_exported(self@) == pairs_model(r@) + spec_exported(self@.skip(i as int)),
            decreases self.entries@.len() - i,
        {
            proof {
                assert(self@.skip(i as int).first() == self@[i as int]);
                assert(self@.skip(i as int).drop_first() =~= self@.skip(i + 1));
                assert(self@[i as int] == binding_model(self.entries@[i as int]));
            }
            let ghost pm = pairs_model(r@);
            if self.entries[i].1.export {
                r.push((self.entries[i].0.clone(), self.entries[i].1.value.clone()));
                proof {
                    assert(pairs_model(r@) =~= pm + seq![
                        (self@[i as int].0, self@[i as int].1.value),
                    ]);
                }
            }
            i = i + 1;
        }
        proof {
            assert(self@.skip(self@.len() as int) =~= Seq::<(Seq<char>, VarModel)>::empty());
            assert(pairs_model(r@) + Seq::<(Seq<char>, Seq<char>)>::empty() =~= pairs_model(
                r@,
            ));
        }
        r
    }
}

/// On a first match at `i`, the functional set model is the in-place
/// update.
proof fn lemma_env_set_model_update(
    m: Seq<(Seq<char>, VarModel)>,
    i: int,
    name: Seq<char>,
    vm: VarModel,
)
    requires
        0 <= i < m.len(),
        m[i].0 == name,
        forall|t: int| 0 <= t < i ==> (#[trigger] m[t]).0 != name,
    ensures
        env_set_model(m, name, vm) == m.update(i, (name, vm)),
    decreases m.len(),
{
    if i == 0 {
        assert(env_set_model(m, name, vm) =~= m.update(0, (name, vm)));
    } else {
        lemma_env_set_model_update(m.drop_first(), i - 1, name, vm);
        assert(env_set_model(m, name, vm) =~= m.update(i, (name, vm)));
    }
}

/// With no binding of `name`, the functional set model appends one.
proof fn lemma_env_set_model_push(m: Seq<(Seq<char>, VarModel)>, name: Seq<char>, vm: VarModel)
    requires
        forall|t: int| 0 <= t < m.len() ==> (#[trigger] m[t]).0 != name,
    ensures
        env_set_model(m, name, vm) == m.push((name, vm)),
    decreases m.len(),
{
    if m.len() == 0 {
        assert(env_set_model(m, name, vm) =~= m.push((name, vm)));
    } else {
        lemma_env_set_model_push(m.drop_first(), name, vm);
        assert(env_set_model(m, name, vm) =~= m.push((name, vm)));
    }
}

/// Updating position `i`, which holds the only binding of `name`,
/// rebinds `name` and nothing else.
proof fn lemma_lookup_update(
    m: Seq<(Seq<char>, VarModel)>,
    i: int,
    name: Seq<char>,
    vm: VarModel,
)
    requires
        0 <= i < m.len(),
        m[i].0 == name,
        forall|t: int| 0 <= t < i ==> (#[trigger] m[t]).0 != name,
        env_wf(m),
    ensures
        env_wf(m.update(i, (name, vm))),
        spec_lookup(m.update(i, (name, vm)), name) == Some(vm),
        forall|other: Seq<char>|
            other != name ==> spec_lookup(m.update(i, (name, vm)), other) == spec_lookup(
                m,
                other,
            ),
    decreases m.len(),
{
    let m2 = m.update(i, (name, vm));
    assert forall|other: Seq<char>| true implies spec_lookup(m2, other) == (
    if other == name {
        Some(vm)
    } else {
        spec_lookup(m, other)
    }) by {
        lemma_lookup_update_inner(m, i, name, vm, other);
    }
}

/// The pointwise form of `lemma_lookup_update`.
proof fn lemma_lookup_update_inner(
    m: Seq<(Seq<char>, VarModel)>,
    i: int,
    name: Seq<char>,
    vm: VarModel,
    other: Seq<char>,
)
    requires
        0 <= i < m.len(),
        m[i].0 == name,
        forall|t: int| 0 <= t < i ==> (#[trigger] m[t]).0 != name,
    ensures
        spec_lookup(m.update(i, (name, vm)), other) == (if other == name {
            Some(vm)
        } else {
            spec_lookup(m, other)
        }),
    decreases m.len(),
{
    let m2 = m.update(i, (name, vm));
    assert(m2.len() == m.len());
    if m.len() > 0 {
        if i == 0 {
            assert(m2.first() == (name, vm));
            if other != name {
                assert(m2.drop_first() =~= m.drop_first());
            }
        } else {
            assert(m2.first() == m.first());
            assert(m2.drop_first() =~= m.drop_first().update(i - 1, (name, vm)));
            lemma_lookup_update_inner(m.drop_first(), i - 1, name, vm, other);
        }
    }
}

/// Appending a binding of a fresh name finds that binding.
proof fn lemma_lookup_push(m: Seq<(Seq<char>, VarModel)>, name: Seq<char>, vm: VarModel)
    requires
        forall|t: int| 0 <= t < m.len() ==> (#[trigger] m[t]).0 != name,
    ensures
        spec_lookup(m.push((name, vm)), name) == Some(vm),
        env_wf(m) ==> env_wf(m.push((name, vm))),
    decreases m.len(),
{
    let m2 = m.push((name, vm));
    if m.len() == 0 {
        assert(m2.first() == (name, vm));
    } else {
        assert(m2.first() == m.first());
        assert(m2.drop_first() =~= m.drop_first().push((name, vm)));
        lemma_lookup_push(m.drop_first(), name, vm);
    }
    if env_wf(m) {
        assert forall|i: int, j: int|
            0 <= i < j < m2.len() implies (#[trigger] m2[i]).0 != (#[trigger] m2[j]).0 by {
            if j < m.len() {
            } else {
                assert(m2[j].0 == name);
                assert(m2[i].0 == m[i].0);
            }
        }
    }
}

/// Appending a binding leaves every other name's lookup alone.
proof fn lemma_lookup_push_other(
    m: Seq<(Seq<char>, VarModel)>,
    name: Seq<char>,
    vm: VarModel,
    other: Seq<char>,
)
    requires
        other != name,
    ensures
        spec_lookup(m.push((name, vm)), other) == spec_lookup(m, other),
    decreases m.len(),
{
    let m2 = m.push((name, vm));
    if m.len() == 0 {
        assert(m2.first() == (name, vm));
        assert(m2.drop_first() =~= Seq::<(Seq<char>, VarModel)>::empty());
        assert(spec_lookup(m2.drop_first(), other) is None);
        assert(spec_lookup(m2, other) is None);
        assert(spec_lookup(m, other) is None);
    } else {
        assert(m2.first() == m.first());
        assert(m2.drop_first() =~= m.drop_first().push((name, vm)));
        lemma_lookup_push_other(m.drop_first(), name, vm, other);
    }
}

} // verus!

verus! {

/// The environment after the first binding of `name` is marked for
/// export; without one, nothing changes.
pub open spec fn env_export_model(
    m: Seq<(Seq<char>, VarModel)>,
    name: Seq<char>,
) -> Seq<(Seq<char>, VarModel)>
    decreases m.len(),
{
    if m.len() == 0 {
        m
    } else if m.first().0 == name {
        seq![
            (name, VarModel { value: m.first().1.value, export: true, readonly: m.first().1.readonly }),
        ] + m.drop_first()
    } else {
        seq![m.first()] + env_export_model(m.drop_first(), name)
    }
}

/// The environment after the first binding of `name` is marked
/// read-only; without one, nothing changes.
pub open spec fn env_readonly_model(
    m: Seq<(Seq<char>, VarModel)>,
    name: Seq<char>,
) -> Seq<(Seq<char>, VarModel)>
    decreases m.len(),
{
    if m.len() == 0 {
        m
    } else if m.first().0 == name {
        seq![
            (name, VarModel { value: m.first().1.value, export: m.first().1.export, readonly: true }),
        ] + m.drop_first()
    } else {
        seq![m.first()] + env_readonly_model(m.drop_first(), name)
    }
}

/// The environment with the first binding of `name` removed; without
/// one, nothing changes.
pub open spec fn env_unset_model(
    m: Seq<(Seq<char>, VarModel)>,
    name: Seq<char>,
) -> Seq<(Seq<char>, VarModel)>
    decreases m.len(),
{
    if m.len() == 0 {
        m
    } else if m.first().0 == name {
        m.drop_first()
    } else {
        seq![m.first()] + env_unset_model(m.drop_first(), name)
    }
}

/// A first match at `i` makes the export model an in-place update.
proof fn lemma_env_export_model_at(m: Seq<(Seq<char>, VarModel)>, i: int, name: Seq<char>)
    requires
        0 <= i < m.len(),
        m[i].0 == name,
        forall|t: int| 0 <= t < i ==> (#[trigger] m[t]).0 != name,
    ensures
        env_export_model(m, name) == m.update(
            i,
            (name, VarModel { value: m[i].1.value, export: true, readonly: m[i].1.readonly }),
        ),
    decreases m.len(),
{
    if i == 0 {
        assert(env_export_model(m, name) =~= m.update(
            0,
            (name, VarModel { value: m[0].1.value, export: true, readonly: m[0].1.readonly }),
        ));
    } else {
        lemma_env_export_model_at(m.drop_first(), i - 1, name);
        assert(env_export_model(m, name) =~= m.update(
            i,
            (name, VarModel { value: m[i].1.value, export: true, readonly: m[i].1.readonly }),
        ));
    }
}

/// A first match at `i` makes the read-only model an in-place update.
proof fn lemma_env_readonly_model_at(m: Seq<(Seq<char>, VarModel)>, i: int, name: Seq<char>)
    requires
        0 <= i < m.len(),
        m[i].0 == name,
        forall|t: int| 0 <= t < i ==> (#[trigger] m[t]).0 != name,
    ensures
        env_readonly_model(m, name) == m.update(
            i,
            (name, VarModel { value: m[i].1.value, export: m[i].1.export, readonly: true }),
        ),
    decreases m.len(),
{
    if i == 0 {
        assert(env_readonly_model(m, name) =~= m.update(
            0,
            (name, VarModel { value: m[0].1.value, export: m[0].1.export, readonly: true }),
        ));
    } else {
        lemma_env_readonly_model_at(m.drop_first(), i - 1, name);
        assert(env_readonly_model(m, name) =~= m.update(
            i,
            (name, VarModel { value: m[i].1.value, export: m[i].1.export, readonly: true }),
        ));
    }
}

/// A first match at `i` makes the unset model a removal at `i`.
proof fn lemma_env_unset_model_at(m: Seq<(Seq<char>, VarModel)>, i: int, name: Seq<char>)
    requires
        0 <= i < m.len(),
        m[i].0 == name,
        forall|t: int| 0 <= t < i ==> (#[trigger] m[t]).0 != name,
    ensures
        env_unset_model(m, name) == m.remove(i),
    decreases m.len(),
{
    if i == 0 {
        assert(env_unset_model(m, name) =~= m.remove(0));
    } else {
        lemma_env_unset_model_at(m.drop_first(), i - 1, name);
        assert(env_unset_model(m, name) =~= m.remove(i));
    }
}

/// Without a binding of `name`, each model changes nothing.
proof fn lemma_env_models_absent(m: Seq<(Seq<char>, VarModel)>, name: Seq<char>)
    requires
        forall|t: int| 0 <= t < m.len() ==> (#[trigger] m[t]).0 != name,
    ensures
        env_export_model(m, name) == m,
        env_readonly_model(m, name) == m,
        env_unset_model(m, name) == m,
    decreases m.len(),
{
    if m.len() > 0 {
        lemma_env_models_absent(m.drop_first(), name);
        assert(env_export_model(m, name) =~= m);
        assert(env_readonly_model(m, name) =~= m);
        assert(env_unset_model(m, name) =~= m);
    }
}

/// Removing an entry keeps the names distinct.
proof fn lemma_wf_remove(m: Seq<(Seq<char>, VarModel)>, i: int)
    requires
        env_wf(m),
        0 <= i < m.len(),
    ensures
        env_wf(m.remove(i)),
{
    let m2 = m.remove(i);
    assert forall|a: int, b: int|
        0 <= a < b < m2.len() implies (#[trigger] m2[a]).0 != (#[trigger] m2[b]).0 by {
        let a0 = if a < i {
            a
        } else {
            a + 1
        };
        let b0 = if b < i {
            b
        } else {
            b + 1
        };
        assert(m2[a] == m[a0]);
        assert(m2[b] == m[b0]);
    }
}

impl Environment {
    /// Marks `name` for export; a name that is not set is left unset.
    pub fn mark_exported(&mut self, name: &str)
        requires
            env_wf(old(self)@),
        ensures
            env_wf(final(self)@),
            final(self)@ == env_export_model(old(self)@, name@),
    {
        let ghost m0 = self@;
        let mut i: usize = 0;
        while i < self.entries.len()
            invariant
                i <= self.entries@.len(),
                m0 == self@,
                m0 == old(self)@,
                env_wf(m0),
                m0.len() == self.entries@.len(),
                forall|t: int| 0 <= t < i ==> (#[trigger] m0[t]).0 != name@,
            decreases self.entries@.len() - i,
        {
            proof {
                assert(m0[i as int] == binding_model(self.entries@[i as int]));
            }
            if crate::strings::str_equal(self.entries[i].0.as_str(), name) {
                let key = self.entries[i].0.clone();
                let v = Variable {
                    value: self.entries[i].1.value.clone(),
                    export: true,
                    readonly: self.entries[i].1.readonly,
                };
                self.entries.set(i, (key, v));
                proof {
                    assert(self@ =~= m0.update(
                        i as int,
                        (
                            name@,
                            VarModel {
                                value: m0[i as int].1.value,
                                export: true,
                                readonly: m0[i as int].1.readonly,
                            },
                        ),
                    ));
                    lemma_env_export_model_at(m0, i as int, name@);
                    assert forall|a: int, b: int|
                        0 <= a < b < self@.len() implies (#[trigger] self@[a]).0 != (
                    #[trigger] self@[b]).0 by {
                        assert(m0[a].0 == self@[a].0);
                        assert(m0[b].0 == self@[b].0);
                    }
                }
                return ;
            }
            i = i + 1;
        }
        proof {
            lemma_env_models_absent(m0, name@);
        }
    }

    /// Marks `name` read-only, so that later assignments and unsets
    /// are rejected; a name that is not set is left unset.
    pub fn mark_readonly(&mut self, name: &str)
        requires
            env_wf(old(self)@),
        ensures
            env_wf(final(self)@),
            final(self)@ == env_readonly_model(old(self)@, name@),
    {
        let ghost m0 = self@;
        let mut i: usize = 0;
        while i < self.entries.len()
            invariant
                i <= self.entries@.len(),
                m0 == self@,
                m0 == old(self)@,
                env_wf(m0),
                m0.len() == self.entries@.len(),
                forall|t: int| 0 <= t < i ==> (#[trigger] m0[t]).0 != name@,
            decreases self.entries@.len() - i,
        {
            proof {
                assert(m0[i as int] == binding_model(self.entries@[i as int]));
            }
            if crate::strings::str_equal(self.entries[i].0.as_str(), name) {
                let key = self.entries[i].0.clone();
                let v = Variable {
                    value: self.entries[i].1.value.clone(),
                    export: self.entries[i].1.export,
                    readonly: true,
                };
                self.entries.set(i, (key, v));
                proof {
                    assert(self@ =~= m0.update(
                        i as int,
                        (
                            name@,
                            VarModel {
                                value: m0[i as int].1.value,
                                export: m0[i as int].1.export,
                                readonly: true,
                            },
                        ),
                    ));
                    lemma_env_readonly_model_at(m0, i as int, name@);
                    assert forall|a: int, b: int|
                        0 <= a < b < self@.len() implies (#[trigger] self@[a]).0 != (
                    #[trigger] self@[b]).0 by {
                        assert(m0[a].0 == self@[a].0);
                        assert(m0[b].0 == self@[b].0);
                    }
                }
                return ;
            }
            i = i + 1;
        }
        proof {
            lemma_env_models_absent(m0, name@);
        }
    }

    /// Removes the binding of `name`; a read-only variable rejects the
    /// removal and nothing changes.
    pub fn unset(&mut self, name: &str) -> (r: Result<(), EnvError>)
        requires
            env_wf(old(self)@),
        ensures
            env_wf(final(self)@),
            r is Ok ==> (spec_lookup(old(self)@, name@) matches Some(vm) ==> !vm.readonly)
                && final(self)@ == env_unset_model(old(self)@, name@) && spec_lookup(
                final(self)@,
                name@,
            ) is None,
            r is Err ==> r == Err::<(), EnvError>(EnvError::Readonly) && (spec_lookup(
                old(self)@,
                name@,
            ) matches Some(vm) && vm.readonly) && final(self)@ == old(self)@,
    {
        let ghost m0 = self@;
        let mut i: usize = 0;
        proof {
            assert(m0.skip(0) =~= m0);
        }
        while i < self.entries.len()
            invariant
                i <= self.entries@.len(),
                m0 == self@,
                m0 == old(self)@,
                env_wf(m0),
                m0.len() == self.entries@.len(),
                spec_lookup(m0, name@) == spec_lookup(m0.skip(i as int), name@),
                forall|t: int| 0 <= t < i ==> (#[trigger] m0[t]).0 != name@,
            decreases self.entries@.len() - i,
        {
            proof {
                assert(m0.skip(i as int).first() == m0[i as int]);
                assert(m0.skip(i as int).drop_first() =~= m0.skip(i + 1));
                assert(m0[i as int] == binding_model(self.entries@[i as int]));
            }
            if crate::strings::str_equal(self.entries[i].0.as_str(), name) {
                proof {
                    assert(spec_lookup(m0, name@) == Some(m0[i as int].1));
                }
                if self.entries[i].1.readonly {
                    return Err(EnvError::Readonly);
                }
                let _ = self.entries.remove(i);
                proof {
                    assert(self@ =~= m0.remove(i as int));
                    lemma_env_unset_model_at(m0, i as int, name@);
                    lemma_wf_remove(m0, i as int);
                    assert forall|t: int|
                        0 <= t < self@.len() implies (#[trigger] self@[t]).0 != name@ by {
                        if t < i {
                            assert(self@[t] == m0[t]);
                        } else {
                            assert(self@[t] == m0[t + 1]);
                        }
                    }
                    lemma_lookup_absent(self@, name@);
                }
                return Ok(());
            }
            i = i + 1;
        }
        proof {
            lemma_env_models_absent(m0, name@);
            lemma_lookup_absent(m0, name@);
        }
        Ok(())
    }
}

/// A name bound nowhere looks up to nothing.
proof fn lemma_lookup_absent(m: Seq<(Seq<char>, VarModel)>, name: Seq<char>)
    requires
        forall|t: int| 0 <= t < m.len() ==> (#[trigger] m[t]).0 != name,
    ensures
        spec_lookup(m, name) is None,
    decreases m.len(),
{
    if m.len() > 0 {
        assert(m.first() == m[0]);
        lemma_lookup_absent(m.drop_first(), name);
    }
}

} // verus!
