//! What the embedding application supplies: a store of variables and the
//! functions that scripts may call.

use vstd::prelude::*;
use std::collections::HashMap;
use crate::ast::{NodeLabel, Value};

verus! {

/// A store of variables, keyed by the interned name of the variable.
pub trait Context {
    /// The variables that the store holds.
    spec fn vars(&self) -> Map<u32, Value>;

    /// The value of `var`, or `None` where it was never set.
    fn get_var(&self, var: NodeLabel) -> (r: Option<Value>)
        ensures
            r == lookup(self.vars(), var),
    ;

    /// Sets `var` to `val` and leaves every other variable as it was.
    fn set_var(&mut self, var: NodeLabel, val: Value)
        ensures
            final(self).vars() == old(self).vars().insert(var.0, val),
    ;
}

/// The value of `var` in `vars`.
pub open spec fn lookup(vars: Map<u32, Value>, var: NodeLabel) -> Option<Value> {
    if vars.contains_key(var.0) {
        Some(vars[var.0])
    } else {
        None
    }
}

/// The store that a runner has where the host supplies none: a hash map in
/// memory.
pub struct MemoryContext {
    pub map: HashMap<u32, Value>,
}

impl MemoryContext {
    pub fn new() -> (r: MemoryContext)
        ensures
            r.vars() == Map::<u32, Value>::empty(),
    {
        MemoryContext { map: HashMap::new() }
    }
}

impl Context for MemoryContext {
    open spec fn vars(&self) -> Map<u32, Value> {
        self.map@
    }

    fn get_var(&self, var: NodeLabel) -> (r: Option<Value>) {
        broadcast use vstd::std_specs::hash::group_hash_axioms;

        match self.map.get(&var.0) {
            Some(v) => Some(*v),
            None => None,
        }
    }

    fn set_var(&mut self, var: NodeLabel, val: Value) {
        broadcast use vstd::std_specs::hash::group_hash_axioms;

        self.map.insert(var.0, val);
    }
}

/// A function of the host that scripts may call by name.
///
/// The engine hands it the store and the arguments as text, and takes what
/// it returns as the value of the call. What it does is the host's affair:
/// the engine promises nothing about a run that reaches such a call, beyond
/// what it hands over.
pub trait HostFunction<C: Context> {
    fn call(&mut self, ctx: &mut C, args: &Vec<String>) -> Value;
}

/// The name of a registered function and the number of arguments it takes.
#[derive(Clone, Copy, PartialEq, Eq, Debug, Structural)]
pub struct FnSig {
    pub name: NodeLabel,
    pub arity: usize,
}

/// The place of the function called `name` in `sigs`: the one registered
/// last, where several have the name.
pub open spec fn find_fn(sigs: Seq<FnSig>, name: NodeLabel) -> Option<int>
    decreases sigs.len(),
{
    if sigs.len() == 0 {
        None
    } else if sigs.last().name == name {
        Some(sigs.len() - 1)
    } else {
        find_fn(sigs.drop_last(), name)
    }
}

/// The registered functions: the signatures, and at the same places the
/// callables.
#[verifier::reject_recursive_types(C)]
pub struct Functions<C: Context> {
    pub sigs: Vec<FnSig>,
    pub callables: Vec<Box<dyn HostFunction<C>>>,
}

impl<C: Context> Functions<C> {
    /// The names and arities, in the order of registration.
    pub open spec fn sigs(&self) -> Seq<FnSig> {
        self.sigs@
    }

    /// The callables, in the order of registration: the one at a place is
    /// what a call of the signature at that place calls.
    pub open spec fn callables(&self) -> Seq<Box<dyn HostFunction<C>>> {
        self.callables@
    }

    /// Every signature has its callable.
    pub open spec fn wf(&self) -> bool {
        self.sigs@.len() == self.callables@.len()
    }

    /// What the invariant says.
    pub proof fn lemma_wf(&self)
        requires
            self.wf(),
        ensures
            self.callables().len() == self.sigs().len(),
    {
    }

    pub fn new() -> (r: Self)
        ensures
            r.wf(),
            r.sigs() == Seq::<FnSig>::empty(),
            r.callables().len() == 0,
    {
        Functions { sigs: Vec::new(), callables: Vec::new() }
    }

    /// Registers `func` under `name`, to be called with `arity` arguments:
    /// the signature and the callable are each added at the end, so that
    /// the callable stands at the place of its signature.
    pub fn add(&mut self, name: NodeLabel, arity: usize, func: Box<dyn HostFunction<C>>)
        requires
            old(self).wf(),
        ensures
            final(self).wf(),
            final(self).sigs() == old(self).sigs().push(FnSig { name, arity }),
            final(self).callables() == old(self).callables().push(func),
            final(self).callables().len() == final(self).sigs().len(),
            old(self).callables().len() == old(self).sigs().len(),
            forall|j: int|
                0 <= j < old(self).callables().len() ==> final(self).callables()[j] == old(
                    self,
                ).callables()[j],
    {
        let ghost before = self.callables@;
        proof {
            vstd::seq::axiom_seq_push_len(before, func);
        }
        self.sigs.push(FnSig { name, arity });
        self.callables.push(func);
        assert(self.callables@ == before.push(func));
        assert(old(self).sigs@.len() == before.len());
        assert forall|j: int| 0 <= j < before.len() implies self.callables@[j] == before[j] by {
            vstd::seq::axiom_seq_push_index_different(before, func, j);
        }
    }

    /// Looks a function up by name.
    pub fn find(&self, name: NodeLabel) -> (r: Option<usize>)
        ensures
            match r {
                Some(i) => find_fn(self.sigs(), name) == Some(i as int) && i < self.sigs().len()
                    && self.sigs()[i as int].name == name,
                None => find_fn(self.sigs(), name) is None,
            },
    {
        let mut i: usize = self.sigs.len();
        assert(self.sigs@.take(i as int) =~= self.sigs@);
        while i > 0
            invariant
                i <= self.sigs@.len(),
                find_fn(self.sigs@, name) == find_fn(self.sigs@.take(i as int), name),
            decreases i,
        {
            assert(self.sigs@.take(i as int).drop_last() =~= self.sigs@.take(i - 1));
            if self.sigs[i - 1].name == name {
                return Some(i - 1);
            }
            i -= 1;
        }
        None
    }

    /// The number of arguments that function `i` takes.
    pub fn arity(&self, i: usize) -> (n: usize)
        requires
            i < self.sigs().len(),
        ensures
            n == self.sigs()[i as int].arity,
    {
        self.sigs[i].arity
    }

    /// Calls function `i`: the callable at place `i`, with the store and the
    /// arguments as they are given. No other callable is touched.
    pub fn invoke(&mut self, i: usize, ctx: &mut C, args: &Vec<String>) -> (r: Value)
        requires
            old(self).wf(),
            i < old(self).sigs().len(),
        ensures
            final(self).wf(),
            final(self).sigs() == old(self).sigs(),
            final(self).callables().len() == old(self).callables().len(),
            forall|j: int|
                0 <= j < old(self).callables().len() && j != i ==> final(self).callables()[j]
                    == old(self).callables()[j],
    {
        let r = self.callables[i].call(ctx, args);
        proof {
            assert forall|j: int|
                0 <= j < old(self).callables@.len() && j != i implies self.callables@[j] == old(
                self,
            ).callables@[j] by {
                vstd::seq::axiom_seq_update_different(
                    old(self).callables@,
                    i as int,
                    j,
                    self.callables@[i as int],
                );
            }
        }
        r
    }
}

} // verus!
