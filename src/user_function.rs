//! User-defined functions and the table that registers them by name.
use vstd::prelude::*;
use crate::data_store::DataStore;
use crate::error::EvalError;
use crate::expression::{evaluate_list, Expression};
use crate::assembly::names_view;
use crate::folding::{fun_folds, table_folds};
use crate::program::Program;
use crate::semantics::{call_result, find_fn_from, res_name, Budget, Machine};

verus! {

/// A function body with the names of its parameters.
pub struct UserFunction {
    pub code: Program,
    pub args: Vec<String>,
}

/// The registered functions, in order of declaration.
pub struct FunctionTable {
    entries: Vec<(String, UserFunction)>,
}

impl View for FunctionTable {
    type V = Seq<(Seq<char>, UserFunction)>;

    closed spec fn view(&self) -> Seq<(Seq<char>, UserFunction)> {
        self.entries@.map_values(|e: (String, UserFunction)| (e.0@, e.1))
    }
}

/// Name and parameter count of each registered function.
pub open spec fn sigs_of(reg: Seq<(Seq<char>, UserFunction)>) -> Seq<(Seq<char>, nat)> {
    reg.map_values(|e: (Seq<char>, UserFunction)| (e.0, e.1.args.len() as nat))
}

pub proof fn lemma_find_sig(reg: Seq<(Seq<char>, UserFunction)>, name: Seq<char>, k: int)
    requires
        0 <= k <= reg.len(),
    ensures
        crate::syntax::find_sig(sigs_of(reg), name, k) == find_fn_from(reg, name, k),
    decreases reg.len() - k,
{
    if k < reg.len() {
        lemma_find_sig(reg, name, k + 1);
    }
}

/// The string `res`.
fn res_string() -> (r: String)
    ensures
        r@ == res_name(),
{
    let r = String::from_str("res");
    proof {
        reveal_strlit("res");
    }
    assert(r@ =~= res_name());
    r
}

impl FunctionTable {
    /// The table with every function optimised.
    pub fn optimise(&self) -> (r: FunctionTable)
        ensures
            table_folds(self@, r@),
    {
        let mut entries: Vec<(String, UserFunction)> = Vec::new();
        let mut k: usize = 0;
        while k < self.entries.len()
            invariant
                k <= self.entries.len(),
                entries.len() == k,
                forall|j: int| 0 <= j < k ==> (#[trigger] entries@[j]).0@ == self.entries@[j].0@ && fun_folds(
                    self.entries@[j].1,
                    entries@[j].1,
                ),
            decreases self.entries.len() - k,
        {
            let e = &self.entries[k];
            entries.push((e.0.clone(), e.1.optimise()));
            k = k + 1;
        }
        let r = FunctionTable { entries };
        assert forall|j: int| 0 <= j < self@.len() implies (#[trigger] r@[j]).0 == self@[j].0 && fun_folds(
            self@[j].1,
            r@[j].1,
        ) by {
            assert(entries@[j].0@ == self.entries@[j].0@);
        }
        r
    }

    /// A table with no function.
    pub fn new() -> (r: FunctionTable)
        ensures
            r@ == Seq::<(Seq<char>, UserFunction)>::empty(),
    {
        let r = FunctionTable { entries: Vec::new() };
        assert(r@ =~= Seq::<(Seq<char>, UserFunction)>::empty());
        r
    }

    pub fn len(&self) -> (r: usize)
        ensures
            r == self@.len(),
    {
        self.entries.len()
    }

    /// The index of the first function registered under `name`.
    pub fn find(&self, name: &String) -> (r: Option<usize>)
        ensures
            match r {
                Some(k) => k < self@.len() && find_fn_from(self@, name@, 0) == Some(k as int),
                None => find_fn_from(self@, name@, 0) is None,
            },
    {
        let mut k: usize = 0;
        while k < self.entries.len()
            invariant
                k <= self.entries.len(),
                find_fn_from(self@, name@, 0) == find_fn_from(self@, name@, k as int),
            decreases self.entries.len() - k,
        {
            if self.entries[k].0 == *name {
                return Some(k);
            }
            k = k + 1;
        }
        None
    }

    /// The function at index `k`.
    pub fn get(&self, k: usize) -> (r: &UserFunction)
        requires
            k < self@.len(),
        ensures
            *r == self@[k as int].1,
    {
        &self.entries[k].1
    }

    /// The parameter count of the function at index `k`.
    pub fn arity(&self, k: usize) -> (r: usize)
        requires
            k < self@.len(),
        ensures
            r == self@[k as int].1.args.len(),
    {
        self.entries[k].1.args.len()
    }

    /// Appends a function under `name`.
    pub fn register(&mut self, name: String, f: UserFunction)
        ensures
            final(self)@ == old(self)@.push((name@, f)),
    {
        self.entries.push((name, f));
        assert(self@ =~= old(self)@.push((name@, f)));
    }

    /// Gives the function at index `k` a new body.
    pub fn set_code(&mut self, k: usize, code: Program)
        requires
            k < old(self)@.len(),
        ensures
            final(self)@ == old(self)@.update(
                k as int,
                (old(self)@[k as int].0, UserFunction { code, args: old(self)@[k as int].1.args }),
            ),
    {
        let (name, f) = self.entries.remove(k);
        let g = UserFunction { code, args: f.args };
        self.entries.insert(k, (name, g));
        assert(self@ =~= old(self)@.update(
            k as int,
            (old(self)@[k as int].0, UserFunction { code, args: old(self)@[k as int].1.args }),
        ));
    }
}

fn clone_names(v: &Vec<String>) -> (r: Vec<String>)
    ensures
        names_view(r) == names_view(*v),
{
    let mut r: Vec<String> = Vec::new();
    let mut i: usize = 0;
    while i < v.len()
        invariant
            i <= v.len(),
            names_view(r) == names_view(*v).take(i as int),
        decreases v.len() - i,
    {
        let ghost before = names_view(r);
        let c = v[i].clone();
        r.push(c);
        assert(names_view(r) =~= before.push(c@));
        assert(names_view(r) =~= names_view(*v).take(i + 1));
        i = i + 1;
    }
    assert(names_view(*v).take(v.len() as int) =~= names_view(*v));
    r
}

impl UserFunction {
    /// The function with its body optimised.
    pub fn optimise(&self) -> (r: UserFunction)
        ensures
            fun_folds(*self, r),
    {
        UserFunction { code: self.code.optimise(), args: clone_names(&self.args) }
    }

    /// Calls the function: `vars` are evaluated in the caller's store, the body
    /// runs in a fresh store where `res` starts at 0, and the call yields `res`.
    pub fn apply(
        &self,
        vars: &Vec<Expression>,
        data_store: &mut DataStore,
        out: &mut Vec<char>,
        user_fns: &FunctionTable,
        budget: Budget,
    ) -> (r: Result<Option<i64>, EvalError>)
        requires
            old(data_store).wf(),
        ensures
            final(data_store)@ == old(data_store)@,
            (Machine { store: final(data_store)@, out: final(out)@ }, r) == call_result(
                user_fns@,
                budget,
                *self,
                *vars,
                Machine { store: old(data_store)@, out: old(out)@ },
            ),
        decreases budget.depth, budget.steps, 0int, vars, vars.len() + 1,
    {
        if self.args.len() != vars.len() {
            return Err(EvalError::ArgumentCount);
        }
        if budget.depth == 0 {
            return Err(EvalError::RecursionTooDeep);
        }
        let vals = match evaluate_list(vars, data_store, out, user_fns, budget) {
            Err(e) => {
                return Err(e);
            },
            Ok(vals) => vals,
        };
        let ghost m1 = Machine { store: data_store@, out: out@ };
        let mut function_data_store = DataStore::new();
        function_data_store.expand();
        let res = res_string();
        function_data_store.put(&res, 0);
        let mut k: usize = 0;
        while k < self.args.len()
            invariant
                k <= self.args.len(),
                self.args.len() == vals@.len(),
                function_data_store.wf(),
                crate::semantics::callee_store(*self, vals@) == crate::semantics::bind_params(
                    function_data_store@,
                    self.args@.map_values(|s: String| s@),
                    vals@,
                    k as int,
                ),
            decreases self.args.len() - k,
        {
            function_data_store.put(&self.args[k], vals[k]);
            k = k + 1;
        }
        let budget1 = Budget { depth: budget.depth - 1, steps: budget.steps };
        let r = self.code.run_with(&mut function_data_store, out, user_fns, budget1);
        match r {
            Err(e) => Err(e),
            Ok(_) => Ok(function_data_store.get(&res)),
        }
    }
}

} // verus!
