//! The scoped variable store: one flat list of bindings, cut into frames.
//!
//! A frame is remembered by the position in the binding list where it starts.
//! Assigning a name that is already bound updates that binding in place,
//! whichever frame owns it; assigning a new name appends it to the innermost
//! frame. Popping a frame drops exactly the bindings made since it was pushed.
use vstd::prelude::*;

verus! {

/// The mathematical model of a `DataStore`.
pub struct StoreModel {
    pub vars: Seq<Seq<char>>,
    pub vals: Seq<i64>,
    /// For each open frame, innermost last, the index of its first binding.
    pub frames: Seq<nat>,
}

/// The first index at or after `i` where `vars` holds `name`.
pub open spec fn find_from(vars: Seq<Seq<char>>, name: Seq<char>, i: int) -> Option<int>
    decreases vars.len() - i,
{
    if i < 0 || i >= vars.len() {
        None
    } else if vars[i] == name {
        Some(i)
    } else {
        find_from(vars, name, i + 1)
    }
}

impl StoreModel {
    pub open spec fn empty() -> StoreModel {
        StoreModel { vars: Seq::empty(), vals: Seq::empty(), frames: Seq::empty() }
    }

    /// Names and values line up, and the frames start in order inside the bindings.
    pub open spec fn wf(self) -> bool {
        &&& self.vars.len() == self.vals.len()
        &&& forall|k: int| 0 <= k < self.frames.len() ==> #[trigger] self.frames[k] <= self.vars.len()
        &&& forall|k: int, l: int|
            0 <= k <= l < self.frames.len() ==> #[trigger] self.frames[k] <= #[trigger] self.frames[l]
    }

    pub open spec fn position(self, name: Seq<char>) -> Option<int> {
        find_from(self.vars, name, 0)
    }

    /// The value bound to `name`, if any.
    pub open spec fn lookup(self, name: Seq<char>) -> Option<i64> {
        match self.position(name) {
            Some(i) => Some(self.vals[i]),
            None => None,
        }
    }

    pub open spec fn bound(self, name: Seq<char>) -> bool {
        self.position(name) is Some
    }

    pub open spec fn push_frame(self) -> StoreModel {
        StoreModel { frames: self.frames.push(self.vars.len()), ..self }
    }

    /// Drops the innermost frame and every binding it introduced.
    pub open spec fn pop_frame(self) -> StoreModel {
        if self.frames.len() == 0 {
            self
        } else {
            let start = self.frames.last() as int;
            StoreModel {
                vars: self.vars.take(start),
                vals: self.vals.take(start),
                frames: self.frames.drop_last(),
            }
        }
    }

    /// Updates the existing binding of `name`, or binds it in the innermost frame.
    pub open spec fn assign(self, name: Seq<char>, val: i64) -> StoreModel {
        match self.position(name) {
            Some(i) => StoreModel { vals: self.vals.update(i, val), ..self },
            None => StoreModel { vars: self.vars.push(name), vals: self.vals.push(val), ..self },
        }
    }
}

pub proof fn lemma_find_from_bounds(vars: Seq<Seq<char>>, name: Seq<char>, i: int)
    ensures
        match find_from(vars, name, i) {
            Some(j) => i <= j < vars.len() && vars[j] == name,
            None => forall|j: int| 0 <= i <= j < vars.len() ==> vars[j] != name,
        },
    decreases vars.len() - i,
{
    if 0 <= i < vars.len() && vars[i] != name {
        lemma_find_from_bounds(vars, name, i + 1);
    }
}

/// A stack of variable frames over one flat list of bindings.
pub struct DataStore {
    vars: Vec<String>,
    vals: Vec<i64>,
    frames: Vec<usize>,
}

impl View for DataStore {
    type V = StoreModel;

    closed spec fn view(&self) -> StoreModel {
        StoreModel {
            vars: self.vars@.map_values(|s: String| s@),
            vals: self.vals@,
            frames: self.frames@.map_values(|f: usize| f as nat),
        }
    }
}

impl DataStore {
    pub open spec fn wf(&self) -> bool {
        self@.wf()
    }

    /// An empty store with no frame.
    pub fn new() -> (r: DataStore)
        ensures
            r@ == StoreModel::empty(),
            r.wf(),
    {
        let r = DataStore { vars: Vec::new(), vals: Vec::new(), frames: Vec::new() };
        assert(r@.vars =~= Seq::<Seq<char>>::empty());
        assert(r@.frames =~= Seq::<nat>::empty());
        r
    }

    /// Opens a new innermost frame.
    pub fn expand(&mut self)
        requires
            old(self).wf(),
        ensures
            final(self)@ == old(self)@.push_frame(),
            final(self).wf(),
    {
        let start = self.vars.len();
        self.frames.push(start);
        assert(self@.frames =~= old(self)@.frames.push(old(self)@.vars.len()));
        assert(self@.vars =~= old(self)@.vars);
    }

    /// Closes the innermost frame, dropping the bindings it introduced.
    pub fn contract(&mut self)
        requires
            old(self).wf(),
            old(self)@.frames.len() > 0,
        ensures
            final(self)@ == old(self)@.pop_frame(),
            final(self).wf(),
    {
        let start = self.frames.pop().unwrap();
        assert(old(self)@.frames[old(self)@.frames.len() - 1] <= old(self)@.vars.len());
        self.vars.truncate(start);
        self.vals.truncate(start);
        let ghost m = old(self)@;
        assert(self@.vars =~= m.vars.take(start as int));
        assert(self@.vals =~= m.vals.take(start as int));
        assert(self@.frames =~= m.frames.drop_last());
        assert forall|k: int| 0 <= k < self@.frames.len() implies #[trigger] self@.frames[k]
            <= self@.vars.len() by {
            assert(m.frames[k] <= m.frames[m.frames.len() - 1]);
        }
    }

    /// Where `var` is bound, if it is.
    fn position(&self, var: &String) -> (r: Option<usize>)
        ensures
            match r {
                Some(i) => self@.position(var@) == Some(i as int),
                None => self@.position(var@) is None,
            },
    {
        let mut i: usize = 0;
        while i < self.vars.len()
            invariant
                i <= self.vars.len(),
                find_from(self@.vars, var@, 0) == find_from(self@.vars, var@, i as int),
            decreases self.vars.len() - i,
        {
            if self.vars[i] == *var {
                return Some(i);
            }
            i = i + 1;
        }
        None
    }

    /// Binds `var` to `val`: in place where it is already bound, else in the innermost frame.
    pub fn put(&mut self, var: &String, val: i64)
        requires
            old(self).wf(),
        ensures
            final(self)@ == old(self)@.assign(var@, val),
            final(self).wf(),
    {
        proof {
            lemma_find_from_bounds(self@.vars, var@, 0);
        }
        match self.position(var) {
            Some(i) => {
                self.vals.set(i, val);
                assert(self@.vals =~= old(self)@.vals.update(i as int, val));
                assert(self@.vars =~= old(self)@.vars);
                assert(self@.frames =~= old(self)@.frames);
            },
            None => {
                self.vars.push(var.clone());
                self.vals.push(val);
                assert(self@.vars =~= old(self)@.vars.push(var@));
                assert(self@.frames =~= old(self)@.frames);
            },
        }
    }

    /// The value bound to `var`, if any.
    pub fn get(&self, var: &String) -> (r: Option<i64>)
        requires
            self.wf(),
        ensures
            r == self@.lookup(var@),
    {
        proof {
            lemma_find_from_bounds(self@.vars, var@, 0);
        }
        match self.position(var) {
            Some(i) => {
                Some(self.vals[i])
            },
            None => None,
        }
    }
}

} // verus!
