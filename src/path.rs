use vstd::prelude::*;

verus! {

/// One execution path, as a mathematical object.
pub struct PathModel {
    /// The raw values the engine picked for this path, in the order they are asked for.
    /// A request past the end of the sequence gets 0.
    pub choices: Seq<u128>,
    /// One entry per raw value handed out so far: the description of the request and the value.
    pub trace: Seq<(&'static str, u128)>,
    /// The conditions taken to hold on this path so far, oldest first.
    pub conditions: Seq<bool>,
}

impl PathModel {
    /// A path on which nothing has happened yet.
    pub open spec fn fresh(choices: Seq<u128>) -> PathModel {
        PathModel { choices, trace: Seq::empty(), conditions: Seq::empty() }
    }

    /// The raw value that the `k`-th request of the path receives.
    pub open spec fn choice_at(self, k: int) -> u128 {
        if 0 <= k < self.choices.len() {
            self.choices[k]
        } else {
            0
        }
    }

    /// The next `n` raw values that requests on this path will receive.
    pub open spec fn upcoming(self, n: nat) -> Seq<u128> {
        Seq::new(n, |j: int| self.choice_at(self.trace.len() + j))
    }

    /// The raw value that the next request receives.
    pub open spec fn next_raw(self) -> u128 {
        self.choice_at(self.trace.len() as int)
    }

    /// The path after `n` more requests, all described by `desc`.
    pub open spec fn after_draws(self, n: nat, desc: &'static str) -> PathModel {
        PathModel {
            trace: self.trace + Seq::new(n, |j: int| (desc, self.choice_at(self.trace.len() + j))),
            ..self
        }
    }

    /// The path after `cond` has been taken to hold.
    pub open spec fn after_condition(self, cond: bool) -> PathModel {
        PathModel { conditions: self.conditions.push(cond), ..self }
    }

    /// Every condition taken so far holds: the path is still alive.
    pub open spec fn feasible(self) -> bool {
        forall|i: int| 0 <= i < self.conditions.len() ==> #[trigger] self.conditions[i]
    }

    /// `self` is `earlier` continued: same choices, and both the trace and the
    /// conditions have only grown.
    pub open spec fn extends(self, earlier: PathModel) -> bool {
        &&& self.choices == earlier.choices
        &&& earlier.trace.len() <= self.trace.len()
        &&& self.trace.subrange(0, earlier.trace.len() as int) == earlier.trace
        &&& earlier.conditions.len() <= self.conditions.len()
        &&& self.conditions.subrange(0, earlier.conditions.len() as int) == earlier.conditions
    }
}

/// The state of one execution path: where its symbolic values come from, what
/// was handed out, and the conditions that narrow it.
pub struct Path {
    choices: Vec<u128>,
    next: usize,
    trace: Vec<(&'static str, u128)>,
    conditions: Vec<bool>,
    feasible: bool,
}

impl View for Path {
    type V = PathModel;

    closed spec fn view(&self) -> PathModel {
        PathModel { choices: self.choices@, trace: self.trace@, conditions: self.conditions@ }
    }
}

impl Path {
    /// The internal bookkeeping agrees with the model.
    pub closed spec fn wf(&self) -> bool {
        &&& self.next as int == if self.trace@.len() < self.choices@.len() {
            self.trace@.len() as int
        } else {
            self.choices@.len() as int
        }
        &&& self.feasible == self@.feasible()
    }

    /// A path whose requests receive `choices` in order, then zeros.
    pub fn new(choices: Vec<u128>) -> (r: Path)
        ensures
            r.wf(),
            r@ == PathModel::fresh(choices@),
    {
        let r = Path {
            choices,
            next: 0,
            trace: Vec::new(),
            conditions: Vec::new(),
            feasible: true,
        };
        proof {
            assert(r@.conditions =~= Seq::<bool>::empty());
            assert(r@.trace =~= Seq::<(&'static str, u128)>::empty());
        }
        r
    }

    /// Hands out the next raw value of the path and records it under `desc`.
    pub fn draw(&mut self, desc: &'static str) -> (r: u128)
        requires
            old(self).wf(),
        ensures
            final(self).wf(),
            final(self)@ == old(self)@.after_draws(1, desc),
            r == old(self)@.next_raw(),
    {
        let r: u128 = if self.next < self.choices.len() {
            let v = self.choices[self.next];
            self.next = self.next + 1;
            v
        } else {
            0
        };
        self.trace.push((desc, r));
        proof {
            let m = old(self)@.after_draws(1, desc);
            assert(self@.trace =~= m.trace);
            assert(self@ == m);
            assert(self@.conditions == old(self)@.conditions);
            assert(self@.feasible() == old(self)@.feasible());
        }
        r
    }

    /// Takes `cond` to hold from here on. Where it does not, the path is dead:
    /// it stays so whatever follows.
    pub fn add_condition(&mut self, cond: bool)
        requires
            old(self).wf(),
        ensures
            final(self).wf(),
            final(self)@ == old(self)@.after_condition(cond),
    {
        self.conditions.push(cond);
        self.feasible = self.feasible && cond;
        proof {
            let m = old(self)@.after_condition(cond);
            assert(self@ == m);
            if self.feasible {
                assert forall|i: int| 0 <= i < m.conditions.len() implies #[trigger] m.conditions[i] by {
                    if i < old(self)@.conditions.len() {
                        assert(old(self)@.conditions[i]);
                    }
                }
            } else if !cond {
                assert(!m.conditions[m.conditions.len() - 1]);
            } else {
                let i = choose|i: int| 0 <= i < old(self)@.conditions.len() && !old(self)@.conditions[i];
                assert(!m.conditions[i]);
            }
        }
    }

    /// The raw values handed out so far, each with the description of its request.
    pub fn trace(&self) -> (r: &Vec<(&'static str, u128)>)
        ensures
            r@ == self@.trace,
    {
        &self.trace
    }

    /// Whether every condition taken on this path holds.
    pub fn is_feasible(&self) -> (r: bool)
        requires
            self.wf(),
        ensures
            r == self@.feasible(),
    {
        self.feasible
    }
}

} // verus!
