use vstd::prelude::*;
use std::marker::PhantomData;
use std::rc::Rc;
use crate::signal::{Queriable, StepTypeUUID};
use crate::step::{StepInstance, TraceWitness};

verus! {

/// A step type's witness generator: the step type's identity together with
/// the callback that fills one row of that type from the step's arguments.
pub struct StepTypeWGHandler<F, Args, WG: Fn(&mut StepInstance<F>, Args)> {
    pub id: StepTypeUUID,
    pub annotation: &'static str,
    pub wg: WG,
    pub _marker: PhantomData<(F, Args)>,
}

impl<F, Args, WG: Fn(&mut StepInstance<F>, Args)> StepTypeWGHandler<F, Args, WG> {
    pub fn new(id: StepTypeUUID, annotation: &'static str, wg: WG) -> (r: Self)
        ensures
            r.id == id,
            r.annotation == annotation,
            r.wg == wg,
    {
        StepTypeWGHandler { id, annotation, wg, _marker: PhantomData }
    }

    /// The identity of the step type.
    pub fn uuid(&self) -> (r: StepTypeUUID)
        ensures
            r == self.id,
    {
        self.id
    }

    /// The callback accepts every row and every argument.
    pub open spec fn callable(&self) -> bool {
        forall|m: &mut StepInstance<F>, a: Args| call_requires(self.wg, (m, a))
    }
}

/// The context a trace function fills: the rows so far and the number of
/// rows the finished witness must have.
pub struct TraceContext<F> {
    witness: TraceWitness<F>,
    num_steps: usize,
}

impl<F> TraceContext<F> {
    /// The rows added so far.
    pub closed spec fn rows(&self) -> Seq<StepInstance<F>> {
        self.witness.step_instances@
    }

    /// The number of rows that padding brings the witness to.
    pub closed spec fn target(&self) -> nat {
        self.num_steps as nat
    }

    /// An empty context whose witness is to have `num_steps` rows.
    pub fn new(num_steps: usize) -> (r: Self)
        ensures
            r.rows() == Seq::<StepInstance<F>>::empty(),
            r.target() == num_steps,
    {
        TraceContext { witness: TraceWitness { step_instances: Vec::new() }, num_steps }
    }

    /// The rows added so far.
    pub fn witness(&self) -> (r: &TraceWitness<F>)
        ensures
            r.step_instances@ == self.rows(),
    {
        &self.witness
    }

    /// Ends the run and hands over its witness.
    pub fn get_witness(self) -> (r: TraceWitness<F>)
        ensures
            r.step_instances@ == self.rows(),
    {
        self.witness
    }

    /// Appends one row of the handler's step type, filled by its callback
    /// from `args`.
    pub fn add<Args, WG: Fn(&mut StepInstance<F>, Args)>(
        &mut self,
        step: &StepTypeWGHandler<F, Args, WG>,
        args: Args,
    )
        requires
            step.callable(),
        ensures
            final(self).target() == old(self).target(),
            final(self).rows().len() == old(self).rows().len() + 1,
            final(self).rows().drop_last() == old(self).rows(),
            exists|m: &mut StepInstance<F>|
                #![trigger call_ensures(step.wg, (m, args), ())]
                mut_ref_current(m).step_type_uuid == step.id
                    && mut_ref_current(m).assignments@ == Seq::<(Queriable, F)>::empty()
                    && mut_ref_future(m) == final(self).rows().last()
                    && call_ensures(step.wg, (m, args), ()),
    {
        let mut witness: StepInstance<F> = StepInstance::new(step.uuid());
        (step.wg)(&mut witness, args);
        self.witness.step_instances.push(witness);
        assert(self.rows().drop_last() =~= old(self).rows());
    }

    /// Adds rows of the handler's step type, each filled from a fresh call of
    /// `args_fn`, until the witness has the target number of rows. A witness
    /// at or past the target is left as it is.
    pub fn padding<Args, WG: Fn(&mut StepInstance<F>, Args), AF: Fn() -> Args>(
        &mut self,
        step: &StepTypeWGHandler<F, Args, WG>,
        args_fn: AF,
    )
        requires
            step.callable(),
            call_requires(args_fn, ()),
        ensures
            final(self).target() == old(self).target(),
            final(self).rows().len() == if old(self).rows().len() < old(self).target() {
                old(self).target() as int
            } else {
                old(self).rows().len() as int
            },
            final(self).rows().subrange(0, old(self).rows().len() as int) == old(self).rows(),
            old(self).rows().len() >= old(self).target() ==> final(self).rows() == old(self).rows(),
            forall|row: StepInstance<F>|
                #![trigger final(self).rows().subrange(old(self).rows().len() as int, final(self).rows().len() as int).contains(row)]
                final(self).rows().subrange(old(self).rows().len() as int, final(self).rows().len() as int).contains(row)
                ==> exists|a: Args, m: &mut StepInstance<F>|
                    #![trigger call_ensures(step.wg, (m, a), ())]
                    call_ensures(args_fn, (), a)
                        && mut_ref_current(m).step_type_uuid == step.id
                        && mut_ref_current(m).assignments@ == Seq::<(Queriable, F)>::empty()
                        && mut_ref_future(m) == row
                        && call_ensures(step.wg, (m, a), ()),
    {
        while self.witness.step_instances.len() < self.num_steps
            invariant
                step.callable(),
                call_requires(args_fn, ()),
                self.target() == old(self).target(),
                old(self).rows().len() <= self.rows().len(),
                self.rows().len() <= old(self).rows().len() || self.rows().len() <= self.target(),
                self.rows().subrange(0, old(self).rows().len() as int) == old(self).rows(),
                forall|i: int|
                    #![trigger self.rows()[i]]
                    old(self).rows().len() <= i < self.rows().len() ==> exists|a: Args, m: &mut StepInstance<F>|
                        #![trigger call_ensures(step.wg, (m, a), ())]
                        call_ensures(args_fn, (), a)
                            && mut_ref_current(m).step_type_uuid == step.id
                            && mut_ref_current(m).assignments@ == Seq::<(Queriable, F)>::empty()
                            && mut_ref_future(m) == self.rows()[i]
                            && call_ensures(step.wg, (m, a), ()),
            decreases self.target() - self.rows().len(),
        {
            let ghost before = self.rows();
            let args = args_fn();
            self.add(step, args);
            assert(self.rows().subrange(0, old(self).rows().len() as int)
                =~= before.subrange(0, old(self).rows().len() as int));
            assert forall|i: int|
                old(self).rows().len() <= i < self.rows().len() implies exists|a: Args, m: &mut StepInstance<F>|
                    #![trigger call_ensures(step.wg, (m, a), ())]
                    call_ensures(args_fn, (), a)
                        && mut_ref_current(m).step_type_uuid == step.id
                        && mut_ref_current(m).assignments@ == Seq::<(Queriable, F)>::empty()
                        && mut_ref_future(m) == #[trigger] self.rows()[i]
                        && call_ensures(step.wg, (m, a), ()) by {
                if i < before.len() {
                    assert(self.rows()[i] == before[i]);
                } else {
                    assert(self.rows()[i] == self.rows().last());
                }
            }
        }
        assert forall|row: StepInstance<F>|
            self.rows().subrange(old(self).rows().len() as int, self.rows().len() as int).contains(row)
            implies exists|a: Args, m: &mut StepInstance<F>|
                #![trigger call_ensures(step.wg, (m, a), ())]
                call_ensures(args_fn, (), a)
                    && mut_ref_current(m).step_type_uuid == step.id
                    && mut_ref_current(m).assignments@ == Seq::<(Queriable, F)>::empty()
                    && mut_ref_future(m) == row
                    && call_ensures(step.wg, (m, a), ()) by {
            let k = choose|k: int| 0 <= k < self.rows().len() - old(self).rows().len()
                && self.rows().subrange(old(self).rows().len() as int, self.rows().len() as int)[k] == row;
            assert(self.rows()[old(self).rows().len() + k] == row);
        }
    }
}

/// Relies on `Rc::clone`: the new pointer shares the value of the old one.
#[verifier::external_body]
fn share<T>(r: &Rc<T>) -> (s: Rc<T>)
    ensures
        *s == **r,
{
    Rc::clone(r)
}

/// A reusable bundle of a trace function and the number of rows each witness
/// it generates must have. Clones share the trace function. A generator
/// without a trace function generates empty witnesses.
pub struct TraceGenerator<F, TraceArgs, T: Fn(&mut TraceContext<F>, TraceArgs)> {
    trace: Option<Rc<T>>,
    num_steps: usize,
    _marker: PhantomData<(F, TraceArgs)>,
}

impl<F, TraceArgs, T: Fn(&mut TraceContext<F>, TraceArgs)> TraceGenerator<F, TraceArgs, T> {
    /// Whether a trace function is bound.
    pub closed spec fn bound(&self) -> bool {
        self.trace is Some
    }

    /// The trace function, where one is bound.
    pub closed spec fn trace_fn(&self) -> T {
        *self.trace->Some_0
    }

    /// The number of rows of each generated witness context.
    pub closed spec fn target(&self) -> nat {
        self.num_steps as nat
    }

    pub fn new(trace: Rc<T>, num_steps: usize) -> (r: Self)
        ensures
            r.bound(),
            r.trace_fn() == *trace,
            r.target() == num_steps,
    {
        TraceGenerator { trace: Some(trace), num_steps, _marker: PhantomData }
    }

    /// Runs the trace function on a fresh context and returns the witness it
    /// built.
    pub fn generate(&self, args: TraceArgs) -> (r: TraceWitness<F>)
        requires
            self.bound() ==> forall|m: &mut TraceContext<F>, a: TraceArgs|
                call_requires(self.trace_fn(), (m, a)),
        ensures
            !self.bound() ==> r.step_instances@ == Seq::<StepInstance<F>>::empty(),
            self.bound() ==> exists|m: &mut TraceContext<F>|
                #![trigger call_ensures(self.trace_fn(), (m, args), ())]
                mut_ref_current(m).rows() == Seq::<StepInstance<F>>::empty()
                    && mut_ref_current(m).target() == self.target()
                    && mut_ref_future(m).rows() == r.step_instances@
                    && call_ensures(self.trace_fn(), (m, args), ()),
    {
        let mut ctx: TraceContext<F> = TraceContext::new(self.num_steps);
        match &self.trace {
            Some(trace) => {
                assert(self.trace_fn() == **trace);
                assert(forall|m: &mut TraceContext<F>, a: TraceArgs|
                    #[trigger] call_requires(**trace, (m, a)));
                (**trace)(&mut ctx, args);
            },
            None => {},
        }
        ctx.get_witness()
    }
}

impl<F, TraceArgs, T: Fn(&mut TraceContext<F>, TraceArgs)> Clone for TraceGenerator<F, TraceArgs, T> {
    /// A generator that shares this one's trace function and row count.
    fn clone(&self) -> (r: Self)
        ensures
            r.bound() == self.bound(),
            r.trace_fn() == self.trace_fn(),
            r.target() == self.target(),
    {
        let trace = match &self.trace {
            Some(t) => Some(share(t)),
            None => None,
        };
        TraceGenerator { trace, num_steps: self.num_steps, _marker: PhantomData }
    }
}

impl<F, TraceArgs, T: Fn(&mut TraceContext<F>, TraceArgs)> Default for TraceGenerator<F, TraceArgs, T> {
    /// A generator that does nothing and asks for no rows: it generates empty
    /// witnesses.
    fn default() -> (r: Self)
        ensures
            !r.bound(),
            r.target() == 0,
    {
        TraceGenerator { trace: None, num_steps: 0, _marker: PhantomData }
    }
}

/// A generator and its clone run the same trace function on contexts of the
/// same size: from equal contexts and arguments they admit the same
/// outcomes. As `generate` gives each run its own empty context, what one run
/// produces does not depend on any run of the other.
pub proof fn lemma_clone_generates_alike<F, TraceArgs, T: Fn(&mut TraceContext<F>, TraceArgs)>(
    g: TraceGenerator<F, TraceArgs, T>,
    c: TraceGenerator<F, TraceArgs, T>,
)
    requires
        c.bound() == g.bound(),
        c.trace_fn() == g.trace_fn(),
        c.target() == g.target(),
    ensures
        forall|m: &mut TraceContext<F>, args: TraceArgs|
            #![trigger call_ensures(g.trace_fn(), (m, args), ())]
            call_ensures(g.trace_fn(), (m, args), ()) <==> call_ensures(c.trace_fn(), (m, args), ()),
        forall|m: &mut TraceContext<F>, args: TraceArgs|
            #![trigger call_requires(g.trace_fn(), (m, args))]
            call_requires(g.trace_fn(), (m, args)) <==> call_requires(c.trace_fn(), (m, args)),
{
}

} // verus!
