//! Stages: the steps a fuzzer runs on each corpus entry it picks, chained
//! as a list of nested pairs ending in `()`.
use vstd::prelude::*;

verus! {

/// Why a stage stopped.
#[derive(Clone, Debug)]
pub struct StageError {
    pub message: String,
}

/// One step of the fuzzing process, run on one corpus entry.
pub trait Stage<CS, E, EM, I, S> {
    /// Runs the stage.
    fn perform(
        &mut self,
        state: &mut S,
        executor: &mut E,
        manager: &mut EM,
        scheduler: &CS,
        corpus_idx: usize,
    ) -> Result<(), StageError>;
}

/// A list of stages run one after another.
pub trait StagesTuple<CS, E, EM, I, S> {
    /// Runs every stage in order, stopping at the first that fails.
    fn perform_all(
        &mut self,
        state: &mut S,
        executor: &mut E,
        manager: &mut EM,
        scheduler: &CS,
        corpus_idx: usize,
    ) -> Result<(), StageError>;
}

impl<CS, E, EM, I, S> StagesTuple<CS, E, EM, I, S> for () {
    fn perform_all(
        &mut self,
        state: &mut S,
        executor: &mut E,
        manager: &mut EM,
        scheduler: &CS,
        corpus_idx: usize,
    ) -> Result<(), StageError> {
        Ok(())
    }
}

impl<Head, Tail, CS, E, EM, I, S> StagesTuple<CS, E, EM, I, S> for (Head, Tail) where
    Head: Stage<CS, E, EM, I, S>,
    Tail: StagesTuple<CS, E, EM, I, S>,
 {
    fn perform_all(
        &mut self,
        state: &mut S,
        executor: &mut E,
        manager: &mut EM,
        scheduler: &CS,
        corpus_idx: usize,
    ) -> Result<(), StageError> {
        match self.0.perform(state, executor, manager, scheduler, corpus_idx) {
            Ok(()) => self.1.perform_all(state, executor, manager, scheduler, corpus_idx),
            Err(e) => Err(e),
        }
    }
}

} // verus!
