//! What the fuzzer sees of the sanitizer: an observer that holds the errors
//! of the last run, and a feedback that keeps inputs which caused errors.
use vstd::prelude::*;

use crate::errors::{AsanError, AsanErrors};
use crate::runtime::AsanRuntime;

verus! {

/// Holds the errors of the most recent run.
pub struct AsanErrorsObserver {
    errors: Option<AsanErrors>,
}

impl AsanErrorsObserver {
    pub closed spec fn held(&self) -> Option<Seq<AsanError>> {
        match self.errors {
            Some(e) => Some(e.view()),
            None => None,
        }
    }

    /// An observer that owns `errors`.
    pub fn new_owned(errors: Option<AsanErrors>) -> (r: Self)
        ensures
            r.held() == match errors {
                Some(e) => Some(e.view()),
                None => None::<Seq<AsanError>>,
            },
    {
        AsanErrorsObserver { errors }
    }

    /// The errors of the previous run.
    pub fn errors(&self) -> (r: Option<&AsanErrors>)
        ensures
            match r {
                Some(e) => self.held() == Some(e.view()),
                None => self.held() is None,
            },
    {
        self.errors.as_ref()
    }

    /// Before each run: the runtime forgets the errors of the previous one.
    pub fn pre_exec(&self, runtime: &mut AsanRuntime)
        ensures
            final(runtime).log() == Seq::<AsanError>::empty(),
            final(runtime).stalked() == old(runtime).stalked(),
            final(runtime).modules() == old(runtime).modules(),
            final(runtime).opts() == old(runtime).opts(),
    {
        runtime.clear_errors();
    }

    /// The observer's name.
    pub fn name(&self) -> (r: &'static str)
        ensures
            r@ == "AsanErrors"@,
    {
        "AsanErrors"
    }
}

/// `c` is a copy of `e`: error for error the same reports.
pub open spec fn copies(c: Seq<AsanError>, e: Seq<AsanError>) -> bool {
    c.len() == e.len() && forall|i: int| 0 <= i < e.len() ==> (#[trigger] c[i]).same_report(&e[i])
}

/// Marks an input interesting when its run caused errors, and keeps a copy
/// of them to attach to the input.
pub struct AsanErrorsFeedback {
    errors: Option<AsanErrors>,
}

impl AsanErrorsFeedback {
    pub closed spec fn kept(&self) -> Option<AsanErrors> {
        self.errors
    }

    /// A feedback that holds no errors.
    pub fn new() -> (r: Self)
        ensures
            r.kept() is None,
    {
        AsanErrorsFeedback { errors: None }
    }

    /// Whether the run the observer saw caused any error; if so, a copy of
    /// the errors is kept.
    pub fn is_interesting(&mut self, observer: &AsanErrorsObserver) -> (r: bool)
        ensures
            r == (observer.held() matches Some(e) && e.len() > 0),
            r ==> (final(self).kept() matches Some(k) && copies(k.view(), observer.held().unwrap())),
            !r ==> final(self).kept() == old(self).kept(),
    {
        match observer.errors() {
            None => false,
            Some(errors) => {
                if errors.is_empty() {
                    false
                } else {
                    self.errors = Some(errors.duplicate());
                    true
                }
            },
        }
    }

    /// The errors to attach to the input just found interesting: a copy of
    /// those kept.
    pub fn append_metadata(&self) -> (r: Option<AsanErrors>)
        ensures
            r is Some == self.kept() is Some,
            r matches Some(c) ==> copies(c.view(), self.kept().unwrap().view()),
    {
        match &self.errors {
            Some(e) => Some(e.duplicate()),
            None => None,
        }
    }

    /// Forgets the kept errors: the input was not kept.
    pub fn discard_metadata(&mut self)
        ensures
            final(self).kept() is None,
    {
        self.errors = None;
    }

    /// The feedback's name.
    pub fn name(&self) -> (r: &'static str)
        ensures
            r@ == "AsanErrors"@,
    {
        "AsanErrors"
    }
}

impl Default for AsanErrorsFeedback {
    fn default() -> (r: Self)
        ensures
            r.kept() is None,
    {
        Self::new()
    }
}

} // verus!
