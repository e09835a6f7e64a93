use vstd::prelude::*;

use crate::element::ElementView;
use crate::extract_dimensions::{ExtractDimensions, PrepareOutcome, extract_all};

verus! {

/// An error raised by a pass while it runs.
#[derive(Debug)]
pub enum Error {
    /// A message written by the failing pass.
    Generic(String),
}

impl Error {
    /// The error's message.
    pub fn message(&self) -> (r: String)
        ensures
            match self {
                Error::Generic(s) => r@ == s@,
            },
    {
        match self {
            Error::Generic(s) => s.clone(),
        }
    }
}

/// The passes run over a document beside the optimisation, each enabled or not.
pub struct CustomJobs {
    pub extract_dimensions: ExtractDimensions,
}

/// How many passes take part in a run over a document with `n_elements` elements.
pub open spec fn passes_run(jobs: CustomJobs, n_elements: nat) -> nat {
    if n_elements == 0 {
        0
    } else if jobs.extract_dimensions.is_enabled() {
        1
    } else {
        0
    }
}

impl CustomJobs {
    /// Runs each pass that does not skip over every element, in order;
    /// returns how many ran.
    fn run_jobs(&mut self, elements: &Vec<ElementView>) -> (r: usize)
        ensures
            r == (if old(self).extract_dimensions.is_enabled() { 1nat } else { 0nat }),
            final(self).extract_dimensions.is_enabled() == old(self).extract_dimensions.is_enabled(),
            final(self).extract_dimensions.state() == (if old(self).extract_dimensions.is_enabled() {
                extract_all(old(self).extract_dimensions.state(), elements@)
            } else {
                old(self).extract_dimensions.state()
            }),
    {
        let mut count: usize = 0;
        if self.extract_dimensions.prepare() != PrepareOutcome::Skip {
            count = count + 1;
            self.extract_dimensions.visit_all(elements);
        }
        count
    }

    /// Runs the passes over a document given as its elements in document
    /// order. A document without elements runs no pass. Returns the number
    /// of passes that ran; the first error of a pass would end the run.
    pub fn run(&mut self, elements: &Vec<ElementView>) -> (r: Result<usize, Error>)
        ensures
            r matches Ok(n) && n == passes_run(*old(self), elements@.len()),
            final(self).extract_dimensions.is_enabled() == old(self).extract_dimensions.is_enabled(),
            final(self).extract_dimensions.state() == (if passes_run(
                *old(self),
                elements@.len(),
            ) == 1 {
                extract_all(old(self).extract_dimensions.state(), elements@)
            } else {
                old(self).extract_dimensions.state()
            }),
    {
        if elements.len() == 0 {
            return Ok(0);
        }
        let count = self.run_jobs(elements);
        Ok(count)
    }
}

impl Default for CustomJobs {
    /// Every pass enabled, none with a result yet.
    fn default() -> (r: CustomJobs)
        ensures
            r.extract_dimensions.is_enabled(),
            r.extract_dimensions.state() == (false, None::<(Seq<char>, Seq<char>)>),
    {
        CustomJobs { extract_dimensions: ExtractDimensions::default() }
    }
}

} // verus!
