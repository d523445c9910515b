use std::rc::Rc;
use vstd::prelude::*;

use crate::code::definitions::Instructions;
use crate::common::object::Closure;

verus! {

/// The record of one call: the closure that runs, the offset of its next
/// instruction, and the stack slot of its first argument. The closure itself
/// lies one slot below.
#[derive(Debug)]
pub struct Frame {
    pub closure: Rc<Closure>,
    /// instruction pointer
    pub ip: usize,
    /// base pointer
    pub bp: usize,
}

impl Frame {
    pub fn new(closure: Rc<Closure>, bp: usize) -> (frame: Frame)
        ensures
            frame == (Frame { closure, ip: 0, bp }),
    {
        Frame { closure, ip: 0, bp }
    }

    /// The instructions of the closure that runs.
    pub fn instructions(&self) -> (instructions: &Instructions)
        ensures
            *instructions == *self.closure.func.instructions,
    {
        &self.closure.func.instructions
    }
}

} // verus!
