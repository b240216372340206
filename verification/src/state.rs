//! A value set once and read afterwards.
use vstd::prelude::*;

verus! {

/// A value that is set once, then read.
#[derive(Debug)]
pub struct State<T> {
    data: Option<T>,
}

impl<T> State<T> {
    /// The value, once set.
    pub closed spec fn spec_value(&self) -> Option<T> {
        self.data
    }

    /// A state not set yet.
    pub fn new() -> (r: State<T>)
        ensures
            r.spec_value() is None,
    {
        State { data: None }
    }

    /// Sets the value; a state is set only once.
    pub fn set(&mut self, data: T)
        requires
            old(self).spec_value() is None,
        ensures
            final(self).spec_value() == Some(data),
    {
        self.data = Some(data);
    }

    /// The value set.
    pub fn get(&self) -> (r: &T)
        requires
            self.spec_value() is Some,
        ensures
            Some(*r) == self.spec_value(),
    {
        self.data.as_ref().unwrap()
    }
}

} // verus!
