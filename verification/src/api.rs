//! Values and rules of the Python-facing surface: the greeting, and the
//! handle through which a submitted task's result is collected exactly once.

use vstd::prelude::*;

verus! {

/// The greeting that the extension returns to Python for `name`.
pub fn hello(name: &str) -> (greeting: String)
    ensures
        greeting@ == "Hello from photon, "@ + name@ + "!"@,
{
    let mut greeting = String::from_str("Hello from photon, ");
    greeting.append(name);
    greeting.append("!");
    greeting
}

/// Why a task's result could not be collected.
#[derive(Debug, PartialEq, Eq, Structural)]
pub enum TakeError {
    /// The result was collected before: `get()` may only be called once.
    AlreadyTaken,
}

/// A slot holding something (a task's result channel) that may be taken
/// out once.
#[derive(Debug)]
pub struct OnceSlot<T> {
    value: Option<T>,
}

/// What taking from a slot holding `contents` answers.
pub open spec fn take_answer<T>(contents: Option<T>) -> Result<T, TakeError> {
    match contents {
        Some(v) => Ok(v),
        None => Err(TakeError::AlreadyTaken),
    }
}

impl<T> OnceSlot<T> {
    /// What the slot holds.
    pub closed spec fn contents(&self) -> Option<T> {
        self.value
    }

    /// A slot holding `value`.
    pub fn new(value: T) -> (s: OnceSlot<T>)
        ensures
            s.contents() == Some(value),
    {
        OnceSlot { value: Some(value) }
    }

    /// Take what the slot holds, leaving it empty; an empty slot answers
    /// `AlreadyTaken`.
    pub fn take(&mut self) -> (r: Result<T, TakeError>)
        ensures
            r == take_answer(old(self).contents()),
            final(self).contents() == None::<T>,
    {
        match self.value.take() {
            Some(v) => Ok(v),
            None => Err(TakeError::AlreadyTaken),
        }
    }
}

/// A slot gives up its value on the first take, and every take after that
/// is refused.
pub proof fn law_take_once<T>(value: T)
    ensures
        take_answer(Some(value)) == Ok::<T, TakeError>(value),
        take_answer(None::<T>) == Err::<T, TakeError>(TakeError::AlreadyTaken),
{
}

} // verus!
