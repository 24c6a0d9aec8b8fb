use vstd::prelude::*;
use vstd::std_specs::cmp::PartialEqSpec;

verus! {

/// A value of application state that can say whether it stands for maintenance.
pub trait IsMaintenance: Clone + PartialEq {
    /// Whether this value stands for maintenance.
    spec fn maintenance(&self) -> bool;

    fn is_maintenance(&self) -> (r: bool)
        ensures
            r == self.maintenance(),
    ;
}

/// The application's current state.
#[derive(Debug)]
pub struct State<T>(pub T);

impl<T: IsMaintenance> State<T> {
    /// Whether the state equals one of `args`.
    pub fn eq_any<const N: usize>(&self, args: [T; N]) -> (r: bool)
        ensures
            T::obeys_eq_spec() ==> (r <==> exists|i: int|
                0 <= i < N && #[trigger] args@[i].eq_spec(&self.0)),
    {
        let mut i: usize = 0;
        while i < N
            invariant
                0 <= i <= N,
                args@.len() == N,
                T::obeys_eq_spec() ==> forall|j: int| 0 <= j < i ==> !#[trigger] args@[j].eq_spec(&self.0),
            decreases N - i,
        {
            if args[i].eq(&self.0) {
                return true;
            }
            i += 1;
        }
        false
    }

    /// Whether the state equals none of `args`.
    pub fn is_none<const N: usize>(&self, args: [T; N]) -> (r: bool)
        ensures
            T::obeys_eq_spec() ==> (r <==> forall|i: int|
                0 <= i < N ==> !#[trigger] args@[i].eq_spec(&self.0)),
    {
        !self.eq_any(args)
    }

    /// Replaces the state by `value` and returns the one it held.
    pub fn change(&mut self, value: T) -> (r: T)
        ensures
            r == old(self).0,
            final(self).0 == value,
    {
        let mut v = value;
        core::mem::swap(&mut self.0, &mut v);
        v
    }

    /// Lets a request in under `state`, unless it stands for maintenance.
    pub fn enter(state: T) -> (r: Option<State<T>>)
        ensures
            r is Some <==> !state.maintenance(),
            r matches Some(s) ==> s.0 == state,
    {
        if state.is_maintenance() {
            None
        } else {
            Some(State(state))
        }
    }
}

impl<T> State<T> {
    /// The state value.
    pub fn get(&self) -> (r: &T)
        ensures
            *r == self.0,
    {
        &self.0
    }
}

} // verus!
