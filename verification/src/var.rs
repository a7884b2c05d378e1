use vstd::prelude::*;

verus! {

/// An ordered scope tag. Every inference variable is created within a
/// universe; it may only be unified with values whose placeholders lie in a
/// universe it can see (its own or an enclosing, numerically smaller, one).
#[derive(Clone, Copy, Debug, PartialEq, Eq, Structural)]
pub struct UniverseIndex {
    pub counter: usize,
}

impl UniverseIndex {
    /// The root universe, which every other universe can see.
    pub fn root() -> (r: UniverseIndex)
        ensures
            r.counter == 0,
    {
        UniverseIndex { counter: 0 }
    }

    /// True when a variable of universe `self` may be unified with a value
    /// whose placeholders lie in universe `other`.
    pub open spec fn spec_can_see(self, other: UniverseIndex) -> bool {
        other.counter <= self.counter
    }

    pub fn can_see(self, other: UniverseIndex) -> (r: bool)
        ensures
            r == self.spec_can_see(other),
    {
        other.counter <= self.counter
    }

    /// The more restrictive (enclosing) of two universes.
    pub open spec fn spec_min(self, other: UniverseIndex) -> UniverseIndex {
        if self.counter <= other.counter {
            self
        } else {
            other
        }
    }
}

/// A key into the type union-find store. The same integer doubles as a
/// de-Bruijn depth when the variable is embedded in a term.
#[derive(Clone, Copy, Debug, PartialEq, Eq, Structural)]
pub struct TyInferenceVariable {
    pub index: usize,
}

impl TyInferenceVariable {
    /// Reinterprets a de-Bruijn depth as a variable key, with no renumbering.
    pub fn from_depth(depth: usize) -> (r: TyInferenceVariable)
        ensures
            r.index == depth,
    {
        TyInferenceVariable { index: depth }
    }

    /// The underlying integer, inverse of `from_depth`.
    pub fn to_usize(self) -> (r: usize)
        ensures
            r == self.index,
    {
        self.index
    }
}

/// A key into the lifetime union-find store; the lifetime analogue of
/// `TyInferenceVariable`.
#[derive(Clone, Copy, Debug, PartialEq, Eq, Structural)]
pub struct LifetimeInferenceVariable {
    pub index: usize,
}

impl LifetimeInferenceVariable {
    /// Reinterprets a de-Bruijn depth as a variable key, with no renumbering.
    pub fn from_depth(depth: usize) -> (r: LifetimeInferenceVariable)
        ensures
            r.index == depth,
    {
        LifetimeInferenceVariable { index: depth }
    }

    /// The underlying integer, inverse of `from_depth`.
    pub fn to_usize(self) -> (r: usize)
        ensures
            r == self.index,
    {
        self.index
    }
}

/// A value tagged by the kind of inference variable it concerns.
#[derive(Clone, Copy, Debug, PartialEq, Eq)]
pub enum ParameterKind<T, L> {
    Ty(T),
    Lifetime(L),
}

/// The state of one union-find equivalence class: either still unbound,
/// tagged with the universe it was created in, or bound to a value.
#[derive(Clone, Debug, PartialEq, Eq)]
pub enum InferenceValue<T> {
    Unbound(UniverseIndex),
    Bound(T),
}

} // verus!
