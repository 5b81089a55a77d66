//! Facts: the values held in relations.

use vstd::prelude::*;

verus! {

/// The kind of an object.
#[derive(Clone, Copy, Debug, PartialEq, Eq, Structural)]
pub enum Sort {
    Window,
    Shape,
}

/// An axis along which an object moves.
#[derive(Clone, Copy, Debug, PartialEq, Eq, Structural)]
pub enum Axis {
    X,
    Y,
}

/// The name of an attribute of an object.
#[derive(Clone, Copy, Debug, PartialEq, Eq, Structural)]
pub enum AttrName {
    Width,
    Height,
}

/// The color of a rendered window.
#[derive(Clone, Copy, Debug, PartialEq, Eq, Structural)]
pub enum Color {
    Blue,
    Red,
}

/// The relations of the store.
#[derive(Clone, Copy, Debug, PartialEq, Eq, Structural)]
pub enum Rel {
    Object,
    Attribute,
    Action,
    OutFluent,
    InFluent,
    Output,
}

/// A fact; its variant names the relation it belongs to.
#[derive(Clone, Copy, Debug, PartialEq, Eq, Structural)]
pub enum Fact {
    /// An entity of the scene.
    Object { oid: i64, sort: Sort },
    /// A property of an entity.
    Attribute { oid: i64, name: AttrName, value: i64 },
    /// A user command: move `target` by `distance` along `direction`.
    Action { target: i64, distance: i64, direction: Axis },
    /// A pending position of an object, derived from an action.
    OutFluent { oid: i64, x: i64, y: i64 },
    /// The stabilized position of an object.
    InFluent { oid: i64, x: i64, y: i64 },
    /// A rendered window. Also the row type of the rule pipeline that builds it.
    Output { oid: i64, x: i64, y: i64, width: i64, height: i64, color: Color },
}

/// The relation a fact belongs to.
pub open spec fn rel_of(f: Fact) -> Rel {
    match f {
        Fact::Object { .. } => Rel::Object,
        Fact::Attribute { .. } => Rel::Attribute,
        Fact::Action { .. } => Rel::Action,
        Fact::OutFluent { .. } => Rel::OutFluent,
        Fact::InFluent { .. } => Rel::InFluent,
        Fact::Output { .. } => Rel::Output,
    }
}

/// Base relations take facts from callers; the others are only derived.
pub open spec fn is_input_rel(r: Rel) -> bool {
    match r {
        Rel::Object | Rel::Attribute | Rel::Action | Rel::InFluent => true,
        _ => false,
    }
}

/// The key of a fact in a keyed relation: an object has one fact per oid,
/// and so has a stabilized fluent.
pub open spec fn key_of(f: Fact) -> Option<i64> {
    match f {
        Fact::Object { oid, .. } => Some(oid),
        Fact::InFluent { oid, .. } => Some(oid),
        _ => None,
    }
}

/// Whether `g` shares the relation and the key of `f`.
pub open spec fn same_key(f: Fact, g: Fact) -> bool {
    key_of(f).is_some() && rel_of(f) == rel_of(g) && key_of(f) == key_of(g)
}

/// The object a fact is about. Every join of the rule table matches on it.
pub open spec fn oid_of(f: Fact) -> i64 {
    match f {
        Fact::Object { oid, .. } => oid,
        Fact::Attribute { oid, .. } => oid,
        Fact::Action { target, .. } => target,
        Fact::OutFluent { oid, .. } => oid,
        Fact::InFluent { oid, .. } => oid,
        Fact::Output { oid, .. } => oid,
    }
}

impl Fact {
    /// The relation this fact belongs to.
    pub fn rel(&self) -> (r: Rel)
        ensures
            r == rel_of(*self),
    {
        match self {
            Fact::Object { .. } => Rel::Object,
            Fact::Attribute { .. } => Rel::Attribute,
            Fact::Action { .. } => Rel::Action,
            Fact::OutFluent { .. } => Rel::OutFluent,
            Fact::InFluent { .. } => Rel::InFluent,
            Fact::Output { .. } => Rel::Output,
        }
    }

    /// The object this fact is about.
    pub fn oid(&self) -> (r: i64)
        ensures
            r == oid_of(*self),
    {
        match self {
            Fact::Object { oid, .. } => *oid,
            Fact::Attribute { oid, .. } => *oid,
            Fact::Action { target, .. } => *target,
            Fact::OutFluent { oid, .. } => *oid,
            Fact::InFluent { oid, .. } => *oid,
            Fact::Output { oid, .. } => *oid,
        }
    }

    /// The key of this fact, where its relation is keyed.
    pub fn key(&self) -> (r: Option<i64>)
        ensures
            r == key_of(*self),
    {
        match self {
            Fact::Object { oid, .. } => Some(*oid),
            Fact::InFluent { oid, .. } => Some(*oid),
            _ => None,
        }
    }

    /// Whether `other` shares the relation and the key of this fact.
    pub fn same_key(&self, other: &Fact) -> (r: bool)
        ensures
            r == same_key(*self, *other),
    {
        match (self.key(), other.key()) {
            (Some(k1), Some(k2)) => k1 == k2 && self.rel() == other.rel(),
            _ => false,
        }
    }
}

impl Rel {
    /// Whether callers may supply facts of this relation.
    pub fn is_input(&self) -> (r: bool)
        ensures
            r == is_input_rel(*self),
    {
        match self {
            Rel::Object | Rel::Attribute | Rel::Action | Rel::InFluent => true,
            _ => false,
        }
    }
}

} // verus!
