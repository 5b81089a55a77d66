//! Relation identifiers and names, and the check of tagged update commands
//! that callers send: a command names a relation by number and carries a
//! fact, which must belong to that relation.

use vstd::prelude::*;
use crate::fact::{Fact, Rel, rel_of};
use crate::store::Update;
use crate::txn::EngineError;
use crate::rules::JoinFn;

verus! {

/// The kind of a tagged update command.
#[derive(Clone, Copy, Debug, PartialEq, Eq, Structural)]
pub enum UpdKind {
    Insert,
    DeleteValue,
    InsertOrUpdate,
}

/// A tagged update command: a relation number and a fact.
#[derive(Clone, Copy, Debug, PartialEq, Eq, Structural)]
pub struct UpdCmd {
    pub kind: UpdKind,
    pub rel_id: usize,
    pub fact: Fact,
}

/// The relation with number `id`, in the order `Rel` declares them.
pub open spec fn rel_of_id(id: usize) -> Option<Rel> {
    if id == 0 {
        Some(Rel::Object)
    } else if id == 1 {
        Some(Rel::Attribute)
    } else if id == 2 {
        Some(Rel::Action)
    } else if id == 3 {
        Some(Rel::OutFluent)
    } else if id == 4 {
        Some(Rel::InFluent)
    } else if id == 5 {
        Some(Rel::Output)
    } else {
        None
    }
}

/// The name of relation `r`.
pub open spec fn rel_name(r: Rel) -> &'static str {
    match r {
        Rel::Object => "Object",
        Rel::Attribute => "Attribute",
        Rel::Action => "Action",
        Rel::OutFluent => "OutFluent",
        Rel::InFluent => "InFluent",
        Rel::Output => "Output",
    }
}

/// The join function whose arrangement has index number `id`, in the order
/// `JoinFn` declares them.
pub open spec fn join_of_id(id: usize) -> Option<JoinFn> {
    if id == 0 {
        Some(JoinFn::ActionOnWindow)
    } else if id == 1 {
        Some(JoinFn::ActionAtFluent)
    } else if id == 2 {
        Some(JoinFn::FluentOnWindow)
    } else if id == 3 {
        Some(JoinFn::FluentWidth)
    } else if id == 4 {
        Some(JoinFn::RowHeight)
    } else {
        None
    }
}

/// The name of the arrangement that join function `j` looks facts up in.
pub open spec fn index_name(j: JoinFn) -> &'static str {
    match j {
        JoinFn::ActionOnWindow => "Object(window) by oid",
        JoinFn::ActionAtFluent => "InFluent by oid",
        JoinFn::FluentOnWindow => "Object(window) by oid",
        JoinFn::FluentWidth => "Attribute(width) by oid",
        JoinFn::RowHeight => "Attribute(height) by oid",
    }
}

/// The update a command asks for, where its fact belongs to the relation it names.
pub open spec fn cmd_update(c: UpdCmd) -> Option<Update> {
    if rel_of_id(c.rel_id) == Some(rel_of(c.fact)) {
        Some(
            match c.kind {
                UpdKind::Insert => Update::Insert(c.fact),
                UpdKind::DeleteValue => Update::DeleteValue(c.fact),
                UpdKind::InsertOrUpdate => Update::InsertOrUpdate(c.fact),
            },
        )
    } else {
        None
    }
}

/// Translates relation and index numbers into relations, join functions
/// and names, and checks tagged update commands.
#[derive(Debug)]
pub struct DDlogConverter {}

impl DDlogConverter {
    /// The relation with number `rel_id`.
    pub fn relid2rel(rel_id: usize) -> (r: Option<Rel>)
        ensures
            r == rel_of_id(rel_id),
    {
        if rel_id == 0 {
            Some(Rel::Object)
        } else if rel_id == 1 {
            Some(Rel::Attribute)
        } else if rel_id == 2 {
            Some(Rel::Action)
        } else if rel_id == 3 {
            Some(Rel::OutFluent)
        } else if rel_id == 4 {
            Some(Rel::InFluent)
        } else if rel_id == 5 {
            Some(Rel::Output)
        } else {
            None
        }
    }

    /// The name of the relation with number `rel_id`.
    pub fn relid2name(rel_id: usize) -> (r: Option<&'static str>)
        ensures
            r == (match rel_of_id(rel_id) {
                Some(rel) => Some(rel_name(rel)),
                None => None,
            }),
    {
        match Self::relid2rel(rel_id) {
            Some(Rel::Object) => Some("Object"),
            Some(Rel::Attribute) => Some("Attribute"),
            Some(Rel::Action) => Some("Action"),
            Some(Rel::OutFluent) => Some("OutFluent"),
            Some(Rel::InFluent) => Some("InFluent"),
            Some(Rel::Output) => Some("Output"),
            None => None,
        }
    }

    /// The join function whose arrangement has index number `idx_id`.
    pub fn indexid2join(idx_id: usize) -> (r: Option<JoinFn>)
        ensures
            r == join_of_id(idx_id),
    {
        if idx_id == 0 {
            Some(JoinFn::ActionOnWindow)
        } else if idx_id == 1 {
            Some(JoinFn::ActionAtFluent)
        } else if idx_id == 2 {
            Some(JoinFn::FluentOnWindow)
        } else if idx_id == 3 {
            Some(JoinFn::FluentWidth)
        } else if idx_id == 4 {
            Some(JoinFn::RowHeight)
        } else {
            None
        }
    }

    /// The name of the arrangement with index number `idx_id`.
    pub fn indexid2name(idx_id: usize) -> (r: Option<&'static str>)
        ensures
            r == (match join_of_id(idx_id) {
                Some(j) => Some(index_name(j)),
                None => None,
            }),
    {
        match Self::indexid2join(idx_id) {
            Some(JoinFn::ActionOnWindow) => Some("Object(window) by oid"),
            Some(JoinFn::ActionAtFluent) => Some("InFluent by oid"),
            Some(JoinFn::FluentOnWindow) => Some("Object(window) by oid"),
            Some(JoinFn::FluentWidth) => Some("Attribute(width) by oid"),
            Some(JoinFn::RowHeight) => Some("Attribute(height) by oid"),
            None => None,
        }
    }

    /// The update a tagged command asks for; a command whose fact does not
    /// belong to the relation it names, or that names no relation, is malformed.
    pub fn updcmd2upd(upd_cmd: &UpdCmd) -> (r: Result<Update, EngineError>)
        ensures
            cmd_update(*upd_cmd) matches Some(u) ==> r == Ok::<Update, EngineError>(u),
            cmd_update(*upd_cmd) is None ==> r == Err::<Update, EngineError>(
                EngineError::MalformedFact,
            ),
    {
        match Self::relid2rel(upd_cmd.rel_id) {
            Some(rel) => {
                if rel != upd_cmd.fact.rel() {
                    return Err(EngineError::MalformedFact);
                }
            },
            None => {
                return Err(EngineError::MalformedFact);
            },
        }
        let f = upd_cmd.fact;
        match upd_cmd.kind {
            UpdKind::Insert => Ok(Update::Insert(f)),
            UpdKind::DeleteValue => Ok(Update::DeleteValue(f)),
            UpdKind::InsertOrUpdate => Ok(Update::InsertOrUpdate(f)),
        }
    }
}

} // verus!
