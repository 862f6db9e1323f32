//! Messages between the environment and the entity threads.
use vstd::prelude::*;
use crate::structs::{Position, Cell, EntityDataMutation, ChanError};

verus! {

/// Errors of the entity component.
#[derive(Debug)]
pub enum Error {
    UnknownEntityKind(String),
    Unimplemented(&'static str),
    SendError(&'static str),
    RecvError(&'static str),
}

impl From<ChanError> for Error {
    fn from(err: ChanError) -> (r: Error) {
        match err {
            ChanError::SendError(e) => Error::SendError(e),
            ChanError::RecvError(e) => Error::RecvError(e),
        }
    }
}

impl vstd::std_specs::convert::FromSpecImpl<ChanError> for Error {
    open spec fn obeys_from_spec() -> bool {
        true
    }

    open spec fn from_spec(err: ChanError) -> Error {
        match err {
            ChanError::SendError(e) => Error::SendError(e),
            ChanError::RecvError(e) => Error::RecvError(e),
        }
    }
}

/// One cell of the map as an entity knows it.
#[derive(Debug, Clone, Copy)]
pub struct EntityThreadArea {
    pub pos: Position,
    pub cell: Cell,
    pub is_from_memory: bool,
}

/// News for an entity from its environment.
#[derive(Debug)]
pub enum EntityThreadNews {
    UpdateEntityData(Vec<EntityDataMutation>),
    NewMapData(Vec<(Position, Cell)>),
    LastTickEventFailed,
}

/// What an entity does in one tick.
#[derive(Debug, Clone, Copy, PartialEq, Eq, Structural)]
pub enum TickEvent {
    Idle,
    Move(Position),
}

} // verus!
