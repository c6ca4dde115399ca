//! The request/response protocol between the navigator client and the
//! navigator worker.
//!
//! The client sends one [`BufferCommand`] at a time and, for a movement
//! command, blocks until the single matching [`BufferResult`] arrives; save
//! and stop commands are fire-and-forget.

use vstd::prelude::*;

use crate::item::CaptionedImg;

verus! {

/// A command the client sends to the worker.
pub enum BufferCommand {
    /// Move one step toward later indices and deliver the item there.
    LoadNext,
    /// Move one step toward earlier indices and deliver the item there.
    LoadPrevious,
    /// End the worker's processing loop.
    Stop,
    /// Persist the caption (second field) of the named item (first field).
    Save(String, String),
}

impl BufferCommand {
    /// The movement command for a travel direction, as the client builds it.
    pub fn for_direction(forward: bool) -> (r: BufferCommand)
        ensures
            r == if forward {
                BufferCommand::LoadNext
            } else {
                BufferCommand::LoadPrevious
            },
    {
        if forward {
            BufferCommand::LoadNext
        } else {
            BufferCommand::LoadPrevious
        }
    }
}

/// The worker's reply to a movement command.
pub enum BufferResult {
    /// No movement was possible: the list is empty or the boundary was hit.
    /// The client leaves the current item displayed.
    NoMove,
    /// The item delivered for a `LoadNext`.
    Next(CaptionedImg),
    /// The item delivered for a `LoadPrevious`.
    Previous(CaptionedImg),
}

impl BufferResult {
    /// The delivered item of a movement reply.
    pub fn unwrap(self) -> (r: CaptionedImg)
        requires
            !(self is NoMove),
        ensures
            self matches BufferResult::Next(img) ==> r == img,
            self matches BufferResult::Previous(img) ==> r == img,
    {
        match self {
            BufferResult::Next(img) => img,
            BufferResult::Previous(img) => img,
            BufferResult::NoMove => vstd::pervasive::unreached(),
        }
    }

    /// Whether the reply carries no item.
    pub fn is_none(&self) -> (r: bool)
        ensures
            r == (*self is NoMove),
    {
        matches!(*self, BufferResult::NoMove)
    }

    /// Whether the reply answers a `LoadNext`.
    pub fn is_next(&self) -> (r: bool)
        ensures
            r == (*self is Next),
    {
        matches!(*self, BufferResult::Next(_))
    }

    /// Whether the reply answers a `LoadPrevious`.
    pub fn is_previous(&self) -> (r: bool)
        ensures
            r == (*self is Previous),
    {
        matches!(*self, BufferResult::Previous(_))
    }

    /// Whether the reply's tag answers a request in the given direction, as
    /// the client checks before accepting it.
    pub fn matches_direction(&self, forward: bool) -> (r: bool)
        ensures
            r == if forward {
                *self is Next
            } else {
                *self is Previous
            },
    {
        if forward {
            self.is_next()
        } else {
            self.is_previous()
        }
    }

    /// The item of a movement reply, if it carries one: what the blocking
    /// client hands on to the caller.
    pub fn into_option(self) -> (r: Option<CaptionedImg>)
        ensures
            match self {
                BufferResult::NoMove => r is None,
                BufferResult::Next(img) => r == Some(img),
                BufferResult::Previous(img) => r == Some(img),
            },
    {
        if self.is_none() {
            None
        } else {
            Some(self.unwrap())
        }
    }
}

} // verus!
