//! The session shell around the grid engine: the state a rendering layer
//! reads and the directional messages an input layer delivers.

use vstd::prelude::*;
use crate::game_backend::{Backend, ShiftDirection, shift_spec};
use crate::grid_model::{grid_seq, grid_sum, grid_occupied};

verus! {

/// A running game session, owning the grid engine.
pub struct RS2048 {
    backend: Backend,
}

/// What the input layer can ask of a session: one shift per key press.
#[derive(Debug, Clone)]
pub enum Message {
    Shift(ShiftDirection),
}

impl RS2048 {
    /// The engine, as a mathematical value.
    pub closed spec fn spec_backend(&self) -> Backend {
        self.backend
    }

    /// Read access to the engine, for the rendering layer.
    pub fn backend(&self) -> (backend: &Backend)
        ensures
            *backend == self.spec_backend(),
    {
        &self.backend
    }

    /// A session wrapped around an existing engine state.
    pub fn from_backend(backend: Backend) -> (session: Self)
        ensures
            session.spec_backend() == backend,
    {
        Self { backend }
    }

    /// Apply one message: a directional intent becomes exactly one shift.
    pub fn update(&mut self, message: Message)
        requires
            2 * grid_sum(grid_seq(old(self).spec_backend().spec_grid())) <= usize::MAX,
            old(self).spec_backend().spec_score() + 3 * grid_sum(
                grid_seq(old(self).spec_backend().spec_grid()),
            ) <= usize::MAX,
        ensures
            match message {
                Message::Shift(direction) => shift_spec(
                    old(self).spec_backend(),
                    final(self).spec_backend(),
                    direction,
                ),
            },
            final(self).spec_backend().spec_score() >= old(self).spec_backend().spec_score(),
    {
        match message {
            Message::Shift(direction) => self.backend.shift(direction),
        }
    }
}

impl Default for RS2048 {
    /// A fresh session holding a newly initialized game: score zero and two
    /// spawned tiles.
    fn default() -> (session: Self)
        ensures
            session.spec_backend().spec_score() == 0,
            grid_occupied(grid_seq(session.spec_backend().spec_grid())) == 2,
    {
        Self { backend: Backend::new() }
    }
}

} // verus!
