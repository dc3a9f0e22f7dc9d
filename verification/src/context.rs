//! Which row of an agent's learning matrix governs its next move.
use crate::config::{fits_moves, learning_error, moves_error, settings_error, LearningShape, Settings};
use vstd::prelude::*;

verus! {

/// How the learning row of a step is chosen.
#[derive(Clone, Copy, Debug, PartialEq, Eq, Structural)]
pub enum ContextKind {
    /// A single row (uniform choice or multinomial learning).
    Single,
    /// The row of the previously attempted operator (Markov learning).
    PreviousMove,
    /// The row of the current hidden state (hidden Markov learning).
    HiddenState,
}

/// The selection rule and the number of learning rows for a learning style over `moves`
/// operators: empty matrices give one row per operator.
pub open spec fn context_shape(learning: LearningShape, moves: usize) -> (ContextKind, usize) {
    match learning {
        LearningShape::Uniform | LearningShape::Multinomial { .. } => (ContextKind::Single, 1),
        LearningShape::Markov { rows, .. } => (
            ContextKind::PreviousMove,
            if rows.len() == 0 { moves } else { rows.len() },
        ),
        LearningShape::HiddenMarkov { transitions, emissions, .. } => (
            ContextKind::HiddenState,
            if transitions.len() == 0 { moves } else { emissions.len() },
        ),
    }
}

/// The selection rule and the number of learning rows of an agent.
pub fn shape_of(learning: &LearningShape, moves: usize) -> (r: (ContextKind, usize))
    ensures
        r == context_shape(*learning, moves),
{
    match learning {
        LearningShape::Uniform | LearningShape::Multinomial { .. } => (ContextKind::Single, 1),
        LearningShape::Markov { rows, .. } => (
            ContextKind::PreviousMove,
            if rows.len() == 0 { moves } else { rows.len() },
        ),
        LearningShape::HiddenMarkov { transitions, emissions, .. } => (
            ContextKind::HiddenState,
            if transitions.len() == 0 { moves } else { emissions.len() },
        ),
    }
}

/// Each learning style keeps its own kind of context: uniform and multinomial learning keep one
/// row, whatever their matrix and move count; Markov learning selects by the previous operator,
/// with one row per operator when its matrix is empty and otherwise one per matrix row; hidden
/// Markov learning selects by hidden state, with one state per operator when its matrices are
/// empty and otherwise one per emission row.
pub proof fn learning_styles_keep_their_contexts(learning: LearningShape, moves: usize)
    ensures
        (learning is Uniform || learning is Multinomial) <==> context_shape(learning, moves).0
            == ContextKind::Single,
        learning is Markov <==> context_shape(learning, moves).0 == ContextKind::PreviousMove,
        learning is HiddenMarkov <==> context_shape(learning, moves).0 == ContextKind::HiddenState,
        (learning is Uniform || learning is Multinomial) ==> context_shape(learning, moves).1 == 1,
        learning matches LearningShape::Markov { rows, .. } ==> context_shape(learning, moves).1
            == (if rows@.len() == 0 { moves as int } else { rows@.len() as int }),
        learning matches LearningShape::HiddenMarkov { transitions, emissions, .. }
            ==> context_shape(learning, moves).1 == (if transitions@.len() == 0 {
            moves as int
        } else {
            emissions@.len() as int
        }),
{
}

/// A configuration accepted for `moves` operators gives a context that `LearningContext::new`
/// accepts: at least one row, one row per operator for Markov learning, one row otherwise
/// without a hidden state.
pub proof fn accepted_settings_give_a_context(settings: Settings, moves: usize)
    requires
        moves_error(settings, moves as int) is None,
    ensures
        0 < context_shape(settings.learning, moves).1,
        0 < moves,
        context_shape(settings.learning, moves).0 == ContextKind::PreviousMove
            ==> context_shape(settings.learning, moves).1 == moves,
        context_shape(settings.learning, moves).0 == ContextKind::Single
            ==> context_shape(settings.learning, moves).1 == 1,
{
    assert(settings_error(settings) is None);
    assert(learning_error(settings.learning) is None);
    assert(fits_moves(settings.learning, moves as int));
}

/// The indices that select an agent's learning row.
#[derive(Clone, Copy, Debug)]
pub struct LearningContext {
    kind: ContextKind,
    rows: usize,
    moves: usize,
    last_operation: usize,
    hidden_state: usize,
}

impl LearningContext {
    /// The selection rule.
    pub closed spec fn kind_spec(&self) -> ContextKind {
        self.kind
    }

    /// Number of learning rows.
    pub closed spec fn rows_spec(&self) -> int {
        self.rows as int
    }

    /// Number of move operators.
    pub closed spec fn moves_spec(&self) -> int {
        self.moves as int
    }

    /// The previously attempted operator.
    pub closed spec fn last_spec(&self) -> int {
        self.last_operation as int
    }

    /// The current hidden state.
    pub closed spec fn state_spec(&self) -> int {
        self.hidden_state as int
    }

    /// Both indices select an existing row or operator, and a Markov context has one row
    /// per operator.
    pub open spec fn wf(&self) -> bool {
        &&& 0 < self.rows_spec()
        &&& 0 < self.moves_spec()
        &&& 0 <= self.last_spec() < self.moves_spec()
        &&& 0 <= self.state_spec() < self.rows_spec()
        &&& self.kind_spec() == ContextKind::PreviousMove ==> self.rows_spec() == self.moves_spec()
        &&& self.kind_spec() == ContextKind::Single ==> self.rows_spec() == 1
    }

    /// The row that governs the next move.
    pub open spec fn row_spec(&self) -> int {
        match self.kind_spec() {
            ContextKind::Single => 0,
            ContextKind::PreviousMove => self.last_spec(),
            ContextKind::HiddenState => self.state_spec(),
        }
    }

    /// The row of a step: the only row for a single-row context, the previous operator's row
    /// for a Markov context, and the current state's row for a hidden Markov context.
    pub proof fn rows_follow_the_context(&self)
        requires
            self.wf(),
        ensures
            self.kind_spec() == ContextKind::Single ==> self.row_spec() == 0,
            self.kind_spec() == ContextKind::PreviousMove ==> self.row_spec() == self.last_spec(),
            self.kind_spec() == ContextKind::HiddenState ==> self.row_spec() == self.state_spec(),
            0 <= self.row_spec() < self.rows_spec(),
    {
    }

    /// A context over `rows` learning rows and `moves` operators whose previous operator
    /// and hidden state are drawn uniformly.
    pub fn new(kind: ContextKind, rows: usize, moves: usize) -> (c: LearningContext)
        requires
            0 < rows,
            0 < moves,
            kind == ContextKind::PreviousMove ==> rows == moves,
            kind == ContextKind::Single ==> rows == 1,
        ensures
            c.wf(),
            c.kind_spec() == kind,
            c.rows_spec() == rows,
            c.moves_spec() == moves,
    {
        let last_operation = crate::random::index_between(0, moves);
        let hidden_state = crate::random::index_between(0, rows);
        LearningContext { kind, rows, moves, last_operation, hidden_state }
    }

    /// The previously attempted operator.
    pub fn last_operation(&self) -> (r: usize)
        ensures
            r == self.last_spec(),
    {
        self.last_operation
    }

    /// The current hidden state.
    pub fn hidden_state(&self) -> (r: usize)
        ensures
            r == self.state_spec(),
    {
        self.hidden_state
    }

    /// The row that governs the next move; it indexes an existing row.
    pub fn row(&self) -> (r: usize)
        requires
            self.wf(),
        ensures
            r == self.row_spec(),
            r < self.rows_spec(),
    {
        match self.kind {
            ContextKind::Single => 0,
            ContextKind::PreviousMove => self.last_operation,
            ContextKind::HiddenState => self.hidden_state,
        }
    }

    /// Move to hidden state `state`.
    pub fn enter_state(&mut self, state: usize)
        requires
            old(self).wf(),
            state < old(self).rows_spec(),
        ensures
            final(self).wf(),
            final(self).state_spec() == state,
            final(self).kind_spec() == old(self).kind_spec(),
            final(self).rows_spec() == old(self).rows_spec(),
            final(self).moves_spec() == old(self).moves_spec(),
            final(self).last_spec() == old(self).last_spec(),
    {
        self.hidden_state = state;
    }

    /// Remember `operation` as the previously attempted operator, whatever became of it.
    pub fn record(&mut self, operation: usize)
        requires
            old(self).wf(),
            operation < old(self).moves_spec(),
        ensures
            final(self).wf(),
            final(self).last_spec() == operation,
            final(self).kind_spec() == old(self).kind_spec(),
            final(self).rows_spec() == old(self).rows_spec(),
            final(self).moves_spec() == old(self).moves_spec(),
            final(self).state_spec() == old(self).state_spec(),
    {
        self.last_operation = operation;
    }
}

} // verus!
