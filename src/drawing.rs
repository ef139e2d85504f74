//! What the turtle makes of a string of symbols: polylines over the vertices
//! of its steps, and a note for each symbol it could not act on.
use vstd::prelude::*;

use crate::turtle::{forward, initial_pen, restore, save, turn_left, turn_right, Pen, Step};

verus! {

/// A symbol that the turtle could not act on, by its index in the input.
#[derive(Clone, Copy, Debug, PartialEq, Eq, Structural)]
pub enum Diagnostic {
    /// A `]` with no saved pose to go back to.
    EmptyStack { at: usize },
    /// A symbol that neither draws, turns, saves nor restores.
    Unrecognized { at: usize, symbol: char },
}

/// The result of a walk: the steps (vertex `k + 1` is reached by
/// `steps[k]`), the polylines as lists of vertices, one per branch in the
/// order they were opened, and the diagnostics.
pub struct Drawing {
    pub steps: Vec<Step>,
    pub polylines: Vec<Vec<usize>>,
    pub diagnostics: Vec<Diagnostic>,
}

impl Drawing {
    /// The polylines as sequences of vertex ids.
    pub open spec fn lines(&self) -> Seq<Seq<usize>> {
        self.polylines@.map_values(|p: Vec<usize>| p@)
    }

    /// This drawing is the walk over `symbols`.
    pub open spec fn shows(&self, draws: Set<char>, marker: Option<char>, symbols: Seq<char>) -> bool {
        let w = walk(draws, marker, symbols);
        &&& self.steps@ == w.pen.steps
        &&& self.lines() == w.polylines
        &&& self.diagnostics@ == w.diagnostics
    }

    /// Every step starts from a vertex made before it, and every polyline
    /// is non-empty and names only vertices that exist.
    pub open spec fn wf(&self) -> bool {
        &&& forall|k: int| 0 <= k < self.steps.len() ==> #[trigger] self.steps[k].from <= k
        &&& forall|l: int|
            0 <= l < self.polylines.len() ==> #[trigger] self.polylines[l].len() > 0
        &&& forall|l: int, v: int|
            0 <= l < self.polylines.len() && 0 <= v < self.polylines[l].len()
                ==> #[trigger] self.polylines[l][v] <= self.steps.len()
    }
}

/// The state of a walk over a string of symbols.
pub struct Walk {
    pub pen: Pen,
    pub polylines: Seq<Seq<usize>>,
    pub diagnostics: Seq<Diagnostic>,
}

/// Before the first symbol: one polyline holding the origin.
pub open spec fn initial_walk() -> Walk {
    Walk { pen: initial_pen(), polylines: seq![seq![0usize]], diagnostics: Seq::empty() }
}

/// What the symbol `c`, at index `at` of the input, does to a walk. The
/// marker is skipped; a symbol in `draws` steps forward and extends the
/// open polyline; `+` and `-` turn; `[` saves the pose; `]` restores the
/// last saved pose and opens a polyline there, or, with nothing saved, only
/// notes it; any other symbol is only noted.
pub open spec fn walk_step(draws: Set<char>, marker: Option<char>, w: Walk, at: int, c: char) -> Walk {
    if marker == Some(c) {
        w
    } else if draws.contains(c) {
        let pen = forward(w.pen);
        Walk {
            pen,
            polylines: w.polylines.update(
                w.polylines.len() - 1,
                w.polylines.last().push(pen.position),
            ),
            ..w
        }
    } else if c == '+' {
        Walk { pen: turn_left(w.pen), ..w }
    } else if c == '-' {
        Walk { pen: turn_right(w.pen), ..w }
    } else if c == '[' {
        Walk { pen: save(w.pen), ..w }
    } else if c == ']' {
        if w.pen.stack.len() == 0 {
            Walk { diagnostics: w.diagnostics.push(Diagnostic::EmptyStack { at: at as usize }), ..w }
        } else {
            let pen = restore(w.pen);
            Walk { pen, polylines: w.polylines.push(seq![pen.position]), ..w }
        }
    } else {
        Walk {
            diagnostics: w.diagnostics.push(Diagnostic::Unrecognized { at: at as usize, symbol: c }),
            ..w
        }
    }
}

/// The walk over `symbols` from `w`, the first symbol standing at index
/// `offset` of the input.
pub open spec fn walk_from(
    draws: Set<char>,
    marker: Option<char>,
    w: Walk,
    offset: int,
    symbols: Seq<char>,
) -> Walk
    decreases symbols.len(),
{
    if symbols.len() == 0 {
        w
    } else {
        walk_step(
            draws,
            marker,
            walk_from(draws, marker, w, offset, symbols.drop_last()),
            offset + symbols.len() - 1,
            symbols.last(),
        )
    }
}

/// The walk over a whole input.
pub open spec fn walk(draws: Set<char>, marker: Option<char>, symbols: Seq<char>) -> Walk {
    walk_from(draws, marker, initial_walk(), 0, symbols)
}

/// How often `c` occurs in `s`.
pub open spec fn occurrences(s: Seq<char>, c: char) -> nat
    decreases s.len(),
{
    if s.len() == 0 {
        0
    } else {
        occurrences(s.drop_last(), c) + if s.last() == c {
            1nat
        } else {
            0nat
        }
    }
}

/// A walk never loses a polyline, and only a `]` that restores a pose adds
/// one: from `w`, the count grows by at most the number of `]`.
pub proof fn lemma_polyline_count(
    draws: Set<char>,
    marker: Option<char>,
    w: Walk,
    offset: int,
    symbols: Seq<char>,
)
    requires
        w.polylines.len() >= 1,
    ensures
        w.polylines.len() <= walk_from(draws, marker, w, offset, symbols).polylines.len()
            <= w.polylines.len() + occurrences(symbols, ']'),
    decreases symbols.len(),
{
    if symbols.len() > 0 {
        lemma_polyline_count(draws, marker, w, offset, symbols.drop_last());
    }
}

/// The walk over an input with no `]` yields exactly one polyline.
pub proof fn lemma_single_polyline(draws: Set<char>, marker: Option<char>, symbols: Seq<char>)
    requires
        forall|i: int| 0 <= i < symbols.len() ==> symbols[i] != ']',
    ensures
        walk(draws, marker, symbols).polylines.len() == 1,
{
    lemma_no_occurrences(symbols, ']');
    lemma_polyline_count(draws, marker, initial_walk(), 0, symbols);
}

/// A symbol that `s` does not hold occurs in it zero times.
pub proof fn lemma_no_occurrences(s: Seq<char>, c: char)
    requires
        forall|i: int| 0 <= i < s.len() ==> s[i] != c,
    ensures
        occurrences(s, c) == 0,
    decreases s.len(),
{
    if s.len() > 0 {
        lemma_no_occurrences(s.drop_last(), c);
    }
}

/// A `]` with no saved pose only adds a diagnostic: the turtle stays where
/// it is and no polyline is opened.
pub proof fn lemma_unmatched_close(draws: Set<char>, marker: Option<char>, w: Walk, at: int)
    requires
        w.pen.stack.len() == 0,
        !draws.contains(']'),
        marker != Some(']'),
    ensures
        walk_step(draws, marker, w, at, ']') == (Walk {
            diagnostics: w.diagnostics.push(Diagnostic::EmptyStack { at: at as usize }),
            ..w
        }),
        walk_step(draws, marker, w, at, ']').pen == w.pen,
        walk_step(draws, marker, w, at, ']').polylines == w.polylines,
{
}

/// Over a run of `+` and `-` (neither of them drawing nor the marker),
/// only the heading changes: it gains one per `+` and loses one per `-`.
pub proof fn lemma_turns_add_up(
    draws: Set<char>,
    marker: Option<char>,
    w: Walk,
    offset: int,
    turns: Seq<char>,
)
    requires
        forall|i: int| 0 <= i < turns.len() ==> #[trigger] turns[i] == '+' || turns[i] == '-',
        !draws.contains('+'),
        !draws.contains('-'),
        marker != Some('+'),
        marker != Some('-'),
    ensures
        walk_from(draws, marker, w, offset, turns) == (Walk {
            pen: Pen {
                heading: w.pen.heading + occurrences(turns, '+') - occurrences(turns, '-'),
                ..w.pen
            },
            ..w
        }),
    decreases turns.len(),
{
    if turns.len() > 0 {
        let rest = turns.drop_last();
        assert forall|i: int| 0 <= i < rest.len() implies #[trigger] rest[i] == '+' || rest[i] == '-' by {
            assert(rest[i] == turns[i]);
        }
        assert(turns[turns.len() - 1] == '+' || turns[turns.len() - 1] == '-');
        lemma_turns_add_up(draws, marker, w, offset, rest);
    }
}

/// The order of a run of turns does not matter: two runs with as many `+`
/// and as many `-` leave the walk in the same state.
pub proof fn lemma_turns_commute(
    draws: Set<char>,
    marker: Option<char>,
    w: Walk,
    offset: int,
    turns1: Seq<char>,
    turns2: Seq<char>,
)
    requires
        forall|i: int| 0 <= i < turns1.len() ==> #[trigger] turns1[i] == '+' || turns1[i] == '-',
        forall|i: int| 0 <= i < turns2.len() ==> #[trigger] turns2[i] == '+' || turns2[i] == '-',
        occurrences(turns1, '+') == occurrences(turns2, '+'),
        occurrences(turns1, '-') == occurrences(turns2, '-'),
        !draws.contains('+'),
        !draws.contains('-'),
        marker != Some('+'),
        marker != Some('-'),
    ensures
        walk_from(draws, marker, w, offset, turns1) == walk_from(draws, marker, w, offset, turns2),
{
    lemma_turns_add_up(draws, marker, w, offset, turns1);
    lemma_turns_add_up(draws, marker, w, offset, turns2);
}

} // verus!
