//! A turtle over an exact skeleton of the plane: vertex 0 is the origin, and
//! each forward step adds the vertex reached from an earlier one by a unit
//! move at some heading. Headings count turns of a fixed angle, left
//! positive.
use vstd::prelude::*;

verus! {

/// One forward step: the vertex it adds is vertex `from` moved by one step
/// length at `heading` turns.
#[derive(Clone, Copy, Debug, PartialEq, Eq, Structural)]
pub struct Step {
    pub from: usize,
    pub heading: i64,
}

/// A saved pose: a vertex and a heading.
#[derive(Clone, Copy, Debug, PartialEq, Eq, Structural)]
pub struct State {
    pub pos: usize,
    pub head: i64,
}

/// The model of a turtle: the steps taken so far, where it stands, where it
/// faces, and the poses it saved, the last one on top.
pub struct Pen {
    pub steps: Seq<Step>,
    pub position: usize,
    pub heading: int,
    pub stack: Seq<State>,
}

/// A turtle at the origin, facing heading 0, with nothing saved.
pub open spec fn initial_pen() -> Pen {
    Pen { steps: Seq::empty(), position: 0, heading: 0, stack: Seq::empty() }
}

/// A step forward: it adds a vertex and moves there.
pub open spec fn forward(p: Pen) -> Pen {
    Pen {
        steps: p.steps.push(Step { from: p.position, heading: p.heading as i64 }),
        position: (p.steps.len() + 1) as usize,
        ..p
    }
}

/// A turn to the left by one angle.
pub open spec fn turn_left(p: Pen) -> Pen {
    Pen { heading: p.heading + 1, ..p }
}

/// A turn to the right by one angle.
pub open spec fn turn_right(p: Pen) -> Pen {
    Pen { heading: p.heading - 1, ..p }
}

/// Saving the current pose on top of the stack.
pub open spec fn save(p: Pen) -> Pen {
    Pen { stack: p.stack.push(State { pos: p.position, head: p.heading as i64 }), ..p }
}

/// Going back to the pose on top of the stack, which must not be empty.
pub open spec fn restore(p: Pen) -> Pen {
    Pen {
        position: p.stack.last().pos,
        heading: p.stack.last().head as int,
        stack: p.stack.drop_last(),
        ..p
    }
}

/// A turtle that records the steps it takes.
pub struct Turtle {
    stack: Vec<State>,
    position: usize,
    heading: i64,
    steps: Vec<Step>,
}

impl Turtle {
    pub closed spec fn view(&self) -> Pen {
        Pen {
            steps: self.steps@,
            position: self.position,
            heading: self.heading as int,
            stack: self.stack@,
        }
    }

    /// A turtle at the origin, facing heading 0.
    pub fn new() -> (r: Turtle)
        ensures
            r@ == initial_pen(),
    {
        Turtle { position: 0, stack: Vec::new(), heading: 0, steps: Vec::new() }
    }

    /// The vertex the turtle stands on.
    pub fn curr(&self) -> (r: usize)
        ensures
            r == self@.position,
    {
        self.position
    }

    /// Steps forward and returns the new vertex.
    pub fn fd(&mut self) -> (r: usize)
        requires
            old(self)@.steps.len() < usize::MAX,
        ensures
            final(self)@ == forward(old(self)@),
            r == final(self)@.position,
    {
        self.steps.push(Step { from: self.position, heading: self.heading });
        self.position = self.steps.len();
        self.position
    }

    /// Turns left by one angle.
    pub fn left(&mut self)
        requires
            old(self)@.heading < i64::MAX,
        ensures
            final(self)@ == turn_left(old(self)@),
    {
        self.heading = self.heading + 1;
    }

    /// Turns right by one angle.
    pub fn right(&mut self)
        requires
            old(self)@.heading > i64::MIN,
        ensures
            final(self)@ == turn_right(old(self)@),
    {
        self.heading = self.heading - 1;
    }

    /// Saves the current pose.
    pub fn push(&mut self)
        ensures
            final(self)@ == save(old(self)@),
    {
        self.stack.push(State { pos: self.position, head: self.heading });
    }

    /// Goes back to the last saved pose and returns its vertex; with nothing
    /// saved, fails and leaves the turtle as it was.
    pub fn pop(&mut self) -> (r: Option<usize>)
        ensures
            old(self)@.stack.len() == 0 ==> r is None && final(self)@ == old(self)@,
            old(self)@.stack.len() > 0 ==> r == Some(final(self)@.position) && final(self)@ == restore(
                old(self)@,
            ),
    {
        match self.stack.pop() {
            Some(State { pos, head }) => {
                self.position = pos;
                self.heading = head;
                Some(self.position)
            },
            None => None,
        }
    }

    /// The steps taken, in order.
    pub fn into_steps(self) -> (r: Vec<Step>)
        ensures
            r@ == self@.steps,
    {
        self.steps
    }
}

} // verus!
