//! How a rule of the grammar ends: with a value and the offset behind it, or
//! with the chain of rules that failed.
use crate::parser::expression::{nodes_of, Expression, Node};
use vstd::prelude::*;

verus! {

/// A rule of the grammar, or a mark that a rule expects.
#[derive(Debug, Clone, Copy, PartialEq, Eq, Structural)]
pub enum Rule {
    Program,
    Comment,
    ContainerDeclaration,
    FunctionDeclaration,
    Arguments,
    Scope,
    Declaration,
    Definition,
    Assignment,
    Type,
    Identifier,
    Integer,
    StringLiteral,
    /// A letter, where a name has to start.
    Letter,
    /// A digit, where a number has to start.
    Digit,
    /// This character.
    Character(char),
    /// The two slashes that start a comment.
    CommentMarker,
    /// The word `container`.
    ContainerKeyword,
    /// The word `function`.
    FunctionKeyword,
}

/// One link of a chain: a rule that failed, and the offset at which it was
/// tried.
#[derive(Debug, Clone, Copy, PartialEq, Eq, Structural)]
pub struct Frame {
    pub rule: Rule,
    pub offset: usize,
}

/// A failed rule. The frames run from the most specific to the outermost. A
/// fatal fault ends the whole parse; any other lets the caller try something
/// else.
#[derive(Debug)]
pub struct Fault {
    pub fatal: bool,
    pub frames: Vec<Frame>,
}

/// How a rule ends on a text, in contracts.
pub enum Parsed<T> {
    Match { value: T, next: int },
    Miss { fatal: bool, frames: Seq<Frame> },
}

/// The frame of a rule tried at an offset.
pub open spec fn frame(rule: Rule, offset: int) -> Frame {
    Frame { rule, offset: offset as usize }
}

/// The failure of a single expectation, which is never fatal.
pub open spec fn miss<T>(rule: Rule, offset: int) -> Parsed<T> {
    Parsed::Miss { fatal: false, frames: seq![frame(rule, offset)] }
}

impl<T> Parsed<T> {
    /// The same outcome seen from the rule that tried it: a failure gets the
    /// frame of that rule behind its own.
    pub open spec fn within(self, rule: Rule, offset: int) -> Parsed<T> {
        match self {
            Parsed::Match { value, next } => self,
            Parsed::Miss { fatal, frames } => Parsed::Miss {
                fatal,
                frames: frames.push(frame(rule, offset)),
            },
        }
    }

    /// The same failure, for a rule with another kind of value.
    pub open spec fn miss_as<U>(self) -> Parsed<U> {
        Parsed::Miss { fatal: self->fatal, frames: self->frames }
    }

    /// Whether the outcome is a failure that ends the whole parse.
    pub open spec fn is_fatal(self) -> bool {
        self is Miss && self->fatal
    }
}

/// The outcome of a rule that yields one value.
pub open spec fn outcome<T: View>(r: Result<(T, usize), Fault>) -> Parsed<T::V> {
    match r {
        Ok((value, next)) => Parsed::Match { value: value@, next: next as int },
        Err(fault) => Parsed::Miss { fatal: fault.fatal, frames: fault.frames@ },
    }
}

/// The outcome of a rule that yields a list of nodes.
pub open spec fn nodes_outcome(r: Result<(Vec<Expression>, usize), Fault>) -> Parsed<Seq<Node>> {
    match r {
        Ok((list, next)) => Parsed::Match { value: nodes_of(list@), next: next as int },
        Err(fault) => Parsed::Miss { fatal: fault.fatal, frames: fault.frames@ },
    }
}

/// The outcome of a rule that yields nothing but the offset behind it.
pub open spec fn mark_outcome(r: Result<usize, Fault>) -> Parsed<()> {
    match r {
        Ok(next) => Parsed::Match { value: (), next: next as int },
        Err(fault) => Parsed::Miss { fatal: fault.fatal, frames: fault.frames@ },
    }
}

impl Fault {
    /// The failure of a single expectation.
    pub fn new(rule: Rule, offset: usize) -> (r: Fault)
        ensures
            !r.fatal,
            r.frames@ == seq![frame(rule, offset as int)],
    {
        let mut frames: Vec<Frame> = Vec::new();
        frames.push(Frame { rule, offset });
        Fault { fatal: false, frames }
    }

    /// The same fault seen from the rule that tried it.
    pub fn within(self, rule: Rule, offset: usize) -> (r: Fault)
        ensures
            r.fatal == self.fatal,
            r.frames@ == self.frames@.push(frame(rule, offset as int)),
    {
        let mut frames = self.frames;
        frames.push(Frame { rule, offset });
        Fault { fatal: self.fatal, frames }
    }

    /// The same fault, made fatal.
    pub fn committed(self) -> (r: Fault)
        ensures
            r.fatal,
            r.frames@ == self.frames@,
    {
        Fault { fatal: true, frames: self.frames }
    }

    /// The fault of two alternatives that both failed: the frames of the first,
    /// then those of the second.
    pub fn joined(self, other: Fault) -> (r: Fault)
        ensures
            r.fatal == self.fatal,
            r.frames@ == self.frames@ + other.frames@,
    {
        let mut frames = self.frames;
        let mut i: usize = 0;
        while i < other.frames.len()
            invariant
                i <= other.frames@.len(),
                frames@ == self.frames@ + other.frames@.take(i as int),
            decreases other.frames@.len() - i,
        {
            frames.push(other.frames[i]);
            i += 1;
            assert(other.frames@.take(i as int) == other.frames@.take(i - 1).push(
                other.frames@[i - 1],
            ));
        }
        Fault { fatal: self.fatal, frames }
    }
}

} // verus!
