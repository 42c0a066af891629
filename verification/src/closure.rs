use crate::datatype::{group_views, left, taken, terms_of, BuilderDataType, Term};
use crate::errors::BuilderError;
use crate::heap::{Arena, Cells};
pub use crate::semantics::{frame_of, state_of, Frame};
use crate::semantics::{resolve, resolve_truth, select, yields};
use vstd::prelude::*;

verus! {

broadcast use group_views;

/// The frame that an evaluation runs in: the argument stack of the
/// enclosing closure and the position of the element under evaluation in
/// its sequence.
pub struct Closure<'de> {
    pub args: Vec<BuilderDataType<'de>>,
    pub index: usize,
}

impl<'de> View for Closure<'de> {
    type V = Frame;

    open spec fn view(&self) -> Frame {
        Frame { args: terms_of(self.args@), index: self.index }
    }
}

impl<'de> Closure<'de> {
    /// The frame that an evaluation starts in: no arguments, position zero.
    pub fn new() -> (closure: Self)
        ensures
            closure@ == (Frame { args: Seq::empty(), index: 0 }),
    {
        let closure = Closure { args: Vec::new(), index: 0 };
        assert(closure@.args =~= Seq::empty());
        closure
    }

    /// The argument in a slot.
    pub fn get_argument(&self, a: usize) -> (r: Result<&BuilderDataType<'de>, BuilderError>)
        ensures
            a < self@.args.len() ==> (r matches Ok(slot) && slot@ == self@.args[a as int]),
            a >= self@.args.len() ==> r == Err::<&BuilderDataType<'de>, BuilderError>(
                BuilderError::InvalidFunctionArgument,
            ),
    {
        if a < self.args.len() {
            Ok(&self.args[a])
        } else {
            Err(BuilderError::InvalidFunctionArgument)
        }
    }

    /// A copy of the argument in a slot.
    pub fn clone_argument(&self, a: usize) -> (r: Result<BuilderDataType<'de>, BuilderError>)
        ensures
            a < self@.args.len() ==> (r matches Ok(slot) && slot@ == self@.args[a as int]),
            a >= self@.args.len() ==> r == Err::<BuilderDataType<'de>, BuilderError>(
                BuilderError::InvalidFunctionArgument,
            ),
    {
        if a < self.args.len() {
            Ok(self.args[a].clone())
        } else {
            Err(BuilderError::InvalidFunctionArgument)
        }
    }

    /// The consuming read of the argument in a slot.
    pub fn take_from_argument(&mut self, a: usize) -> (r: Result<BuilderDataType<'de>, BuilderError>)
        ensures
            a < old(self)@.args.len() ==> (r matches Ok(read) && read@ == taken(
                old(self)@.args[a as int],
            )) && final(self)@ == (Frame {
                args: old(self)@.args.update(a as int, left(old(self)@.args[a as int])),
                index: old(self)@.index,
            }),
            a >= old(self)@.args.len() ==> r == Err::<BuilderDataType<'de>, BuilderError>(
                BuilderError::InvalidFunctionArgument,
            ) && final(self)@ == old(self)@,
    {
        if a < self.args.len() {
            let read = self.args[a].take_one();
            assert(self@.args =~= old(self)@.args.update(a as int, left(old(self)@.args[a as int])));
            Ok(read)
        } else {
            Err(BuilderError::InvalidFunctionArgument)
        }
    }
}

/// Whether the node that a function lends is the one that was to be
/// delivered, or its error the one that was due.
pub open spec fn lends<'a, 'de>(
    got: Result<&'a BuilderDataType<'de>, BuilderError>,
    due: Result<Term, BuilderError>,
) -> bool {
    match (got, due) {
        (Ok(node), Ok(value)) => node@ == value,
        (Err(e), Err(x)) => e == x,
        _ => false,
    }
}

/// A reading of the coercion kernel as a step of an evaluation: a reading
/// that ran out of depth is an error.
pub fn lift<T>(reading: Option<T>) -> (r: Result<T, BuilderError>)
    ensures
        r == match reading {
            Some(value) => Ok::<T, BuilderError>(value),
            None => Err::<T, BuilderError>(BuilderError::DepthExceeded),
        },
{
    match reading {
        Some(value) => Ok(value),
        None => Err(BuilderError::DepthExceeded),
    }
}

impl<'de> Closure<'de> {
    /// The truth of a node that may depend on the frame.
    pub fn resolve_to_bool(
        &mut self,
        arena: &Arena<'de>,
        cells: &mut Cells<'de>,
        b: &BuilderDataType<'de>,
        depth: usize,
    ) -> (r: Result<bool, BuilderError>)
        ensures
            (r, state_of(final(self)@, final(cells)@)) == resolve_truth(
                arena@,
                state_of(old(self)@, old(cells)@),
                b@,
                depth as nat,
            ),
        decreases depth, 1nat,
    {
        match b {
            BuilderDataType::Argument(a) => {
                if *a < self.args.len() {
                    lift(self.args[*a].check_true(arena, cells, depth))
                } else {
                    Err(BuilderError::InvalidFunctionArgument)
                }
            },
            BuilderDataType::TakeFromArgument(a) => {
                match self.take_from_argument(*a) {
                    Ok(read) => lift(read.check_true(arena, cells, depth)),
                    Err(e) => Err(e),
                }
            },
            BuilderDataType::IfThenElse(v) => {
                assert(b@ == Term::IfThenElse(terms_of(v@)));
                match self.if_then_else_ref(arena, cells, v, depth) {
                    Ok(branch) => lift(branch.check_true(arena, cells, depth)),
                    Err(e) => Err(e),
                }
            },
            other => lift(other.check_true(arena, cells, depth)),
        }
    }

    /// The conditional over borrowed children: lends the branch that the
    /// truth of the condition selects.
    pub fn if_then_else_ref<'a>(
        &mut self,
        arena: &Arena<'de>,
        cells: &mut Cells<'de>,
        v: &'a Vec<BuilderDataType<'de>>,
        depth: usize,
    ) -> (r: Result<&'a BuilderDataType<'de>, BuilderError>)
        ensures
            lends(
                r,
                select(arena@, state_of(old(self)@, old(cells)@), terms_of(v@), depth as nat).0,
            ),
            state_of(final(self)@, final(cells)@) == select(
                arena@,
                state_of(old(self)@, old(cells)@),
                terms_of(v@),
                depth as nat,
            ).1,
        decreases depth, 0nat,
    {
        if v.len() < 3 {
            return Err(BuilderError::InvalidFunctionArgument);
        }
        if depth == 0 {
            return Err(BuilderError::DepthExceeded);
        }
        match self.resolve_to_bool(arena, cells, &v[0], depth - 1) {
            Ok(condition) => {
                if condition {
                    Ok(&v[1])
                } else {
                    Ok(&v[2])
                }
            },
            Err(e) => Err(e),
        }
    }

    /// The conditional over owned children: hands out the branch that the
    /// truth of the condition selects.
    pub fn if_then_else(
        &mut self,
        arena: &Arena<'de>,
        cells: &mut Cells<'de>,
        v: Vec<BuilderDataType<'de>>,
        depth: usize,
    ) -> (r: Result<BuilderDataType<'de>, BuilderError>)
        ensures
            yields(
                r,
                select(arena@, state_of(old(self)@, old(cells)@), terms_of(v@), depth as nat).0,
            ),
            state_of(final(self)@, final(cells)@) == select(
                arena@,
                state_of(old(self)@, old(cells)@),
                terms_of(v@),
                depth as nat,
            ).1,
    {
        let mut children = v;
        if children.len() < 3 {
            return Err(BuilderError::InvalidFunctionArgument);
        }
        if depth == 0 {
            return Err(BuilderError::DepthExceeded);
        }
        match self.resolve_to_bool(arena, cells, &children[0], depth - 1) {
            Ok(condition) => {
                if condition {
                    Ok(children.swap_remove(1))
                } else {
                    Ok(children.swap_remove(2))
                }
            },
            Err(e) => Err(e),
        }
    }

    /// Rewrites an owned node against the frame.
    pub fn resolve(
        &mut self,
        arena: &Arena<'de>,
        cells: &mut Cells<'de>,
        b: BuilderDataType<'de>,
        depth: usize,
    ) -> (r: Result<BuilderDataType<'de>, BuilderError>)
        ensures
            yields(r, resolve(arena@, state_of(old(self)@, old(cells)@), b@, depth as nat).0),
            state_of(final(self)@, final(cells)@) == resolve(
                arena@,
                state_of(old(self)@, old(cells)@),
                b@,
                depth as nat,
            ).1,
    {
        match b {
            BuilderDataType::Argument(a) => self.clone_argument(a),
            BuilderDataType::TakeFromArgument(a) => self.take_from_argument(a),
            BuilderDataType::IfThenElse(v) => {
                assert(b@ == Term::IfThenElse(terms_of(v@)));
                self.if_then_else(arena, cells, v, depth)
            },
            other => Ok(other),
        }
    }

    /// Rewrites a borrowed node against the frame, copying what it keeps.
    pub fn resolve_clone(
        &mut self,
        arena: &Arena<'de>,
        cells: &mut Cells<'de>,
        b: &BuilderDataType<'de>,
        depth: usize,
    ) -> (r: Result<BuilderDataType<'de>, BuilderError>)
        ensures
            yields(r, resolve(arena@, state_of(old(self)@, old(cells)@), b@, depth as nat).0),
            state_of(final(self)@, final(cells)@) == resolve(
                arena@,
                state_of(old(self)@, old(cells)@),
                b@,
                depth as nat,
            ).1,
    {
        match b {
            BuilderDataType::Argument(a) => self.clone_argument(*a),
            BuilderDataType::TakeFromArgument(a) => self.take_from_argument(*a),
            BuilderDataType::IfThenElse(v) => {
                assert(b@ == Term::IfThenElse(terms_of(v@)));
                match self.if_then_else_ref(arena, cells, v, depth) {
                    Ok(branch) => Ok(branch.clone()),
                    Err(e) => Err(e),
                }
            },
            other => Ok(other.clone()),
        }
    }
}

} // verus!
