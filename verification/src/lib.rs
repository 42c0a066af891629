//! A programmable value tree and the engine that evaluates it.
//!
//! A tree of [`BuilderDataType`] nodes holds scalars, text, lists and
//! mappings, and also computed nodes: arguments of closures, handles of
//! shared subterms and of mutable cells, conditionals and repetitions. The
//! engine works out, node by node and only when asked, what a node stands
//! for, so that a compact template expands to plain data.
//!
//! * [`datatype`] has the node and its mathematical value, [`coercion`] the
//!   readings of a node as truth, integers and text, [`scalar`] the
//!   arithmetic of those readings.
//! * [`heap`] has the arena of shared subterms and the mutable cells,
//!   [`closure`] the frame of an evaluation.
//! * [`deserialize`] and [`deserialize_ref`] have the evaluator in owning
//!   and in borrowing mode; what it hands a consumer is a [`Visit`], and
//!   the adapters of [`list_access`], [`list_access_ref`], [`map_access`]
//!   and [`map_access_ref`] hand out the elements of a container one by
//!   one. [`visitor`] has the consumer that takes whatever it is handed.
//! * [`semantics`] says what all of this computes and [`laws`] what holds
//!   of it.
//!
//! An evaluation may run for ever, through an argument that stands for
//! itself or a subterm that contains its own handle. The functions that
//! evaluate therefore take a `depth`: the number of steps that they may
//! take from a term to the term inside it or to the term it stands for.
//! The depth matters only by running out: what comes to an end within one
//! depth comes to the same end within every greater one. [`from_data`] and
//! [`from_ref`] evaluate with the greatest depth there is.

pub mod closure;
pub mod coercion;
pub mod datatype;
pub mod deserialize;
pub mod deserialize_ref;
pub mod errors;
pub mod heap;
pub mod laws;
pub mod list_access;
pub mod list_access_ref;
pub mod map_access;
pub mod map_access_ref;
pub mod scalar;
pub mod semantics;
pub mod visit;
pub mod visitor;

pub use closure::Closure;
pub use datatype::BuilderDataType;
pub use deserialize::BuilderDeserializer;
pub use deserialize_ref::BuilderDeserializerRef;
pub use errors::BuilderError;
pub use heap::{Arena, Cells};
pub use list_access::BuilderListAccess;
pub use list_access_ref::BuilderListAccessRef;
pub use map_access::BuilderMapAccess;
pub use map_access_ref::BuilderMapAccessRef;
pub use visit::{Visit, Visited};

use vstd::prelude::*;

verus! {

/// The state that an evaluation starts from over the given cells: no
/// arguments and position zero.
pub open spec fn fresh(cells: Seq<datatype::Term>) -> semantics::State {
    semantics::State { cells, args: Seq::empty(), index: 0 }
}

/// What a tree evaluates to in a fresh frame where the evaluation is given
/// no bound of its own: the depth is the greatest that the machine counts.
/// By `laws::law_value_is_the_outcome` this is the outcome at every depth
/// at which the evaluation comes to an end.
pub open spec fn value(
    arena: Seq<Option<datatype::Term>>,
    cells: Seq<datatype::Term>,
    t: datatype::Term,
) -> semantics::Outcome<datatype::Term> {
    semantics::eval(arena, fresh(cells), t, usize::MAX as nat)
}

/// Evaluates an owned tree in a fresh frame, over the arena and the cells,
/// and hands out its value: a tree of scalars, text, lists and mappings.
/// The cells are left as the evaluation consumed them.
pub fn from_data<'de>(
    data: BuilderDataType<'de>,
    arena: &Arena<'de>,
    cells: &mut Cells<'de>,
) -> (r: Result<BuilderDataType<'de>, BuilderError>)
    ensures
        semantics::yields(r, value(arena@, old(cells)@, data@).0),
        final(cells)@ == value(arena@, old(cells)@, data@).1.cells,
{
    from_data_within(data, arena, cells, usize::MAX)
}

/// Evaluates a borrowed tree in a fresh frame, over the arena and the
/// cells, and hands out its value: a tree of scalars, text, lists and
/// mappings. The cells are left as the evaluation consumed them.
pub fn from_ref<'de>(
    data: &BuilderDataType<'de>,
    arena: &Arena<'de>,
    cells: &mut Cells<'de>,
) -> (r: Result<BuilderDataType<'de>, BuilderError>)
    ensures
        semantics::yields(r, value(arena@, old(cells)@, data@).0),
        final(cells)@ == value(arena@, old(cells)@, data@).1.cells,
{
    from_ref_within(data, arena, cells, usize::MAX)
}

/// Evaluates an owned tree as `from_data` does, within a depth: an
/// evaluation that nests deeper fails with `DepthExceeded`.
pub fn from_data_within<'de>(
    data: BuilderDataType<'de>,
    arena: &Arena<'de>,
    cells: &mut Cells<'de>,
    depth: usize,
) -> (r: Result<BuilderDataType<'de>, BuilderError>)
    ensures
        semantics::yields(r, semantics::eval(arena@, fresh(old(cells)@), data@, depth as nat).0),
        final(cells)@ == semantics::eval(arena@, fresh(old(cells)@), data@, depth as nat).1.cells,
{
    let mut closure = Closure::new();
    let builder = BuilderDeserializer { data };
    builder.evaluate(&mut closure, arena, cells, depth)
}

/// Evaluates a borrowed tree as `from_ref` does, within a depth: an
/// evaluation that nests deeper fails with `DepthExceeded`.
pub fn from_ref_within<'de>(
    data: &BuilderDataType<'de>,
    arena: &Arena<'de>,
    cells: &mut Cells<'de>,
    depth: usize,
) -> (r: Result<BuilderDataType<'de>, BuilderError>)
    ensures
        semantics::yields(r, semantics::eval(arena@, fresh(old(cells)@), data@, depth as nat).0),
        final(cells)@ == semantics::eval(arena@, fresh(old(cells)@), data@, depth as nat).1.cells,
{
    let mut closure = Closure::new();
    let builder = BuilderDeserializerRef { data };
    builder.evaluate(&mut closure, arena, cells, depth)
}

} // verus!
