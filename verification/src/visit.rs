use crate::closure::Closure;
use crate::datatype::{entries_of, terms_of, BuilderDataType};
use crate::list_access::BuilderListAccess;
use crate::list_access_ref::BuilderListAccessRef;
use crate::map_access::BuilderMapAccess;
use crate::map_access_ref::BuilderMapAccessRef;
use crate::semantics::{Delivery, Head, Shown};
use vstd::prelude::*;

verus! {

/// What the evaluator hands a consumer for a node: one scalar, one text,
/// or an adapter from which the consumer pulls the elements of a
/// container.
pub enum Visit<'r, 'de> {
    Bool(bool),
    I64(i64),
    U64(u64),
    /// A double-precision number, as its IEEE-754 bit pattern.
    F64(u64),
    /// Text that lives outside the tree: the consumer may keep the borrow.
    BorrowedStr(&'de str),
    /// Text that the evaluator holds: lent for the time of the delivery.
    Str(&'r str),
    /// Text that the consumer is to own.
    String(String),
    /// The entries of an owned mapping.
    Mapping(BuilderMapAccess<'de>),
    /// The entries of a borrowed mapping.
    MappingRef(BuilderMapAccessRef<'r, 'de>),
    /// The items of an owned list.
    Sequence(BuilderListAccess<'de>),
    /// The elements of a borrowed sequence.
    SequenceRef(BuilderListAccessRef<'r, 'de>),
    /// What an owned `Repeat` expands to: its children and its count, for
    /// the consumer to pull through `BuilderListAccessRef::repeat`.
    Repeat(Vec<BuilderDataType<'de>>, usize),
}

impl<'r, 'de> Visit<'r, 'de> {
    /// Whether an adapter is as it was made: nothing pulled from it yet,
    /// so that its size hint is the number of elements of the container.
    pub open spec fn untouched(self) -> bool {
        match self {
            Visit::Mapping(access) => access.wf() && access.cursor == 0 && access.leftover is None,
            Visit::MappingRef(access) => access.wf() && access.cursor == 0
                && access.leftover is None,
            Visit::Sequence(access) => access.wf() && access.index == 0,
            Visit::SequenceRef(access) => access.wf() && access.index == 0,
            _ => true,
        }
    }

    /// Whether a container is handed over.
    pub open spec fn is_container(self) -> bool {
        self is Mapping || self is MappingRef || self is Sequence || self is SequenceRef
            || self is Repeat
    }

    /// What is handed over, as a mathematical value.
    pub open spec fn head(self) -> Head {
        match self {
            Visit::Bool(v) => Head::Bool(v),
            Visit::I64(v) => Head::I64(v),
            Visit::U64(v) => Head::U64(v),
            Visit::F64(v) => Head::F64(v),
            Visit::BorrowedStr(text) => Head::Text(Delivery::Borrowed, text@),
            Visit::Str(text) => Head::Text(Delivery::Transient, text@),
            Visit::String(text) => Head::Text(Delivery::Owned, text@),
            Visit::Mapping(access) => Head::Mapping(entries_of(access.data@)),
            Visit::MappingRef(access) => Head::Mapping(entries_of(access.data@)),
            Visit::Sequence(access) => Head::Sequence(
                terms_of(access.data@),
                false,
                access.data@.len(),
            ),
            Visit::SequenceRef(access) => Head::Sequence(
                terms_of(access.data@),
                access.cyclic,
                access.remaining as nat,
            ),
            Visit::Repeat(children, times) => Head::Sequence(
                terms_of(children@),
                true,
                if children@.len() > 1 {
                    times as nat
                } else {
                    0
                },
            ),
        }
    }
}

/// What the evaluator hands a consumer, with what the consumer needs to
/// pull the elements of a container.
pub struct Visited<'r, 'de> {
    pub visit: Visit<'r, 'de>,
    /// The frame in which the elements of the container are to be
    /// evaluated, where it is not the frame the evaluation started in:
    /// the frame of the innermost closure that was entered on the way.
    pub frame: Option<Closure<'de>>,
    /// The depth that is left for the elements of the container.
    pub depth: usize,
}

impl<'r, 'de> View for Visited<'r, 'de> {
    type V = Shown;

    open spec fn view(&self) -> Shown {
        Shown {
            head: self.visit.head(),
            frame: match self.frame {
                Some(closure) => Some(closure@),
                None => None,
            },
            depth: self.depth as nat,
        }
    }
}

/// Whether what a function hands a consumer is what was to be handed
/// over, with adapters that nothing was pulled from yet, or its error the
/// one that was due.
pub open spec fn hands<'r, 'de>(
    got: Result<Visited<'r, 'de>, crate::errors::BuilderError>,
    due: Result<Shown, crate::errors::BuilderError>,
) -> bool {
    match (got, due) {
        (Ok(visited), Ok(what)) => visited@ == what && visited.visit.untouched(),
        (Err(e), Err(x)) => e == x,
        _ => false,
    }
}

} // verus!
