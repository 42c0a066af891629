use crate::closure::{lift, state_of, Closure};
use crate::datatype::{entries_of, group_views, terms_of, BuilderDataType, Term};
use crate::deserialize_ref::BuilderDeserializerRef;
use crate::list_access::BuilderListAccess;
use crate::map_access::BuilderMapAccess;
use crate::errors::BuilderError;
use crate::heap::{Arena, Cells};
use crate::semantics::{eval, head, law_pulling_evaluates, resolve_all, yields};
use crate::visit::{hands, Visit, Visited};
use crate::visitor::accept;
use std::borrow::Cow;
use vstd::prelude::*;

verus! {

broadcast use group_views;

/// The evaluator in owning mode: it owns the node that it evaluates and
/// hands out what the node holds without copying it.
pub struct BuilderDeserializer<'de> {
    pub data: BuilderDataType<'de>,
}

impl<'de> BuilderDeserializer<'de> {
    /// Works out what to hand a consumer for the node, in the frame and
    /// over the arena and the cells: rewrites the node until a scalar,
    /// text or a container is reached. Text that the node owns is handed
    /// over for the consumer to own. A shared subterm stays with the
    /// arena and is evaluated in borrowing mode.
    #[verifier::loop_isolation(false)]
    pub fn deserialize_any<'r>(
        self,
        closure: &mut Closure<'de>,
        arena: &'r Arena<'de>,
        cells: &mut Cells<'de>,
        depth: usize,
    ) -> (r: Result<Visited<'r, 'de>, BuilderError>)
        ensures
            hands(
                r,
                head(arena@, state_of(old(closure)@, old(cells)@), self.data@, depth as nat, true).0,
            ),
            state_of(final(closure)@, final(cells)@) == head(
                arena@,
                state_of(old(closure)@, old(cells)@),
                self.data@,
                depth as nat,
                true,
            ).1,
            r matches Ok(visited) ==> visited.visit.is_container() ==> visited.depth < depth,
        decreases depth,
    {
        let ghost node = self.data@;
        match self.data {
            BuilderDataType::Boolean(v) => Ok(
                Visited { visit: Visit::Bool(v), frame: None, depth },
            ),
            BuilderDataType::Integer(v) => Ok(Visited { visit: Visit::I64(v), frame: None, depth }),
            BuilderDataType::Unsigned(v) => Ok(
                Visited { visit: Visit::U64(v), frame: None, depth },
            ),
            BuilderDataType::Number(v) => Ok(Visited { visit: Visit::F64(v), frame: None, depth }),
            BuilderDataType::String(c) => match c {
                Cow::Borrowed(v) => Ok(
                    Visited { visit: Visit::BorrowedStr(v), frame: None, depth },
                ),
                Cow::Owned(v) => Ok(Visited { visit: Visit::String(v), frame: None, depth }),
            },
            BuilderDataType::Index => Ok(
                Visited { visit: Visit::U64(closure.index as u64), frame: None, depth },
            ),
            BuilderDataType::Mapping(v) => {
                assert(node == Term::Mapping(entries_of(v@)));
                if depth == 0 {
                    return Err(BuilderError::DepthExceeded);
                }
                Ok(
                    Visited {
                        visit: Visit::Mapping(BuilderMapAccess::new(v)),
                        frame: None,
                        depth: depth - 1,
                    },
                )
            },
            BuilderDataType::List(v) => {
                assert(node == Term::List(terms_of(v@)));
                if depth == 0 {
                    return Err(BuilderError::DepthExceeded);
                }
                Ok(
                    Visited {
                        visit: Visit::Sequence(BuilderListAccess::new(v)),
                        frame: None,
                        depth: depth - 1,
                    },
                )
            },
            BuilderDataType::Repeat(v) => {
                assert(node == Term::Repeat(terms_of(v@)));
                if depth == 0 {
                    return Err(BuilderError::DepthExceeded);
                }
                let times = if v.len() == 0 {
                    0
                } else {
                    match lift(v[0].to_unsigned(arena, cells, depth - 1)) {
                        Ok(times) => times,
                        Err(e) => {
                            return Err(e);
                        },
                    }
                };
                Ok(
                    Visited {
                        visit: Visit::Repeat(v, #[verifier::truncate] (times as usize)),
                        frame: None,
                        depth: depth - 1,
                    },
                )
            },
            BuilderDataType::Closure(v) => {
                assert(node == Term::Closure(terms_of(v@)));
                if v.len() == 0 {
                    return Err(BuilderError::InvalidFunctionArgument);
                }
                if depth == 0 {
                    return Err(BuilderError::DepthExceeded);
                }
                let body = v[0].clone();
                let ghost start = state_of(closure@, cells@);
                let ghost children = terms_of(v@);
                let ghost below = (depth - 1) as nat;
                let mut v = v;
                let mut args: Vec<BuilderDataType<'de>> = Vec::new();
                assert(terms_of(args@) =~= Seq::empty());
                let mut i: usize = 0;
                while i < v.len()
                    invariant
                        i <= v.len(),
                        v@.len() == children.len(),
                        forall|j: int| i <= j < v@.len() ==> (#[trigger] v@[j])@ == children[j],
                        resolve_all(
                            arena@,
                            state_of(closure@, cells@),
                            children,
                            i as int,
                            terms_of(args@),
                            below,
                        ) == resolve_all(arena@, start, children, 0, Seq::empty(), below),
                    decreases v.len() - i,
                {
                    let ghost resolved = terms_of(args@);
                    let mut child = BuilderDataType::Empty;
                    core::mem::swap(&mut v[i], &mut child);
                    match closure.resolve(arena, cells, child, depth - 1) {
                        Ok(slot) => {
                            args.push(slot);
                            assert(terms_of(args@) =~= resolved.push(slot@));
                        },
                        Err(e) => {
                            return Err(e);
                        },
                    }
                    i += 1;
                }
                let mut inner = Closure { args, index: closure.index };
                match (BuilderDeserializer { data: body }).deserialize_any(
                    &mut inner,
                    arena,
                    cells,
                    depth - 1,
                ) {
                    Ok(of_body) => Ok(
                        Visited {
                            visit: of_body.visit,
                            frame: Some(
                                match of_body.frame {
                                    Some(innermost) => innermost,
                                    None => inner,
                                },
                            ),
                            depth: of_body.depth,
                        },
                    ),
                    Err(e) => Err(e),
                }
            },
            BuilderDataType::Argument(a) => {
                if a >= closure.args.len() {
                    return Err(BuilderError::InvalidFunctionArgument);
                }
                if depth == 0 {
                    return Err(BuilderError::DepthExceeded);
                }
                let slot = closure.args[a].clone();
                (BuilderDeserializer { data: slot }).deserialize_any(closure, arena, cells, depth - 1)
            },
            BuilderDataType::TakeFromArgument(a) => {
                if a >= closure.args.len() {
                    return Err(BuilderError::InvalidFunctionArgument);
                }
                if depth == 0 {
                    return Err(BuilderError::DepthExceeded);
                }
                match closure.take_from_argument(a) {
                    Ok(read) => (BuilderDeserializer { data: read }).deserialize_any(
                        closure,
                        arena,
                        cells,
                        depth - 1,
                    ),
                    Err(e) => Err(e),
                }
            },
            BuilderDataType::PopArgument => {
                if closure.args.len() == 0 {
                    return Err(BuilderError::InvalidFunctionArgument);
                }
                if depth == 0 {
                    return Err(BuilderError::DepthExceeded);
                }
                let ghost slots = terms_of(closure.args@);
                match closure.args.pop() {
                    Some(top) => {
                        assert(terms_of(closure.args@) =~= slots.drop_last());
                        (BuilderDeserializer { data: top }).deserialize_any(
                            closure,
                            arena,
                            cells,
                            depth - 1,
                        )
                    },
                    None => Err(BuilderError::InvalidFunctionArgument),
                }
            },
            BuilderDataType::Reference(h) | BuilderDataType::SelfReference(h) => {
                match arena.get(h) {
                    None => Err(BuilderError::InvalidSelfRefrence),
                    Some(target) => {
                        if depth == 0 {
                            return Err(BuilderError::DepthExceeded);
                        }
                        (BuilderDeserializerRef { data: target }).deserialize_any(
                            closure,
                            arena,
                            cells,
                            depth - 1,
                        )
                    },
                }
            },
            BuilderDataType::Store(c) => {
                if c >= cells.len() {
                    return Err(BuilderError::InvalidSelfRefrence);
                }
                if depth == 0 {
                    return Err(BuilderError::DepthExceeded);
                }
                match cells.read(c) {
                    Some(inner) => (BuilderDeserializer { data: inner }).deserialize_any(
                        closure,
                        arena,
                        cells,
                        depth - 1,
                    ),
                    None => Err(BuilderError::InvalidSelfRefrence),
                }
            },
            BuilderDataType::Take(c) => {
                if c >= cells.len() {
                    return Err(BuilderError::InvalidSelfRefrence);
                }
                if depth == 0 {
                    return Err(BuilderError::DepthExceeded);
                }
                match cells.take(c) {
                    Some(read) => (BuilderDeserializer { data: read }).deserialize_any(
                        closure,
                        arena,
                        cells,
                        depth - 1,
                    ),
                    None => Err(BuilderError::InvalidSelfRefrence),
                }
            },
            BuilderDataType::IfThenElse(v) => {
                assert(node == Term::IfThenElse(terms_of(v@)));
                match closure.if_then_else(arena, cells, v, depth) {
                    Ok(branch) => {
                        if depth == 0 {
                            return Err(BuilderError::DepthExceeded);
                        }
                        (BuilderDeserializer { data: branch }).deserialize_any(
                            closure,
                            arena,
                            cells,
                            depth - 1,
                        )
                    },
                    Err(e) => Err(e),
                }
            },
            BuilderDataType::Empty
            | BuilderDataType::Range(_)
            | BuilderDataType::Sum(_)
            | BuilderDataType::Multiply(_)
            | BuilderDataType::Unique => Err(BuilderError::Unimplemented),
        }
    }

    /// Evaluates the node in the frame, over the arena and the cells: has
    /// a consumer that takes whatever it is handed pull all of it, and
    /// hands out the value, a tree of scalars, text, lists and mappings.
    pub fn evaluate<'r>(
        self,
        closure: &mut Closure<'de>,
        arena: &'r Arena<'de>,
        cells: &mut Cells<'de>,
        depth: usize,
    ) -> (r: Result<BuilderDataType<'de>, BuilderError>)
        ensures
            yields(
                r,
                eval(arena@, state_of(old(closure)@, old(cells)@), self.data@, depth as nat).0,
            ),
            state_of(final(closure)@, final(cells)@) == eval(
                arena@,
                state_of(old(closure)@, old(cells)@),
                self.data@,
                depth as nat,
            ).1,
        decreases depth, 3nat,
    {
        proof {
            law_pulling_evaluates(
                arena@,
                state_of(closure@, cells@),
                self.data@,
                depth as nat,
                true,
            );
        }
        match self.deserialize_any(closure, arena, cells, depth) {
            Ok(visited) => accept(visited, closure, arena, cells),
            Err(e) => Err(e),
        }
    }
}

} // verus!
