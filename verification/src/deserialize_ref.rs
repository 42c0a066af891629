use crate::closure::{lift, state_of, Closure};
use crate::datatype::{entries_of, group_views, terms_of, BuilderDataType, Term};
use crate::deserialize::BuilderDeserializer;
use crate::errors::BuilderError;
use crate::heap::{Arena, Cells};
use crate::list_access_ref::BuilderListAccessRef;
use crate::map_access_ref::BuilderMapAccessRef;
use crate::semantics::{eval, head, law_pulling_evaluates, resolve_all, yields};
use crate::visit::{hands, Visit, Visited};
use crate::visitor::accept;
use std::borrow::Cow;
use vstd::prelude::*;

verus! {

broadcast use group_views;

/// The evaluator in borrowing mode: it holds a borrow of the node that it
/// evaluates and hands out borrows of what the node holds.
pub struct BuilderDeserializerRef<'r, 'de> {
    pub data: &'r BuilderDataType<'de>,
}

impl<'r, 'de> BuilderDeserializerRef<'r, 'de> {
    /// Works out what to hand a consumer for the node, in the frame and
    /// over the arena and the cells: rewrites the node until a scalar,
    /// text or a container is reached. Text that the node owns is lent.
    #[verifier::loop_isolation(false)]
    pub fn deserialize_any(
        self,
        closure: &mut Closure<'de>,
        arena: &'r Arena<'de>,
        cells: &mut Cells<'de>,
        depth: usize,
    ) -> (r: Result<Visited<'r, 'de>, BuilderError>)
        ensures
            hands(
                r,
                head(arena@, state_of(old(closure)@, old(cells)@), self.data@, depth as nat, false).0,
            ),
            state_of(final(closure)@, final(cells)@) == head(
                arena@,
                state_of(old(closure)@, old(cells)@),
                self.data@,
                depth as nat,
                false,
            ).1,
            r matches Ok(visited) ==> visited.visit.is_container() ==> visited.depth < depth,
        decreases depth,
    {
        match self.data {
            BuilderDataType::Boolean(v) => Ok(
                Visited { visit: Visit::Bool(*v), frame: None, depth },
            ),
            BuilderDataType::Integer(v) => Ok(Visited { visit: Visit::I64(*v), frame: None, depth }),
            BuilderDataType::Unsigned(v) => Ok(
                Visited { visit: Visit::U64(*v), frame: None, depth },
            ),
            BuilderDataType::Number(v) => Ok(Visited { visit: Visit::F64(*v), frame: None, depth }),
            BuilderDataType::String(c) => match c {
                Cow::Borrowed(v) => Ok(
                    Visited { visit: Visit::BorrowedStr(*v), frame: None, depth },
                ),
                Cow::Owned(v) => Ok(Visited { visit: Visit::Str(v.as_str()), frame: None, depth }),
            },
            BuilderDataType::Index => Ok(
                Visited { visit: Visit::U64(closure.index as u64), frame: None, depth },
            ),
            BuilderDataType::Mapping(v) => {
                assert(self.data@ == Term::Mapping(entries_of(v@)));
                if depth == 0 {
                    return Err(BuilderError::DepthExceeded);
                }
                Ok(
                    Visited {
                        visit: Visit::MappingRef(BuilderMapAccessRef::new(v)),
                        frame: None,
                        depth: depth - 1,
                    },
                )
            },
            BuilderDataType::List(v) => {
                assert(self.data@ == Term::List(terms_of(v@)));
                if depth == 0 {
                    return Err(BuilderError::DepthExceeded);
                }
                Ok(
                    Visited {
                        visit: Visit::SequenceRef(BuilderListAccessRef::new(v)),
                        frame: None,
                        depth: depth - 1,
                    },
                )
            },
            BuilderDataType::Repeat(v) => {
                assert(self.data@ == Term::Repeat(terms_of(v@)));
                if depth == 0 {
                    return Err(BuilderError::DepthExceeded);
                }
                let times = if v.len() == 0 {
                    0
                } else {
                    match lift(v[0].to_unsigned(arena, cells, depth - 1)) {
                        Ok(times) => times,
                        Err(e) => {
                            return Err(e);
                        },
                    }
                };
                Ok(
                    Visited {
                        visit: Visit::SequenceRef(
                            BuilderListAccessRef::repeat(v, #[verifier::truncate] (times as usize)),
                        ),
                        frame: None,
                        depth: depth - 1,
                    },
                )
            },
            BuilderDataType::Closure(v) => {
                assert(self.data@ == Term::Closure(terms_of(v@)));
                if v.len() == 0 {
                    return Err(BuilderError::InvalidFunctionArgument);
                }
                if depth == 0 {
                    return Err(BuilderError::DepthExceeded);
                }
                let ghost start = state_of(closure@, cells@);
                let ghost below = (depth - 1) as nat;
                let mut args: Vec<BuilderDataType<'de>> = Vec::new();
                assert(terms_of(args@) =~= Seq::empty());
                let mut i: usize = 0;
                while i < v.len()
                    invariant
                        i <= v.len(),
                        resolve_all(
                            arena@,
                            state_of(closure@, cells@),
                            terms_of(v@),
                            i as int,
                            terms_of(args@),
                            below,
                        ) == resolve_all(arena@, start, terms_of(v@), 0, Seq::empty(), below),
                    decreases v.len() - i,
                {
                    let ghost resolved = terms_of(args@);
                    match closure.resolve_clone(arena, cells, &v[i], depth - 1) {
                        Ok(slot) => {
                            args.push(slot);
                            assert(terms_of(args@) =~= resolved.push(slot@));
                        },
                        Err(e) => {
                            return Err(e);
                        },
                    }
                    i += 1;
                }
                let mut inner = Closure { args, index: closure.index };
                match (BuilderDeserializerRef { data: &v[0] }).deserialize_any(
                    &mut inner,
                    arena,
                    cells,
                    depth - 1,
                ) {
                    Ok(of_body) => Ok(
                        Visited {
                            visit: of_body.visit,
                            frame: Some(
                                match of_body.frame {
                                    Some(innermost) => innermost,
                                    None => inner,
                                },
                            ),
                            depth: of_body.depth,
                        },
                    ),
                    Err(e) => Err(e),
                }
            },
            BuilderDataType::Argument(a) => {
                if *a >= closure.args.len() {
                    return Err(BuilderError::InvalidFunctionArgument);
                }
                if depth == 0 {
                    return Err(BuilderError::DepthExceeded);
                }
                let slot = closure.args[*a].clone();
                (BuilderDeserializer { data: slot }).deserialize_any(closure, arena, cells, depth - 1)
            },
            BuilderDataType::TakeFromArgument(a) => {
                if *a >= closure.args.len() {
                    return Err(BuilderError::InvalidFunctionArgument);
                }
                if depth == 0 {
                    return Err(BuilderError::DepthExceeded);
                }
                match closure.take_from_argument(*a) {
                    Ok(read) => (BuilderDeserializer { data: read }).deserialize_any(
                        closure,
                        arena,
                        cells,
                        depth - 1,
                    ),
                    Err(e) => Err(e),
                }
            },
            BuilderDataType::PopArgument => {
                if closure.args.len() == 0 {
                    return Err(BuilderError::InvalidFunctionArgument);
                }
                if depth == 0 {
                    return Err(BuilderError::DepthExceeded);
                }
                let ghost slots = terms_of(closure.args@);
                match closure.args.pop() {
                    Some(top) => {
                        assert(terms_of(closure.args@) =~= slots.drop_last());
                        (BuilderDeserializer { data: top }).deserialize_any(
                            closure,
                            arena,
                            cells,
                            depth - 1,
                        )
                    },
                    None => Err(BuilderError::InvalidFunctionArgument),
                }
            },
            BuilderDataType::Reference(h) | BuilderDataType::SelfReference(h) => {
                match arena.get(*h) {
                    None => Err(BuilderError::InvalidSelfRefrence),
                    Some(target) => {
                        if depth == 0 {
                            return Err(BuilderError::DepthExceeded);
                        }
                        (BuilderDeserializerRef { data: target }).deserialize_any(
                            closure,
                            arena,
                            cells,
                            depth - 1,
                        )
                    },
                }
            },
            BuilderDataType::Store(c) => {
                if *c >= cells.len() {
                    return Err(BuilderError::InvalidSelfRefrence);
                }
                if depth == 0 {
                    return Err(BuilderError::DepthExceeded);
                }
                match cells.read(*c) {
                    Some(inner) => (BuilderDeserializer { data: inner }).deserialize_any(
                        closure,
                        arena,
                        cells,
                        depth - 1,
                    ),
                    None => Err(BuilderError::InvalidSelfRefrence),
                }
            },
            BuilderDataType::Take(c) => {
                if *c >= cells.len() {
                    return Err(BuilderError::InvalidSelfRefrence);
                }
                if depth == 0 {
                    return Err(BuilderError::DepthExceeded);
                }
                match cells.take(*c) {
                    Some(read) => (BuilderDeserializer { data: read }).deserialize_any(
                        closure,
                        arena,
                        cells,
                        depth - 1,
                    ),
                    None => Err(BuilderError::InvalidSelfRefrence),
                }
            },
            BuilderDataType::IfThenElse(v) => {
                assert(self.data@ == Term::IfThenElse(terms_of(v@)));
                match closure.if_then_else_ref(arena, cells, v, depth) {
                    Ok(branch) => {
                        if depth == 0 {
                            return Err(BuilderError::DepthExceeded);
                        }
                        (BuilderDeserializerRef { data: branch }).deserialize_any(
                            closure,
                            arena,
                            cells,
                            depth - 1,
                        )
                    },
                    Err(e) => Err(e),
                }
            },
            BuilderDataType::Empty
            | BuilderDataType::Range(_)
            | BuilderDataType::Sum(_)
            | BuilderDataType::Multiply(_)
            | BuilderDataType::Unique => Err(BuilderError::Unimplemented),
        }
    }

    /// Evaluates the node in the frame, over the arena and the cells: has
    /// a consumer that takes whatever it is handed pull all of it, and
    /// hands out the value, a tree of scalars, text, lists and mappings.
    pub fn evaluate(
        self,
        closure: &mut Closure<'de>,
        arena: &'r Arena<'de>,
        cells: &mut Cells<'de>,
        depth: usize,
    ) -> (r: Result<BuilderDataType<'de>, BuilderError>)
        ensures
            yields(
                r,
                eval(arena@, state_of(old(closure)@, old(cells)@), self.data@, depth as nat).0,
            ),
            state_of(final(closure)@, final(cells)@) == eval(
                arena@,
                state_of(old(closure)@, old(cells)@),
                self.data@,
                depth as nat,
            ).1,
        decreases depth, 3nat,
    {
        proof {
            law_pulling_evaluates(
                arena@,
                state_of(closure@, cells@),
                self.data@,
                depth as nat,
                false,
            );
        }
        match self.deserialize_any(closure, arena, cells, depth) {
            Ok(visited) => accept(visited, closure, arena, cells),
            Err(e) => Err(e),
        }
    }
}

} // verus!
