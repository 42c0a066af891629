use crate::closure::{state_of, Closure};
use crate::datatype::{entries_of, group_views, terms_of, BuilderDataType, Term};
use crate::errors::BuilderError;
use crate::heap::{Arena, Cells};
use crate::list_access::BuilderListAccess;
use crate::list_access_ref::BuilderListAccessRef;
use crate::map_access::BuilderMapAccess;
use crate::map_access_ref::BuilderMapAccessRef;
use crate::semantics::{eval, eval_entries, eval_items, finish, positioned, yields, State};
use crate::visit::{Visit, Visited};
use std::borrow::Cow;
use vstd::prelude::*;

verus! {

broadcast use group_views;

/// The values of the items of a list from a position on depend on the
/// items from that position on alone.
proof fn lemma_items_from(
    arena: Seq<Option<Term>>,
    st: State,
    a: Seq<Term>,
    b: Seq<Term>,
    count: nat,
    at: int,
    so_far: Seq<Term>,
    depth: nat,
)
    requires
        a.len() == b.len(),
        count <= a.len(),
        0 <= at,
        forall|j: int| at <= j < a.len() ==> a[j] == b[j],
    ensures
        eval_items(arena, st, a, false, count, at, so_far, depth) == eval_items(
            arena,
            st,
            b,
            false,
            count,
            at,
            so_far,
            depth,
        ),
    decreases count - at,
{
    if at < count {
        if let (Ok(value), after) = eval(arena, positioned(st, at), a[at], depth) {
            lemma_items_from(arena, after, a, b, count, at + 1, so_far.push(value), depth);
        }
    }
}

/// The values of the entries of a mapping from a position on depend on
/// the entries from that position on alone.
proof fn lemma_entries_from(
    arena: Seq<Option<Term>>,
    st: State,
    a: Seq<(Term, Term)>,
    b: Seq<(Term, Term)>,
    at: int,
    so_far: Seq<(Term, Term)>,
    depth: nat,
)
    requires
        a.len() == b.len(),
        0 <= at,
        forall|j: int| at <= j < a.len() ==> a[j] == b[j],
    ensures
        eval_entries(arena, st, a, at, so_far, depth) == eval_entries(
            arena,
            st,
            b,
            at,
            so_far,
            depth,
        ),
    decreases a.len() - at,
{
    if at < a.len() {
        if let (Ok(key), after_key) = eval(arena, st, a[at].0, depth) {
            if let (Ok(value), after) = eval(arena, after_key, a[at].1, depth) {
                lemma_entries_from(arena, after, a, b, at + 1, so_far.push((key, value)), depth);
            }
        }
    }
}

/// Takes a sequence as it is: pulls the items of an owned list until none
/// is left and hands out the list of their values.
#[verifier::loop_isolation(false)]
pub fn visit_seq<'r, 'de>(
    access: BuilderListAccess<'de>,
    closure: &mut Closure<'de>,
    arena: &'r Arena<'de>,
    cells: &mut Cells<'de>,
    depth: usize,
) -> (r: Result<BuilderDataType<'de>, BuilderError>)
    requires
        access.wf(),
    ensures
        ({
            let due = eval_items(
                arena@,
                state_of(old(closure)@, old(cells)@),
                terms_of(access.data@),
                false,
                access.data@.len(),
                access.index as int,
                Seq::empty(),
                depth as nat,
            );
            yields(r, due.0) && state_of(final(closure)@, final(cells)@) == due.1
        }),
    decreases depth + 1, 1nat,
{
    let ghost start = state_of(closure@, cells@);
    let ghost children = terms_of(access.data@);
    let ghost due = eval_items(
        arena@,
        start,
        children,
        false,
        children.len(),
        access.index as int,
        Seq::empty(),
        depth as nat,
    );
    let mut access = access;
    let mut out: Vec<BuilderDataType<'de>> = Vec::new();
    assert(terms_of(out@) =~= Seq::empty());
    loop
        invariant
            access.wf(),
            access.data@.len() == children.len(),
            eval_items(
                arena@,
                state_of(closure@, cells@),
                terms_of(access.data@),
                false,
                children.len(),
                access.index as int,
                terms_of(out@),
                depth as nat,
            ) == due,
        decreases access.data@.len() - access.index,
    {
        let ghost before = terms_of(access.data@);
        let ghost collected = terms_of(out@);
        let ghost at = access.index as int;
        let item = match access.next_element_seed(closure) {
            Some(item) => item,
            None => {
                return Ok(BuilderDataType::List(out));
            },
        };
        match item.evaluate(closure, arena, cells, depth) {
            Ok(value) => {
                out.push(value);
                proof {
                    assert(terms_of(out@) =~= collected.push(value@));
                    lemma_items_from(
                        arena@,
                        state_of(closure@, cells@),
                        terms_of(access.data@),
                        before,
                        children.len(),
                        at + 1,
                        terms_of(out@),
                        depth as nat,
                    );
                }
            },
            Err(e) => {
                return Err(e);
            },
        }
    }
}

/// Takes a sequence as it is: pulls the elements of a borrowed sequence
/// until none is left and hands out the list of their values.
#[verifier::loop_isolation(false)]
pub fn visit_seq_ref<'r, 'de>(
    access: BuilderListAccessRef<'r, 'de>,
    closure: &mut Closure<'de>,
    arena: &'r Arena<'de>,
    cells: &mut Cells<'de>,
    depth: usize,
) -> (r: Result<BuilderDataType<'de>, BuilderError>)
    requires
        access.wf(),
    ensures
        ({
            let due = eval_items(
                arena@,
                state_of(old(closure)@, old(cells)@),
                terms_of(access.data@),
                access.cyclic,
                (access.index + access.remaining) as nat,
                access.index as int,
                Seq::empty(),
                depth as nat,
            );
            yields(r, due.0) && state_of(final(closure)@, final(cells)@) == due.1
        }),
    decreases depth + 1, 1nat,
{
    let ghost start = state_of(closure@, cells@);
    let ghost children = terms_of(access.data@);
    let ghost count = (access.index + access.remaining) as nat;
    let ghost cyclic = access.cyclic;
    let ghost due = eval_items(
        arena@,
        start,
        children,
        cyclic,
        count,
        access.index as int,
        Seq::empty(),
        depth as nat,
    );
    let mut access = access;
    let mut out: Vec<BuilderDataType<'de>> = Vec::new();
    assert(terms_of(out@) =~= Seq::empty());
    loop
        invariant
            access.wf(),
            terms_of(access.data@) == children,
            access.cyclic == cyclic,
            access.index + access.remaining == count,
            eval_items(
                arena@,
                state_of(closure@, cells@),
                children,
                cyclic,
                count,
                access.index as int,
                terms_of(out@),
                depth as nat,
            ) == due,
        decreases access.remaining,
    {
        let ghost collected = terms_of(out@);
        let item = match access.next_element_seed(closure) {
            Some(item) => item,
            None => {
                return Ok(BuilderDataType::List(out));
            },
        };
        match item.evaluate(closure, arena, cells, depth) {
            Ok(value) => {
                out.push(value);
                assert(terms_of(out@) =~= collected.push(value@));
            },
            Err(e) => {
                return Err(e);
            },
        }
    }
}

/// Takes a mapping as it is: pulls the entries of an owned mapping until
/// none is left and hands out the mapping of their values.
#[verifier::loop_isolation(false)]
pub fn visit_map<'r, 'de>(
    access: BuilderMapAccess<'de>,
    closure: &mut Closure<'de>,
    arena: &'r Arena<'de>,
    cells: &mut Cells<'de>,
    depth: usize,
) -> (r: Result<BuilderDataType<'de>, BuilderError>)
    requires
        access.wf(),
    ensures
        ({
            let due = eval_entries(
                arena@,
                state_of(old(closure)@, old(cells)@),
                entries_of(access.data@),
                access.cursor as int,
                Seq::empty(),
                depth as nat,
            );
            yields(r, due.0) && state_of(final(closure)@, final(cells)@) == due.1
        }),
    decreases depth + 1, 1nat,
{
    let ghost start = state_of(closure@, cells@);
    let ghost entries = entries_of(access.data@);
    let ghost due = eval_entries(
        arena@,
        start,
        entries,
        access.cursor as int,
        Seq::empty(),
        depth as nat,
    );
    let mut access = access;
    let mut out: Vec<(BuilderDataType<'de>, BuilderDataType<'de>)> = Vec::new();
    assert(entries_of(out@) =~= Seq::empty());
    loop
        invariant
            access.wf(),
            access.data@.len() == entries.len(),
            eval_entries(
                arena@,
                state_of(closure@, cells@),
                entries_of(access.data@),
                access.cursor as int,
                entries_of(out@),
                depth as nat,
            ) == due,
        decreases access.data@.len() - access.cursor,
    {
        let ghost before = entries_of(access.data@);
        let ghost collected = entries_of(out@);
        let ghost at = access.cursor as int;
        let (key, value) = match access.next_entry_seed() {
            Some(entry) => entry,
            None => {
                return Ok(BuilderDataType::Mapping(out));
            },
        };
        let key = match key.evaluate(closure, arena, cells, depth) {
            Ok(key) => key,
            Err(e) => {
                return Err(e);
            },
        };
        let value = match value.evaluate(closure, arena, cells, depth) {
            Ok(value) => value,
            Err(e) => {
                return Err(e);
            },
        };
        out.push((key, value));
        proof {
            assert(entries_of(out@) =~= collected.push((key@, value@)));
            lemma_entries_from(
                arena@,
                state_of(closure@, cells@),
                entries_of(access.data@),
                before,
                at + 1,
                entries_of(out@),
                depth as nat,
            );
        }
    }
}

/// Takes a mapping as it is: pulls the entries of a borrowed mapping until
/// none is left and hands out the mapping of their values.
#[verifier::loop_isolation(false)]
pub fn visit_map_ref<'r, 'de>(
    access: BuilderMapAccessRef<'r, 'de>,
    closure: &mut Closure<'de>,
    arena: &'r Arena<'de>,
    cells: &mut Cells<'de>,
    depth: usize,
) -> (r: Result<BuilderDataType<'de>, BuilderError>)
    requires
        access.wf(),
    ensures
        ({
            let due = eval_entries(
                arena@,
                state_of(old(closure)@, old(cells)@),
                entries_of(access.data@),
                access.cursor as int,
                Seq::empty(),
                depth as nat,
            );
            yields(r, due.0) && state_of(final(closure)@, final(cells)@) == due.1
        }),
    decreases depth + 1, 1nat,
{
    let ghost start = state_of(closure@, cells@);
    let ghost entries = entries_of(access.data@);
    let ghost due = eval_entries(
        arena@,
        start,
        entries,
        access.cursor as int,
        Seq::empty(),
        depth as nat,
    );
    let mut access = access;
    let mut out: Vec<(BuilderDataType<'de>, BuilderDataType<'de>)> = Vec::new();
    assert(entries_of(out@) =~= Seq::empty());
    loop
        invariant
            access.wf(),
            entries_of(access.data@) == entries,
            eval_entries(
                arena@,
                state_of(closure@, cells@),
                entries,
                access.cursor as int,
                entries_of(out@),
                depth as nat,
            ) == due,
        decreases access.data@.len() - access.cursor,
    {
        let ghost collected = entries_of(out@);
        let (key, value) = match access.next_entry_seed() {
            Some(entry) => entry,
            None => {
                return Ok(BuilderDataType::Mapping(out));
            },
        };
        let key = match key.evaluate(closure, arena, cells, depth) {
            Ok(key) => key,
            Err(e) => {
                return Err(e);
            },
        };
        let value = match value.evaluate(closure, arena, cells, depth) {
            Ok(value) => value,
            Err(e) => {
                return Err(e);
            },
        };
        out.push((key, value));
        assert(entries_of(out@) =~= collected.push((key@, value@)));
    }
}

/// The consumer that takes whatever it is handed: a scalar and text
/// become the node that holds them, and a container is pulled until
/// nothing is left in it, each element in the frame that the container
/// was handed over with, and becomes the list or the mapping of the
/// values. Text that was lent is copied.
pub fn accept<'r, 'de>(
    visited: Visited<'r, 'de>,
    closure: &mut Closure<'de>,
    arena: &'r Arena<'de>,
    cells: &mut Cells<'de>,
) -> (r: Result<BuilderDataType<'de>, BuilderError>)
    requires
        visited.visit.untouched(),
    ensures
        yields(r, finish(arena@, state_of(old(closure)@, old(cells)@), visited@).0),
        state_of(final(closure)@, final(cells)@) == finish(
            arena@,
            state_of(old(closure)@, old(cells)@),
            visited@,
        ).1,
    decreases
            (if visited.visit.is_container() {
                visited.depth + 1
            } else {
                0
            }),
            2nat,
{
    let Visited { visit, frame, depth } = visited;
    match visit {
        Visit::Bool(v) => Ok(BuilderDataType::Boolean(v)),
        Visit::I64(v) => Ok(BuilderDataType::Integer(v)),
        Visit::U64(v) => Ok(BuilderDataType::Unsigned(v)),
        Visit::F64(v) => Ok(BuilderDataType::Number(v)),
        Visit::BorrowedStr(text) => Ok(BuilderDataType::String(Cow::Borrowed(text))),
        Visit::Str(text) => Ok(BuilderDataType::String(Cow::Owned(text.to_owned()))),
        Visit::String(text) => Ok(BuilderDataType::String(Cow::Owned(text))),
        Visit::Mapping(access) => match frame {
            Some(inner) => {
                let mut inner = inner;
                visit_map(access, &mut inner, arena, cells, depth)
            },
            None => visit_map(access, closure, arena, cells, depth),
        },
        Visit::MappingRef(access) => match frame {
            Some(inner) => {
                let mut inner = inner;
                visit_map_ref(access, &mut inner, arena, cells, depth)
            },
            None => visit_map_ref(access, closure, arena, cells, depth),
        },
        Visit::Sequence(access) => match frame {
            Some(inner) => {
                let mut inner = inner;
                visit_seq(access, &mut inner, arena, cells, depth)
            },
            None => visit_seq(access, closure, arena, cells, depth),
        },
        Visit::SequenceRef(access) => match frame {
            Some(inner) => {
                let mut inner = inner;
                visit_seq_ref(access, &mut inner, arena, cells, depth)
            },
            None => visit_seq_ref(access, closure, arena, cells, depth),
        },
        Visit::Repeat(children, times) => {
            let access = BuilderListAccessRef::repeat(&children, times);
            match frame {
                Some(inner) => {
                    let mut inner = inner;
                    visit_seq_ref(access, &mut inner, arena, cells, depth)
                },
                None => visit_seq_ref(access, closure, arena, cells, depth),
            }
        },
    }
}

} // verus!
