use crate::coercion::{
    blank, float_source, join_entry, join_item, leaf, signed, text, text_entries, text_items, truth,
    unsigned,
};
use crate::datatype::{left, taken, Term};
use crate::errors::BuilderError;
use crate::heap::alive;
use crate::semantics::{
    cell_taken, element, eval, eval_entries, eval_entry, eval_items, lifted, positioned, resolve,
    resolve_all, resolve_truth, select, slot_taken, Outcome, State,
};
use vstd::prelude::*;

verus! {

/// Whether a term is a scalar or text: a leaf that is its own value.
pub open spec fn is_scalar(t: Term) -> bool {
    t is Boolean || t is Integer || t is Unsigned || t is Number || t is String
}

/// A scalar evaluates to itself, at any depth and in any state, and leaves
/// the state as it was.
pub proof fn law_scalar_round_trip(arena: Seq<Option<Term>>, st: State, t: Term, depth: nat)
    requires
        is_scalar(t),
    ensures
        eval(arena, st, t, depth) == (Ok::<Term, BuilderError>(t), st),
{
}

/// The term that a chain of references ends at: the term itself after no
/// hop, and after one more hop the end of the chain that starts at the
/// target of the reference. `None` where the chain breaks off: at a term
/// that is no reference, or at a handle that dangles.
pub open spec fn chain_end(arena: Seq<Option<Term>>, t: Term, hops: nat) -> Option<Term>
    decreases hops,
{
    if hops == 0 {
        Some(t)
    } else {
        match t {
            Term::Reference(h) => if alive(arena, h) {
                chain_end(arena, arena[h as int]->0, (hops - 1) as nat)
            } else {
                None
            },
            _ => None,
        }
    }
}

/// A chain of references evaluates to what the term at its end evaluates
/// to when it stands in the chain's place, each hop taking one unit of
/// depth.
pub proof fn law_reference_chain_inlined(
    arena: Seq<Option<Term>>,
    st: State,
    t: Term,
    hops: nat,
    depth: nat,
)
    requires
        chain_end(arena, t, hops) is Some,
    ensures
        eval(arena, st, t, depth + hops) == eval(arena, st, chain_end(arena, t, hops)->0, depth),
    decreases hops,
{
    if hops > 0 {
        let h = t->Reference_0;
        law_reference_chain_inlined(arena, st, arena[h as int]->0, (hops - 1) as nat, depth);
        assert((depth + hops - 1) as nat == depth + (hops - 1) as nat);
    }
}

/// Taking from one argument slot twice hands out what a consuming read
/// reads from the slot and then what a second one reads from what the
/// first left, and leaves the slot consumed twice.
pub proof fn law_take_from_argument_twice(
    arena: Seq<Option<Term>>,
    st: State,
    slot: usize,
    depth: nat,
)
    requires
        slot < st.args.len(),
    ensures
        ({
            let first = resolve(arena, st, Term::TakeFromArgument(slot), depth);
            let second = resolve(arena, first.1, Term::TakeFromArgument(slot), depth);
            &&& first.0 == Ok::<Term, BuilderError>(taken(st.args[slot as int]))
            &&& second.0 == Ok::<Term, BuilderError>(
                taken(left(st.args[slot as int])),
            )
            &&& second.1.args == st.args.update(slot as int, left(left(st.args[slot as int])))
            &&& second.1.cells == st.cells
            &&& second.1.index == st.index
        }),
{
    let once = slot_taken(st, slot);
    assert(once.args[slot as int] == left(st.args[slot as int]));
    assert(slot_taken(once, slot).args =~= st.args.update(
        slot as int,
        left(left(st.args[slot as int])),
    ));
}

/// The state that the evaluation of a sequence of `count` elements leaves
/// where no element changes the state: the state it started from, with
/// the position register at the last element.
pub open spec fn after_sequence(st: State, count: nat) -> State {
    if count == 0 {
        st
    } else {
        positioned(st, count - 1)
    }
}

/// The positions of a sequence of `count` elements as values.
pub open spec fn positions(count: nat) -> Seq<Term> {
    Seq::new(count, |i: int| Term::Unsigned(i as u64))
}

proof fn lemma_index_items(
    arena: Seq<Option<Term>>,
    st: State,
    items: Seq<Term>,
    at: int,
    start: State,
    depth: nat,
)
    requires
        0 <= at <= items.len() <= usize::MAX,
        forall|i: int| 0 <= i < items.len() ==> items[i] == Term::Index,
        st == if at == 0 {
            start
        } else {
            positioned(start, at - 1)
        },
    ensures
        eval_items(arena, st, items, false, items.len(), at, positions(at as nat), depth) == (
            Ok::<Term, BuilderError>(Term::List(positions(items.len()))),
            after_sequence(start, items.len()),
        ),
    decreases items.len() - at,
{
    if at < items.len() {
        assert(positions(at as nat).push(Term::Unsigned(at as usize as u64)) =~= positions(
            (at + 1) as nat,
        ));
        let here = positioned(st, at);
        let position = Term::Unsigned(at as usize as u64);
        assert(here == positioned(start, at));
        assert(element(items, false, at) == Term::Index);
        assert(eval(arena, here, Term::Index, depth) == (Ok::<Term, BuilderError>(position), here));
        lemma_index_items(arena, here, items, at + 1, start, depth);
    }
}

/// In a list whose items are all `Index`, the items evaluate to their
/// positions: zero, one, and so on up to the length less one.
pub proof fn law_index_counts_positions(
    arena: Seq<Option<Term>>,
    st: State,
    items: Seq<Term>,
    depth: nat,
)
    requires
        items.len() <= usize::MAX,
        forall|i: int| 0 <= i < items.len() ==> items[i] == Term::Index,
        depth > 0,
    ensures
        eval(arena, st, Term::List(items), depth) == (
            Ok::<Term, BuilderError>(Term::List(positions(items.len()))),
            after_sequence(st, items.len()),
        ),
{
    assert(positions(0) =~= Seq::empty());
    lemma_index_items(arena, st, items, 0, st, (depth - 1) as nat);
}

proof fn lemma_scalar_items(
    arena: Seq<Option<Term>>,
    st: State,
    items: Seq<Term>,
    at: int,
    start: State,
    depth: nat,
)
    requires
        0 <= at <= items.len(),
        forall|i: int| 0 <= i < items.len() ==> is_scalar(#[trigger] items[i]),
        st == if at == 0 {
            start
        } else {
            positioned(start, at - 1)
        },
    ensures
        eval_items(arena, st, items, false, items.len(), at, items.subrange(0, at), depth) == (
            Ok::<Term, BuilderError>(Term::List(items)),
            after_sequence(start, items.len()),
        ),
    decreases items.len() - at,
{
    if at < items.len() {
        assert(is_scalar(items[at]));
        assert(items.subrange(0, at).push(items[at]) =~= items.subrange(0, at + 1));
        let here = positioned(st, at);
        assert(here == positioned(start, at));
        assert(element(items, false, at) == items[at]);
        law_scalar_round_trip(arena, here, items[at], depth);
        lemma_scalar_items(arena, here, items, at + 1, start, depth);
    } else {
        assert(items.subrange(0, at) =~= items);
    }
}

/// A list of scalars evaluates to exactly those scalars, in order.
pub proof fn law_list_of_scalars(arena: Seq<Option<Term>>, st: State, items: Seq<Term>, depth: nat)
    requires
        forall|i: int| 0 <= i < items.len() ==> is_scalar(#[trigger] items[i]),
        depth > 0,
    ensures
        eval(arena, st, Term::List(items), depth) == (
            Ok::<Term, BuilderError>(Term::List(items)),
            after_sequence(st, items.len()),
        ),
{
    assert(items.subrange(0, 0) =~= Seq::empty());
    lemma_scalar_items(arena, st, items, 0, st, (depth - 1) as nat);
}

proof fn lemma_scalar_entries(
    arena: Seq<Option<Term>>,
    st: State,
    entries: Seq<(Term, Term)>,
    at: int,
    depth: nat,
)
    requires
        0 <= at <= entries.len(),
        forall|i: int|
            0 <= i < entries.len() ==> is_scalar((#[trigger] entries[i]).0) && is_scalar(
                entries[i].1,
            ),
    ensures
        eval_entries(arena, st, entries, at, entries.subrange(0, at), depth) == (
            Ok::<Term, BuilderError>(Term::Mapping(entries)),
            st,
        ),
    decreases entries.len() - at,
{
    if at < entries.len() {
        assert(is_scalar(entries[at].0) && is_scalar(entries[at].1));
        assert(entries.subrange(0, at).push((entries[at].0, entries[at].1)) =~= entries.subrange(
            0,
            at + 1,
        ));
        law_scalar_round_trip(arena, st, entries[at].0, depth);
        law_scalar_round_trip(arena, st, entries[at].1, depth);
        lemma_scalar_entries(arena, st, entries, at + 1, depth);
    } else {
        assert(entries.subrange(0, at) =~= entries);
    }
}

/// A mapping of scalars to scalars evaluates to exactly those entries, in
/// insertion order, each key with its own value.
pub proof fn law_mapping_of_scalars(
    arena: Seq<Option<Term>>,
    st: State,
    entries: Seq<(Term, Term)>,
    depth: nat,
)
    requires
        forall|i: int|
            0 <= i < entries.len() ==> is_scalar((#[trigger] entries[i]).0) && is_scalar(
                entries[i].1,
            ),
        depth > 0,
    ensures
        eval(arena, st, Term::Mapping(entries), depth) == (
            Ok::<Term, BuilderError>(Term::Mapping(entries)),
            st,
        ),
{
    assert(entries.subrange(0, 0) =~= Seq::empty());
    lemma_scalar_entries(arena, st, entries, 0, (depth - 1) as nat);
}

/// The outcome of the entries of a mapping with the values of earlier
/// entries put before them.
pub open spec fn preceded(before: Seq<(Term, Term)>, rest: Outcome<Term>) -> Outcome<Term> {
    match rest {
        (Ok(Term::Mapping(values)), after) => (Ok(Term::Mapping(before + values)), after),
        _ => rest,
    }
}

/// One step of the evaluation of the entries of a mapping.
proof fn lemma_entries_step(
    arena: Seq<Option<Term>>,
    st: State,
    entries: Seq<(Term, Term)>,
    at: int,
    so_far: Seq<(Term, Term)>,
    depth: nat,
)
    requires
        0 <= at < entries.len(),
    ensures
        eval_entries(arena, st, entries, at, so_far, depth) == match eval_entry(
            arena,
            st,
            entries[at],
            depth,
        ) {
            (Ok(entry), after) => eval_entries(
                arena,
                after,
                entries,
                at + 1,
                so_far.push(entry),
                depth,
            ),
            (Err(e), after) => (Err::<Term, BuilderError>(e), after),
        },
{
}

proof fn lemma_entries_accumulate(
    arena: Seq<Option<Term>>,
    st: State,
    entries: Seq<(Term, Term)>,
    at: int,
    so_far: Seq<(Term, Term)>,
    depth: nat,
)
    requires
        0 <= at,
    ensures
        eval_entries(arena, st, entries, at, so_far, depth) == preceded(
            so_far,
            eval_entries(arena, st, entries, at, Seq::empty(), depth),
        ),
        eval_entries(arena, st, entries, at, Seq::empty(), depth).0 matches Ok(value)
            ==> value is Mapping,
    decreases entries.len() - at,
{
    if at < entries.len() {
        lemma_entries_step(arena, st, entries, at, so_far, depth);
        lemma_entries_step(arena, st, entries, at, Seq::empty(), depth);
        if let (Ok(entry), after) = eval_entry(arena, st, entries[at], depth) {
            lemma_entries_accumulate(arena, after, entries, at + 1, so_far.push(entry), depth);
            lemma_entries_accumulate(arena, after, entries, at + 1, seq![entry], depth);
            assert(Seq::<(Term, Term)>::empty().push(entry) =~= seq![entry]);
            let rest = eval_entries(arena, after, entries, at + 1, Seq::empty(), depth);
            if let (Ok(Term::Mapping(values)), end) = rest {
                assert(so_far.push(entry) + values =~= so_far + (seq![entry] + values));
            }
        }
    } else {
        assert(so_far + Seq::<(Term, Term)>::empty() =~= so_far);
    }
}

proof fn lemma_entries_shift(
    arena: Seq<Option<Term>>,
    st: State,
    entries: Seq<(Term, Term)>,
    at: int,
    so_far: Seq<(Term, Term)>,
    depth: nat,
)
    requires
        1 <= at,
        entries.len() >= 1,
    ensures
        eval_entries(arena, st, entries, at, so_far, depth) == eval_entries(
            arena,
            st,
            entries.skip(1),
            at - 1,
            so_far,
            depth,
        ),
    decreases entries.len() - at,
{
    if at < entries.len() {
        assert(entries.skip(1)[at - 1] == entries[at]);
        lemma_entries_step(arena, st, entries, at, so_far, depth);
        lemma_entries_step(arena, st, entries.skip(1), at - 1, so_far, depth);
        if let (Ok(entry), after) = eval_entry(arena, st, entries[at], depth) {
            lemma_entries_shift(arena, after, entries, at + 1, so_far.push(entry), depth);
        }
    }
}

/// The entries of a mapping are evaluated in insertion order and each is
/// delivered once: the value of a mapping is the value of its first
/// entry, key before value, followed by the value of the mapping of the
/// other entries as evaluated in the state that the first entry leaves.
/// The first error ends the evaluation.
pub proof fn law_mapping_in_order(
    arena: Seq<Option<Term>>,
    st: State,
    entries: Seq<(Term, Term)>,
    depth: nat,
)
    requires
        entries.len() > 0,
        depth > 0,
    ensures
        eval(arena, st, Term::Mapping(entries), depth) == match eval_entry(
            arena,
            st,
            entries[0],
            (depth - 1) as nat,
        ) {
            (Ok(first), after) => preceded(
                seq![first],
                eval(arena, after, Term::Mapping(entries.skip(1)), depth),
            ),
            (Err(e), after) => (Err::<Term, BuilderError>(e), after),
        },
{
    let below = (depth - 1) as nat;
    lemma_entries_step(arena, st, entries, 0, Seq::empty(), below);
    if let (Ok(first), after) = eval_entry(arena, st, entries[0], below) {
        assert(Seq::<(Term, Term)>::empty().push(first) =~= seq![first]);
        lemma_entries_accumulate(arena, after, entries, 1, seq![first], below);
        lemma_entries_shift(arena, after, entries, 1, Seq::empty(), below);
    }
}

/// The state in which the child of a closure at position `upto` is
/// rewritten: the one that rewriting the children before it, from the
/// first on, has left.
pub open spec fn resolving_state(
    arena: Seq<Option<Term>>,
    st: State,
    children: Seq<Term>,
    upto: int,
    depth: nat,
) -> State
    decreases upto,
{
    if upto <= 0 {
        st
    } else {
        resolve(
            arena,
            resolving_state(arena, st, children, upto - 1, depth),
            children[upto - 1],
            depth,
        ).1
    }
}

proof fn lemma_resolve_all(
    arena: Seq<Option<Term>>,
    start: State,
    children: Seq<Term>,
    from: int,
    so_far: Seq<Term>,
    depth: nat,
)
    requires
        0 <= from <= children.len(),
        so_far.len() == from,
        resolve_all(
            arena,
            resolving_state(arena, start, children, from, depth),
            children,
            from,
            so_far,
            depth,
        ).0 is Ok,
    ensures
        ({
            let all = resolve_all(
                arena,
                resolving_state(arena, start, children, from, depth),
                children,
                from,
                so_far,
                depth,
            );
            let slots = all.0->Ok_0;
            &&& slots.len() == children.len()
            &&& all.1 == resolving_state(arena, start, children, children.len() as int, depth)
            &&& forall|j: int| 0 <= j < from ==> slots[j] == so_far[j]
            &&& forall|j: int|
                from <= j < children.len() ==> resolve(
                    arena,
                    resolving_state(arena, start, children, j, depth),
                    children[j],
                    depth,
                ).0 == Ok::<Term, BuilderError>(#[trigger] slots[j])
        }),
    decreases children.len() - from,
{
    if from < children.len() {
        let here = resolving_state(arena, start, children, from, depth);
        let step = resolve(arena, here, children[from], depth);
        assert(step.1 == resolving_state(arena, start, children, from + 1, depth));
        lemma_resolve_all(arena, start, children, from + 1, so_far.push(step.0->Ok_0), depth);
    }
}

/// Inside the body of a closure, `Argument(i)` stands for the child of
/// the closure at position `i` as rewritten against the enclosing frame.
///
/// Where the children of a closure can all be rewritten, the frame of the
/// body has one slot for each child, the body included; slot `i` holds
/// child `i` as rewritten in the state that rewriting the children before
/// it has left; the closure evaluates to what its body evaluates to in
/// that frame; and in every state with those slots `Argument(i)` evaluates
/// to what slot `i` evaluates to.
pub proof fn law_closure_arguments(
    arena: Seq<Option<Term>>,
    st: State,
    children: Seq<Term>,
    i: usize,
    depth: nat,
)
    requires
        i < children.len(),
        resolve_all(arena, st, children, 0, Seq::empty(), depth).0 is Ok,
    ensures
        ({
            let all = resolve_all(arena, st, children, 0, Seq::empty(), depth);
            let slots = all.0->Ok_0;
            let inner = State { cells: all.1.cells, args: slots, index: all.1.index };
            &&& slots.len() == children.len()
            &&& resolve(
                arena,
                resolving_state(arena, st, children, i as int, depth),
                children[i as int],
                depth,
            ).0 == Ok::<Term, BuilderError>(slots[i as int])
            &&& eval(arena, st, Term::Closure(children), depth + 1).0 == eval(
                arena,
                inner,
                children[0],
                depth,
            ).0
            &&& forall|within: State, d: nat|
                within.args == slots && d > 0 ==> #[trigger] eval(
                    arena,
                    within,
                    Term::Argument(i),
                    d,
                ) == eval(arena, within, slots[i as int], (d - 1) as nat)
        }),
{
    lemma_resolve_all(arena, st, children, 0, Seq::empty(), depth);
}

/// A term that unfolds itself for as long as a cell counts down: a
/// conditional that consumes the cell and, while the cell reads true, is a
/// list of what the handle of the term's own slot stands for, and after
/// that the empty list.
pub open spec fn countdown_knot(own: usize, cell: usize) -> Term {
    Term::IfThenElse(
        seq![
            Term::Take(cell),
            Term::List(seq![Term::SelfReference(own)]),
            Term::List(Seq::empty()),
        ],
    )
}

/// The empty list nested in `levels` lists.
pub open spec fn nested(levels: nat) -> Term
    decreases levels,
{
    if levels == 0 {
        Term::List(Seq::empty())
    } else {
        Term::List(seq![nested((levels - 1) as nat)])
    }
}

/// A self-reference that is bounded by a `Take` over `Unsigned(k)` unfolds
/// exactly `k` times: the term evaluates to the empty list nested in `k`
/// lists and leaves the cell at zero. Each unfolding takes three units of
/// depth and the last reading of the cell two.
pub proof fn law_bounded_self_reference(
    arena: Seq<Option<Term>>,
    st: State,
    own: usize,
    cell: usize,
    k: nat,
    depth: nat,
)
    requires
        alive(arena, own),
        arena[own as int] == Some(countdown_knot(own, cell)),
        cell < st.cells.len(),
        k <= u64::MAX,
        st.cells[cell as int] == Term::Unsigned(k as u64),
        depth >= 3 * k + 2,
    ensures
        eval(arena, st, countdown_knot(own, cell), depth) == (
            Ok::<Term, BuilderError>(nested(k)),
            State {
                cells: st.cells.update(cell as int, Term::Unsigned(0)),
                args: st.args,
                index: if k == 0 {
                    st.index
                } else {
                    0
                },
            },
        ),
    decreases k,
{
    let knot = countdown_knot(own, cell);
    let children = knot->IfThenElse_0;
    let after = cell_taken(st, cell);
    let read = truth(arena, st.cells, Term::Take(cell), (depth - 1) as nat);
    assert(read == truth(arena, after.cells, Term::Unsigned(k as u64), (depth - 2) as nat));
    assert(read == (Some(k != 0), after.cells));
    assert(resolve_truth(arena, st, children[0], (depth - 1) as nat) == lifted(read, st));
    assert(lifted(read, st) == (Ok::<bool, BuilderError>(k != 0), after));
    let chosen = select(arena, st, children, depth);
    assert(chosen == (
        Ok::<Term, BuilderError>(
            if k != 0 {
                children[1]
            } else {
                children[2]
            },
        ),
        after,
    ));
    if k == 0 {
        let none = Seq::<Term>::empty();
        assert(eval_items(arena, after, none, false, 0, 0, none, (depth - 2) as nat) == (
            Ok::<Term, BuilderError>(Term::List(none)),
            after,
        ));
        assert(eval(arena, after, Term::List(none), (depth - 1) as nat) == (
            Ok::<Term, BuilderError>(Term::List(none)),
            after,
        ));
        assert(after.cells =~= st.cells.update(cell as int, Term::Unsigned(0)));
    } else {
        let items = seq![Term::SelfReference(own)];
        let here = positioned(after, 0);
        law_bounded_self_reference(arena, here, own, cell, (k - 1) as nat, (depth - 3) as nat);
        let end = State {
            cells: here.cells.update(cell as int, Term::Unsigned(0)),
            args: st.args,
            index: 0,
        };
        assert(eval(arena, here, knot, (depth - 3) as nat) == (
            Ok::<Term, BuilderError>(nested((k - 1) as nat)),
            end,
        ));
        assert(eval(arena, here, Term::SelfReference(own), (depth - 2) as nat) == eval(
            arena,
            here,
            knot,
            (depth - 3) as nat,
        ));
        assert(element(items, false, 0) == Term::SelfReference(own));
        let one = Seq::<Term>::empty().push(nested((k - 1) as nat));
        assert(one =~= seq![nested((k - 1) as nat)]);
        assert(eval_items(arena, end, items, false, 1, 1, one, (depth - 2) as nat) == (
            Ok::<Term, BuilderError>(Term::List(one)),
            end,
        ));
        assert(eval_items(arena, after, items, false, 1, 0, Seq::empty(), (depth - 2) as nat)
            == (Ok::<Term, BuilderError>(nested(k)), end));
        assert(eval(arena, after, Term::List(items), (depth - 1) as nat) == (
            Ok::<Term, BuilderError>(nested(k)),
            end,
        ));
        assert(end.cells =~= st.cells.update(cell as int, Term::Unsigned(0)));
    }
}

/// Whether a term is a value: a tree of scalars, text, lists and mappings
/// alone.
pub open spec fn is_value(t: Term) -> bool
    decreases t,
{
    match t {
        Term::Boolean(_) | Term::Integer(_) | Term::Unsigned(_) | Term::Number(_) | Term::String(
            _,
            _,
        ) => true,
        Term::List(items) => forall|i: int|
            0 <= i < items.len() ==> is_value(#[trigger] items[i]),
        Term::Mapping(entries) => forall|i: int|
            0 <= i < entries.len() ==> is_value((#[trigger] entries[i]).0) && is_value(
                entries[i].1,
            ),
        _ => false,
    }
}

/// What an evaluation delivers is a value: no computed term, no `Empty`
/// and no reserved variant is left in it.
pub proof fn law_evaluation_delivers_a_value(
    arena: Seq<Option<Term>>,
    st: State,
    t: Term,
    depth: nat,
)
    ensures
        eval(arena, st, t, depth).0 matches Ok(value) ==> is_value(value),
    decreases depth, 0nat, 0nat,
{
    let below = (depth - 1) as nat;
    match t {
        Term::Mapping(entries) => {
            if depth > 0 {
                lemma_entries_deliver_values(arena, st, entries, 0, Seq::empty(), below);
            }
        },
        Term::List(items) => {
            if depth > 0 {
                lemma_items_deliver_values(
                    arena,
                    st,
                    items,
                    false,
                    items.len(),
                    0,
                    Seq::empty(),
                    below,
                );
            }
        },
        Term::Repeat(children) => {
            if depth > 0 && children.len() > 0 {
                let counted = lifted(
                    unsigned(arena, st.cells, children[0], below),
                    st,
                );
                if let (Ok(times), after) = counted {
                    lemma_items_deliver_values(
                        arena,
                        after,
                        children,
                        true,
                        if children.len() > 1 {
                            times as usize as nat
                        } else {
                            0
                        },
                        0,
                        Seq::empty(),
                        below,
                    );
                }
            }
        },
        Term::Closure(children) => {
            if depth > 0 && children.len() > 0 {
                if let (Ok(slots), after) = resolve_all(
                    arena,
                    st,
                    children,
                    0,
                    Seq::empty(),
                    below,
                ) {
                    let inner = State { cells: after.cells, args: slots, index: after.index };
                    law_evaluation_delivers_a_value(arena, inner, children[0], below);
                }
            }
        },
        Term::Argument(a) => {
            if a < st.args.len() && depth > 0 {
                law_evaluation_delivers_a_value(arena, st, st.args[a as int], below);
            }
        },
        Term::TakeFromArgument(a) => {
            if a < st.args.len() && depth > 0 {
                law_evaluation_delivers_a_value(
                    arena,
                    slot_taken(st, a),
                    taken(st.args[a as int]),
                    below,
                );
            }
        },
        Term::PopArgument => {
            if st.args.len() > 0 && depth > 0 {
                law_evaluation_delivers_a_value(
                    arena,
                    State { cells: st.cells, args: st.args.drop_last(), index: st.index },
                    st.args.last(),
                    below,
                );
            }
        },
        Term::Reference(h) | Term::SelfReference(h) => {
            if alive(arena, h) && depth > 0 {
                law_evaluation_delivers_a_value(arena, st, arena[h as int]->0, below);
            }
        },
        Term::Store(c) => {
            if c < st.cells.len() && depth > 0 {
                law_evaluation_delivers_a_value(arena, st, st.cells[c as int], below);
            }
        },
        Term::Take(c) => {
            if c < st.cells.len() && depth > 0 {
                law_evaluation_delivers_a_value(
                    arena,
                    cell_taken(st, c),
                    taken(st.cells[c as int]),
                    below,
                );
            }
        },
        Term::IfThenElse(children) => {
            if let (Ok(branch), after) = select(arena, st, children, depth) {
                if depth > 0 {
                    law_evaluation_delivers_a_value(arena, after, branch, below);
                }
            }
        },
        _ => {},
    }
}

proof fn lemma_items_deliver_values(
    arena: Seq<Option<Term>>,
    st: State,
    children: Seq<Term>,
    cyclic: bool,
    count: nat,
    at: int,
    so_far: Seq<Term>,
    depth: nat,
)
    requires
        0 <= at,
        forall|i: int| 0 <= i < so_far.len() ==> is_value(#[trigger] so_far[i]),
    ensures
        eval_items(arena, st, children, cyclic, count, at, so_far, depth).0 matches Ok(value)
            ==> is_value(value),
    decreases depth, 1nat, count - at,
{
    if at < count {
        let here = positioned(st, at);
        let item = element(children, cyclic, at);
        law_evaluation_delivers_a_value(arena, here, item, depth);
        if let (Ok(value), after) = eval(arena, here, item, depth) {
            lemma_items_deliver_values(
                arena,
                after,
                children,
                cyclic,
                count,
                at + 1,
                so_far.push(value),
                depth,
            );
        }
    }
}

proof fn lemma_entries_deliver_values(
    arena: Seq<Option<Term>>,
    st: State,
    entries: Seq<(Term, Term)>,
    at: int,
    so_far: Seq<(Term, Term)>,
    depth: nat,
)
    requires
        0 <= at,
        forall|i: int|
            0 <= i < so_far.len() ==> is_value((#[trigger] so_far[i]).0) && is_value(so_far[i].1),
    ensures
        eval_entries(arena, st, entries, at, so_far, depth).0 matches Ok(value) ==> is_value(
            value,
        ),
    decreases depth, 1nat, entries.len() - at,
{
    if at < entries.len() {
        law_evaluation_delivers_a_value(arena, st, entries[at].0, depth);
        if let (Ok(key), after_key) = eval(arena, st, entries[at].0, depth) {
            law_evaluation_delivers_a_value(arena, after_key, entries[at].1, depth);
            if let (Ok(value), after) = eval(arena, after_key, entries[at].1, depth) {
                lemma_entries_deliver_values(
                    arena,
                    after,
                    entries,
                    at + 1,
                    so_far.push((key, value)),
                    depth,
                );
            }
        }
    }
}

/// Whether an evaluation delivered the term itself, or ran out of depth,
/// and in either case left the cells and the arguments as they were.
pub open spec fn kept(out: Outcome<Term>, t: Term, st: State) -> bool {
    &&& out.0 == Ok::<Term, BuilderError>(t) || out.0 == Err::<Term, BuilderError>(
        BuilderError::DepthExceeded,
    )
    &&& out.1.cells == st.cells
    &&& out.1.args == st.args
}

/// A value evaluates to itself: evaluating what an evaluation delivered
/// changes nothing, as long as the depth reaches to its leaves.
pub proof fn law_value_evaluates_to_itself(
    arena: Seq<Option<Term>>,
    st: State,
    t: Term,
    depth: nat,
)
    requires
        is_value(t),
    ensures
        kept(eval(arena, st, t, depth), t, st),
    decreases depth, 0nat, 0nat,
{
    let below = (depth - 1) as nat;
    match t {
        Term::Mapping(entries) => {
            if depth > 0 {
                assert(entries.subrange(0, 0) =~= Seq::empty());
                lemma_value_entries(arena, st, entries, 0, st, below);
            }
        },
        Term::List(items) => {
            if depth > 0 {
                assert(items.subrange(0, 0) =~= Seq::empty());
                lemma_value_items(arena, st, items, 0, st, below);
            }
        },
        _ => {},
    }
}

proof fn lemma_value_items(
    arena: Seq<Option<Term>>,
    st: State,
    items: Seq<Term>,
    at: int,
    start: State,
    depth: nat,
)
    requires
        0 <= at <= items.len(),
        forall|i: int| 0 <= i < items.len() ==> is_value(#[trigger] items[i]),
        st.cells == start.cells,
        st.args == start.args,
    ensures
        kept(
            eval_items(arena, st, items, false, items.len(), at, items.subrange(0, at), depth),
            Term::List(items),
            start,
        ),
    decreases depth, 1nat, items.len() - at,
{
    if at < items.len() {
        let here = positioned(st, at);
        assert(element(items, false, at) == items[at]);
        assert(is_value(items[at]));
        law_value_evaluates_to_itself(arena, here, items[at], depth);
        if let (Ok(value), after) = eval(arena, here, items[at], depth) {
            assert(items.subrange(0, at).push(value) =~= items.subrange(0, at + 1));
            lemma_value_items(arena, after, items, at + 1, start, depth);
        }
    } else {
        assert(items.subrange(0, at) =~= items);
    }
}

proof fn lemma_value_entries(
    arena: Seq<Option<Term>>,
    st: State,
    entries: Seq<(Term, Term)>,
    at: int,
    start: State,
    depth: nat,
)
    requires
        0 <= at <= entries.len(),
        forall|i: int|
            0 <= i < entries.len() ==> is_value((#[trigger] entries[i]).0) && is_value(
                entries[i].1,
            ),
        st.cells == start.cells,
        st.args == start.args,
    ensures
        kept(
            eval_entries(arena, st, entries, at, entries.subrange(0, at), depth),
            Term::Mapping(entries),
            start,
        ),
    decreases depth, 1nat, entries.len() - at,
{
    if at < entries.len() {
        assert(is_value(entries[at].0) && is_value(entries[at].1));
        law_value_evaluates_to_itself(arena, st, entries[at].0, depth);
        if let (Ok(key), after_key) = eval(arena, st, entries[at].0, depth) {
            law_value_evaluates_to_itself(arena, after_key, entries[at].1, depth);
            if let (Ok(value), after) = eval(arena, after_key, entries[at].1, depth) {
                assert(entries.subrange(0, at).push((key, value)) =~= entries.subrange(
                    0,
                    at + 1,
                ));
                lemma_value_entries(arena, after, entries, at + 1, start, depth);
            }
        }
    } else {
        assert(entries.subrange(0, at) =~= entries);
    }
}

proof fn lemma_items_counted(
    arena: Seq<Option<Term>>,
    st: State,
    children: Seq<Term>,
    cyclic: bool,
    count: nat,
    at: int,
    so_far: Seq<Term>,
    depth: nat,
)
    requires
        0 <= at <= count,
        so_far.len() == at,
    ensures
        eval_items(arena, st, children, cyclic, count, at, so_far, depth).0 matches Ok(value)
            ==> value is List && value->List_0.len() == count,
    decreases count - at,
{
    if at < count {
        let here = positioned(st, at);
        let item = element(children, cyclic, at);
        if let (Ok(value), after) = eval(arena, here, item, depth) {
            lemma_items_counted(
                arena,
                after,
                children,
                cyclic,
                count,
                at + 1,
                so_far.push(value),
                depth,
            );
        }
    }
}

proof fn lemma_entries_counted(
    arena: Seq<Option<Term>>,
    st: State,
    entries: Seq<(Term, Term)>,
    at: int,
    so_far: Seq<(Term, Term)>,
    depth: nat,
)
    requires
        0 <= at <= entries.len(),
        so_far.len() == at,
    ensures
        eval_entries(arena, st, entries, at, so_far, depth).0 matches Ok(value)
            ==> value is Mapping && value->Mapping_0.len() == entries.len(),
    decreases entries.len() - at,
{
    if at < entries.len() {
        lemma_entries_step(arena, st, entries, at, so_far, depth);
        if let (Ok(entry), after) = eval_entry(arena, st, entries[at], depth) {
            lemma_entries_counted(arena, after, entries, at + 1, so_far.push(entry), depth);
        }
    }
}

/// A container evaluates to a container of the same size: a list to a
/// list with one value for each item, and a mapping to a mapping with one
/// entry for each entry.
pub proof fn law_containers_keep_their_size(
    arena: Seq<Option<Term>>,
    st: State,
    t: Term,
    depth: nat,
)
    ensures
        t matches Term::List(items) ==> (eval(arena, st, t, depth).0 matches Ok(value)
            ==> value is List && value->List_0.len() == items.len()),
        t matches Term::Mapping(entries) ==> (eval(arena, st, t, depth).0 matches Ok(value)
            ==> value is Mapping && value->Mapping_0.len() == entries.len()),
{
    if depth > 0 {
        match t {
            Term::List(items) => {
                lemma_items_counted(
                    arena,
                    st,
                    items,
                    false,
                    items.len(),
                    0,
                    Seq::empty(),
                    (depth - 1) as nat,
                );
            },
            Term::Mapping(entries) => {
                lemma_entries_counted(arena, st, entries, 0, Seq::empty(), (depth - 1) as nat);
            },
            _ => {},
        }
    }
}

/// The truth of a term in a frame is the truth of what the term is
/// rewritten to against the frame: reading the truth of a condition
/// directly and rewriting the condition first come to the same.
pub proof fn law_truth_of_the_resolved(arena: Seq<Option<Term>>, st: State, t: Term, depth: nat)
    ensures
        resolve_truth(arena, st, t, depth) == match resolve(arena, st, t, depth) {
            (Ok(resolved), after) => lifted(truth(arena, after.cells, resolved, depth), after),
            (Err(e), after) => (Err::<bool, BuilderError>(e), after),
        },
{
}

/// The state in which the element of a sequence at position `upto` is
/// evaluated, before the position register is set for it: the one that
/// evaluating the elements before it, from the first on, has left.
pub open spec fn state_before(
    arena: Seq<Option<Term>>,
    st: State,
    children: Seq<Term>,
    cyclic: bool,
    upto: int,
    depth: nat,
) -> State
    decreases upto,
{
    if upto <= 0 {
        st
    } else {
        eval(
            arena,
            positioned(state_before(arena, st, children, cyclic, upto - 1, depth), upto - 1),
            element(children, cyclic, upto - 1),
            depth,
        ).1
    }
}

proof fn lemma_items_in_order(
    arena: Seq<Option<Term>>,
    start: State,
    children: Seq<Term>,
    cyclic: bool,
    count: nat,
    at: int,
    so_far: Seq<Term>,
    depth: nat,
)
    requires
        0 <= at <= count,
        so_far.len() == at,
        eval_items(
            arena,
            state_before(arena, start, children, cyclic, at, depth),
            children,
            cyclic,
            count,
            at,
            so_far,
            depth,
        ).0 is Ok,
    ensures
        ({
            let out = eval_items(
                arena,
                state_before(arena, start, children, cyclic, at, depth),
                children,
                cyclic,
                count,
                at,
                so_far,
                depth,
            );
            let values = out.0->Ok_0->List_0;
            &&& out.0->Ok_0 is List
            &&& values.len() == count
            &&& out.1 == state_before(arena, start, children, cyclic, count as int, depth)
            &&& forall|j: int| 0 <= j < at ==> values[j] == so_far[j]
            &&& forall|j: int|
                at <= j < count ==> eval(
                    arena,
                    positioned(state_before(arena, start, children, cyclic, j, depth), j),
                    element(children, cyclic, j),
                    depth,
                ).0 == Ok::<Term, BuilderError>(#[trigger] values[j])
        }),
    decreases count - at,
{
    if at < count {
        let here = positioned(state_before(arena, start, children, cyclic, at, depth), at);
        let step = eval(arena, here, element(children, cyclic, at), depth);
        assert(step.1 == state_before(arena, start, children, cyclic, at + 1, depth));
        lemma_items_in_order(
            arena,
            start,
            children,
            cyclic,
            count,
            at + 1,
            so_far.push(step.0->Ok_0),
            depth,
        );
    }
}

/// The items of a list are evaluated in order and each is delivered once:
/// where a list evaluates, its value is a list with one value for each
/// item, and the value at each position is what the item at that position
/// evaluates to, with the position register at its position, in the state
/// that the items before it have left.
pub proof fn law_list_in_order(arena: Seq<Option<Term>>, st: State, items: Seq<Term>, depth: nat)
    requires
        depth > 0,
        eval(arena, st, Term::List(items), depth).0 is Ok,
    ensures
        ({
            let below = (depth - 1) as nat;
            let out = eval(arena, st, Term::List(items), depth);
            let values = out.0->Ok_0->List_0;
            &&& out.0->Ok_0 is List
            &&& values.len() == items.len()
            &&& out.1 == state_before(arena, st, items, false, items.len() as int, below)
            &&& forall|j: int|
                0 <= j < items.len() ==> eval(
                    arena,
                    positioned(state_before(arena, st, items, false, j, below), j),
                    items[j],
                    below,
                ).0 == Ok::<Term, BuilderError>(#[trigger] values[j])
        }),
{
    let below = (depth - 1) as nat;
    lemma_items_in_order(arena, st, items, false, items.len(), 0, Seq::empty(), below);
    let values = eval(arena, st, Term::List(items), depth).0->Ok_0->List_0;
    assert forall|j: int| 0 <= j < items.len() implies eval(
        arena,
        positioned(state_before(arena, st, items, false, j, below), j),
        items[j],
        below,
    ).0 == Ok::<Term, BuilderError>(#[trigger] values[j]) by {
        assert(element(items, false, j) == items[j]);
    }
}

/// Whether a step came to an end within the depth it was given: it ended
/// in a value or in an error other than `DepthExceeded`.
pub open spec fn within_depth<T>(out: Outcome<T>) -> bool {
    !(out.0 matches Err(e) && e is DepthExceeded)
}

/// The depth matters to the truth of a term only by running out: a
/// reading that came to an end is the same at every greater depth.
pub proof fn law_truth_deepens(
    arena: Seq<Option<Term>>,
    cells: Seq<Term>,
    t: Term,
    depth: nat,
    more: nat,
)
    requires
        truth(arena, cells, t, depth).0 is Some,
    ensures
        truth(arena, cells, t, depth + more) == truth(arena, cells, t, depth),
    decreases more,
{
    if more > 0 {
        law_truth_deepens(arena, cells, t, depth, (more - 1) as nat);
        lemma_truth_step(arena, cells, t, (depth + more - 1) as nat);
    }
}

proof fn lemma_truth_step(arena: Seq<Option<Term>>, cells: Seq<Term>, t: Term, depth: nat)
    requires
        truth(arena, cells, t, depth).0 is Some,
    ensures
        truth(arena, cells, t, depth + 1) == truth(arena, cells, t, depth),
    decreases depth,
{
    let below = (depth - 1) as nat;
    match t {
        Term::Reference(h) | Term::SelfReference(h) => {
            if alive(arena, h) {
                lemma_truth_step(arena, cells, arena[h as int]->0, below);
            }
        },
        Term::Store(c) => {
            if c < cells.len() {
                lemma_truth_step(arena, cells, cells[c as int], below);
            }
        },
        Term::Take(c) => {
            if c < cells.len() {
                lemma_truth_step(
                    arena,
                    cells.update(c as int, left(cells[c as int])),
                    taken(cells[c as int]),
                    below,
                );
            }
        },
        Term::Repeat(children) => {
            if children.len() > 0 {
                lemma_truth_step(arena, cells, children[0], below);
            }
        },
        Term::IfThenElse(children) => {
            if children.len() >= 3 {
                lemma_truth_step(arena, cells, children[0], below);
                if let (Some(condition), after) = truth(arena, cells, children[0], below) {
                    lemma_truth_step(
                        arena,
                        after,
                        if condition {
                            children[1]
                        } else {
                            children[2]
                        },
                        below,
                    );
                }
            }
        },
        _ => {},
    }
}

/// The depth matters to the numeric readings of a term only by running
/// out: the term that a reading ends at, and with it the reading as an
/// unsigned integer, as a signed integer and as the source of a double,
/// is the same at every greater depth once it came to an end.
pub proof fn law_leaf_deepens(
    arena: Seq<Option<Term>>,
    cells: Seq<Term>,
    t: Term,
    depth: nat,
    more: nat,
)
    requires
        leaf(arena, cells, t, depth).0 is Some,
    ensures
        leaf(arena, cells, t, depth + more) == leaf(arena, cells, t, depth),
        unsigned(arena, cells, t, depth + more) == unsigned(arena, cells, t, depth),
        signed(arena, cells, t, depth + more) == signed(arena, cells, t, depth),
        float_source(arena, cells, t, depth + more) == float_source(arena, cells, t, depth),
    decreases more,
{
    if more > 0 {
        law_leaf_deepens(arena, cells, t, depth, (more - 1) as nat);
        lemma_leaf_step(arena, cells, t, (depth + more - 1) as nat);
    }
}

proof fn lemma_leaf_step(arena: Seq<Option<Term>>, cells: Seq<Term>, t: Term, depth: nat)
    requires
        leaf(arena, cells, t, depth).0 is Some,
    ensures
        leaf(arena, cells, t, depth + 1) == leaf(arena, cells, t, depth),
    decreases depth,
{
    let below = (depth - 1) as nat;
    match t {
        Term::Reference(h) | Term::SelfReference(h) => {
            if alive(arena, h) {
                lemma_leaf_step(arena, cells, arena[h as int]->0, below);
            }
        },
        Term::Store(c) => {
            if c < cells.len() {
                lemma_leaf_step(arena, cells, cells[c as int], below);
            }
        },
        Term::Take(c) => {
            if c < cells.len() {
                lemma_leaf_step(
                    arena,
                    cells.update(c as int, left(cells[c as int])),
                    taken(cells[c as int]),
                    below,
                );
            }
        },
        Term::Repeat(children) => {
            if children.len() > 0 {
                lemma_leaf_step(arena, cells, children[0], below);
            }
        },
        _ => {},
    }
}

/// The depth matters to the rendering of a term only by running out: a
/// rendering that came to an end is the same at every greater depth.
pub proof fn law_text_deepens(
    arena: Seq<Option<Term>>,
    cells: Seq<Term>,
    t: Term,
    depth: nat,
    more: nat,
)
    requires
        text(arena, cells, t, depth).0 is Some,
    ensures
        text(arena, cells, t, depth + more) == text(arena, cells, t, depth),
    decreases more,
{
    if more > 0 {
        law_text_deepens(arena, cells, t, depth, (more - 1) as nat);
        lemma_text_step(arena, cells, t, (depth + more - 1) as nat);
    }
}

proof fn lemma_text_step(arena: Seq<Option<Term>>, cells: Seq<Term>, t: Term, depth: nat)
    requires
        text(arena, cells, t, depth).0 is Some,
    ensures
        text(arena, cells, t, depth + 1) == text(arena, cells, t, depth),
    decreases depth, 0nat, 0nat,
{
    let below = (depth - 1) as nat;
    match t {
        Term::Mapping(entries) => {
            lemma_text_entries_step(arena, cells, entries, 0, crate::coercion::no_text(), below);
        },
        Term::List(items) => {
            lemma_text_items_step(arena, cells, items, 0, crate::coercion::no_text(), below);
        },
        Term::Reference(h) | Term::SelfReference(h) => {
            if alive(arena, h) {
                lemma_text_step(arena, cells, arena[h as int]->0, below);
            }
        },
        Term::Store(c) => {
            if c < cells.len() {
                lemma_text_step(arena, cells, cells[c as int], below);
            }
        },
        Term::Take(c) => {
            if c < cells.len() {
                lemma_text_step(
                    arena,
                    cells.update(c as int, left(cells[c as int])),
                    taken(cells[c as int]),
                    below,
                );
            }
        },
        _ => {},
    }
}

proof fn lemma_text_items_step(
    arena: Seq<Option<Term>>,
    cells: Seq<Term>,
    items: Seq<Term>,
    from: int,
    so_far: Seq<Term>,
    depth: nat,
)
    requires
        text_items(arena, cells, items, from, so_far, depth).0 is Some,
    ensures
        text_items(arena, cells, items, from, so_far, depth + 1) == text_items(
            arena,
            cells,
            items,
            from,
            so_far,
            depth,
        ),
    decreases depth, 1nat, items.len() - from,
{
    if 0 <= from < items.len() {
        lemma_text_step(arena, cells, items[from], depth);
        if let (Some(item), after) = text(arena, cells, items[from], depth) {
            lemma_text_items_step(
                arena,
                after,
                items,
                from + 1,
                join_item(so_far, item),
                depth,
            );
        }
    }
}

proof fn lemma_text_entries_step(
    arena: Seq<Option<Term>>,
    cells: Seq<Term>,
    entries: Seq<(Term, Term)>,
    from: int,
    so_far: Seq<Term>,
    depth: nat,
)
    requires
        text_entries(arena, cells, entries, from, so_far, depth).0 is Some,
    ensures
        text_entries(arena, cells, entries, from, so_far, depth + 1) == text_entries(
            arena,
            cells,
            entries,
            from,
            so_far,
            depth,
        ),
    decreases depth, 1nat, entries.len() - from,
{
    if 0 <= from < entries.len() {
        lemma_text_step(arena, cells, entries[from].0, depth);
        if let (Some(key), after_key) = text(arena, cells, entries[from].0, depth) {
            if blank(key) {
                lemma_text_entries_step(arena, after_key, entries, from + 1, so_far, depth);
            } else {
                lemma_text_step(arena, after_key, entries[from].1, depth);
                if let (Some(value), after) = text(arena, after_key, entries[from].1, depth) {
                    lemma_text_entries_step(
                        arena,
                        after,
                        entries,
                        from + 1,
                        if blank(value) {
                            so_far
                        } else {
                            join_entry(so_far, key, value)
                        },
                        depth,
                    );
                }
            }
        }
    }
}

proof fn lemma_resolve_truth_step(arena: Seq<Option<Term>>, st: State, t: Term, depth: nat)
    requires
        within_depth(resolve_truth(arena, st, t, depth)),
    ensures
        resolve_truth(arena, st, t, depth + 1) == resolve_truth(arena, st, t, depth),
    decreases depth, 1nat,
{
    match t {
        Term::Argument(a) => {
            if a < st.args.len() {
                lemma_truth_step(arena, st.cells, st.args[a as int], depth);
            }
        },
        Term::TakeFromArgument(a) => {
            if a < st.args.len() {
                lemma_truth_step(arena, st.cells, taken(st.args[a as int]), depth);
            }
        },
        Term::IfThenElse(children) => {
            lemma_select_step(arena, st, children, depth);
            if let (Ok(branch), after) = select(arena, st, children, depth) {
                lemma_truth_step(arena, after.cells, branch, depth);
            }
        },
        _ => {
            lemma_truth_step(arena, st.cells, t, depth);
        },
    }
}

proof fn lemma_select_step(arena: Seq<Option<Term>>, st: State, children: Seq<Term>, depth: nat)
    requires
        within_depth(select(arena, st, children, depth)),
    ensures
        select(arena, st, children, depth + 1) == select(arena, st, children, depth),
    decreases depth, 0nat,
{
    if children.len() >= 3 {
        lemma_resolve_truth_step(arena, st, children[0], (depth - 1) as nat);
    }
}

proof fn lemma_resolve_step(arena: Seq<Option<Term>>, st: State, t: Term, depth: nat)
    requires
        within_depth(resolve(arena, st, t, depth)),
    ensures
        resolve(arena, st, t, depth + 1) == resolve(arena, st, t, depth),
{
    if let Term::IfThenElse(children) = t {
        lemma_select_step(arena, st, children, depth);
    }
}

proof fn lemma_resolve_all_step(
    arena: Seq<Option<Term>>,
    st: State,
    children: Seq<Term>,
    from: int,
    so_far: Seq<Term>,
    depth: nat,
)
    requires
        within_depth(resolve_all(arena, st, children, from, so_far, depth)),
    ensures
        resolve_all(arena, st, children, from, so_far, depth + 1) == resolve_all(
            arena,
            st,
            children,
            from,
            so_far,
            depth,
        ),
    decreases children.len() - from,
{
    if 0 <= from < children.len() {
        lemma_resolve_step(arena, st, children[from], depth);
        if let (Ok(slot), after) = resolve(arena, st, children[from], depth) {
            lemma_resolve_all_step(arena, after, children, from + 1, so_far.push(slot), depth);
        }
    }
}

proof fn lemma_eval_step(arena: Seq<Option<Term>>, st: State, t: Term, depth: nat)
    requires
        within_depth(eval(arena, st, t, depth)),
    ensures
        eval(arena, st, t, depth + 1) == eval(arena, st, t, depth),
    decreases depth, 0nat, 0nat,
{
    let below = (depth - 1) as nat;
    match t {
        Term::Mapping(entries) => {
            lemma_entries_eval_step(arena, st, entries, 0, Seq::empty(), below);
        },
        Term::List(items) => {
            lemma_items_eval_step(arena, st, items, false, items.len(), 0, Seq::empty(), below);
        },
        Term::Repeat(children) => {
            if children.len() > 0 {
                lemma_leaf_step(arena, st.cells, children[0], below);
                if let (Ok(times), after) = lifted(
                    unsigned(arena, st.cells, children[0], below),
                    st,
                ) {
                    lemma_items_eval_step(
                        arena,
                        after,
                        children,
                        true,
                        if children.len() > 1 {
                            times as usize as nat
                        } else {
                            0
                        },
                        0,
                        Seq::empty(),
                        below,
                    );
                }
            }
        },
        Term::Closure(children) => {
            if children.len() > 0 {
                lemma_resolve_all_step(arena, st, children, 0, Seq::empty(), below);
                if let (Ok(slots), after) = resolve_all(
                    arena,
                    st,
                    children,
                    0,
                    Seq::empty(),
                    below,
                ) {
                    let inner = State { cells: after.cells, args: slots, index: after.index };
                    lemma_eval_step(arena, inner, children[0], below);
                }
            }
        },
        Term::Argument(a) => {
            if a < st.args.len() {
                lemma_eval_step(arena, st, st.args[a as int], below);
            }
        },
        Term::TakeFromArgument(a) => {
            if a < st.args.len() {
                lemma_eval_step(arena, slot_taken(st, a), taken(st.args[a as int]), below);
            }
        },
        Term::PopArgument => {
            if st.args.len() > 0 {
                lemma_eval_step(
                    arena,
                    State { cells: st.cells, args: st.args.drop_last(), index: st.index },
                    st.args.last(),
                    below,
                );
            }
        },
        Term::Reference(h) | Term::SelfReference(h) => {
            if alive(arena, h) {
                lemma_eval_step(arena, st, arena[h as int]->0, below);
            }
        },
        Term::Store(c) => {
            if c < st.cells.len() {
                lemma_eval_step(arena, st, st.cells[c as int], below);
            }
        },
        Term::Take(c) => {
            if c < st.cells.len() {
                lemma_eval_step(arena, cell_taken(st, c), taken(st.cells[c as int]), below);
            }
        },
        Term::IfThenElse(children) => {
            lemma_select_step(arena, st, children, depth);
            if let (Ok(branch), after) = select(arena, st, children, depth) {
                lemma_eval_step(arena, after, branch, below);
            }
        },
        _ => {},
    }
}

proof fn lemma_items_eval_step(
    arena: Seq<Option<Term>>,
    st: State,
    children: Seq<Term>,
    cyclic: bool,
    count: nat,
    at: int,
    so_far: Seq<Term>,
    depth: nat,
)
    requires
        within_depth(eval_items(arena, st, children, cyclic, count, at, so_far, depth)),
    ensures
        eval_items(arena, st, children, cyclic, count, at, so_far, depth + 1) == eval_items(
            arena,
            st,
            children,
            cyclic,
            count,
            at,
            so_far,
            depth,
        ),
    decreases depth, 1nat, count - at,
{
    if 0 <= at < count {
        let here = positioned(st, at);
        let item = element(children, cyclic, at);
        lemma_eval_step(arena, here, item, depth);
        if let (Ok(value), after) = eval(arena, here, item, depth) {
            lemma_items_eval_step(
                arena,
                after,
                children,
                cyclic,
                count,
                at + 1,
                so_far.push(value),
                depth,
            );
        }
    }
}

proof fn lemma_entries_eval_step(
    arena: Seq<Option<Term>>,
    st: State,
    entries: Seq<(Term, Term)>,
    at: int,
    so_far: Seq<(Term, Term)>,
    depth: nat,
)
    requires
        within_depth(eval_entries(arena, st, entries, at, so_far, depth)),
    ensures
        eval_entries(arena, st, entries, at, so_far, depth + 1) == eval_entries(
            arena,
            st,
            entries,
            at,
            so_far,
            depth,
        ),
    decreases depth, 1nat, entries.len() - at,
{
    if 0 <= at < entries.len() {
        lemma_eval_step(arena, st, entries[at].0, depth);
        if let (Ok(key), after_key) = eval(arena, st, entries[at].0, depth) {
            lemma_eval_step(arena, after_key, entries[at].1, depth);
            if let (Ok(value), after) = eval(arena, after_key, entries[at].1, depth) {
                lemma_entries_eval_step(
                    arena,
                    after,
                    entries,
                    at + 1,
                    so_far.push((key, value)),
                    depth,
                );
            }
        }
    }
}

/// The depth matters to an evaluation only by running out: an evaluation
/// that ended in a value, or in an error other than `DepthExceeded`, ends
/// in the same and leaves the same state at every greater depth.
pub proof fn law_depth_only_runs_out(
    arena: Seq<Option<Term>>,
    st: State,
    t: Term,
    depth: nat,
    more: nat,
)
    requires
        within_depth(eval(arena, st, t, depth)),
    ensures
        eval(arena, st, t, depth + more) == eval(arena, st, t, depth),
    decreases more,
{
    if more > 0 {
        law_depth_only_runs_out(arena, st, t, depth, (more - 1) as nat);
        lemma_eval_step(arena, st, t, (depth + more - 1) as nat);
    }
}

/// The depth matters to rewriting a term against a frame, to the truth of
/// a term in a frame and to a conditional only by running out.
pub proof fn law_frame_steps_deepen(
    arena: Seq<Option<Term>>,
    st: State,
    t: Term,
    depth: nat,
    more: nat,
)
    ensures
        within_depth(resolve(arena, st, t, depth)) ==> resolve(arena, st, t, depth + more)
            == resolve(arena, st, t, depth),
        within_depth(resolve_truth(arena, st, t, depth)) ==> resolve_truth(
            arena,
            st,
            t,
            depth + more,
        ) == resolve_truth(arena, st, t, depth),
        t matches Term::IfThenElse(children) ==> within_depth(
            select(arena, st, children, depth),
        ) ==> select(arena, st, children, depth + more) == select(arena, st, children, depth),
    decreases more,
{
    if more > 0 {
        let last = (depth + more - 1) as nat;
        law_frame_steps_deepen(arena, st, t, depth, (more - 1) as nat);
        if within_depth(resolve(arena, st, t, depth)) {
            lemma_resolve_step(arena, st, t, last);
        }
        if within_depth(resolve_truth(arena, st, t, depth)) {
            lemma_resolve_truth_step(arena, st, t, last);
        }
        if let Term::IfThenElse(children) = t {
            if within_depth(select(arena, st, children, depth)) {
                lemma_select_step(arena, st, children, last);
            }
        }
    }
}

/// Whether `b` is `a` with chains of references put in line: the two are
/// the same term, or `a` is a reference to a shared subterm of which `b`
/// is such a copy, or they are lists or mappings of the same size whose
/// items, keys and values are such copies of each other in turn. A chain
/// may be at any place in the tree of lists and mappings and have up to
/// `hops` links.
pub open spec fn inlines(arena: Seq<Option<Term>>, a: Term, b: Term, hops: nat) -> bool
    decreases hops, a,
{
    a == b || match a {
        Term::Reference(h) => hops > 0 && alive(arena, h) && inlines(
            arena,
            arena[h as int]->0,
            b,
            (hops - 1) as nat,
        ),
        Term::List(items) => b matches Term::List(others) && items.len() == others.len()
            && forall|i: int|
            0 <= i < items.len() ==> inlines(arena, #[trigger] items[i], others[i], hops),
        Term::Mapping(entries) => b matches Term::Mapping(others) && entries.len()
            == others.len() && forall|i: int|
            0 <= i < entries.len() ==> inlines(
                arena,
                (#[trigger] entries[i]).0,
                others[i].0,
                hops,
            ) && inlines(arena, entries[i].1, others[i].1, hops),
        _ => false,
    }
}

/// A tree with chains of references reaching lists and mappings evaluates
/// to what the tree with the chains put in line evaluates to, and leaves
/// the same state, wherever in the tree the chains are and at the same
/// depth: putting a chain in line only saves the steps through it.
pub proof fn law_references_inline(
    arena: Seq<Option<Term>>,
    st: State,
    a: Term,
    b: Term,
    hops: nat,
    depth: nat,
)
    requires
        inlines(arena, a, b, hops),
        within_depth(eval(arena, st, a, depth)),
    ensures
        eval(arena, st, b, depth) == eval(arena, st, a, depth),
    decreases hops, a, 1nat, 0nat,
{
    if a != b {
        let below = (depth - 1) as nat;
        match a {
            Term::Reference(h) => {
                law_references_inline(arena, st, arena[h as int]->0, b, (hops - 1) as nat, below);
                law_depth_only_runs_out(arena, st, b, below, 1);
            },
            Term::List(items) => {
                let others = b->List_0;
                lemma_items_inline(arena, st, a, others, 0, Seq::empty(), hops, below);
            },
            Term::Mapping(entries) => {
                let others = b->Mapping_0;
                lemma_entries_inline(arena, st, a, others, 0, Seq::empty(), hops, below);
            },
            _ => {},
        }
    }
}

proof fn lemma_items_inline(
    arena: Seq<Option<Term>>,
    st: State,
    a: Term,
    others: Seq<Term>,
    at: int,
    so_far: Seq<Term>,
    hops: nat,
    depth: nat,
)
    requires
        a is List,
        0 <= at,
        a->List_0.len() == others.len(),
        forall|i: int|
            0 <= i < others.len() ==> inlines(arena, #[trigger] a->List_0[i], others[i], hops),
        within_depth(
            eval_items(arena, st, a->List_0, false, others.len(), at, so_far, depth),
        ),
    ensures
        eval_items(arena, st, others, false, others.len(), at, so_far, depth) == eval_items(
            arena,
            st,
            a->List_0,
            false,
            others.len(),
            at,
            so_far,
            depth,
        ),
    decreases hops, a, 0nat, others.len() - at,
{
    let items = a->List_0;
    if at < others.len() {
        let here = positioned(st, at);
        assert(element(items, false, at) == items[at]);
        assert(element(others, false, at) == others[at]);
        assert(inlines(arena, items[at], others[at], hops));
        law_references_inline(arena, here, items[at], others[at], hops, depth);
        if let (Ok(value), after) = eval(arena, here, items[at], depth) {
            lemma_items_inline(arena, after, a, others, at + 1, so_far.push(value), hops, depth);
        }
    }
}

proof fn lemma_entries_inline(
    arena: Seq<Option<Term>>,
    st: State,
    a: Term,
    others: Seq<(Term, Term)>,
    at: int,
    so_far: Seq<(Term, Term)>,
    hops: nat,
    depth: nat,
)
    requires
        a is Mapping,
        0 <= at,
        a->Mapping_0.len() == others.len(),
        forall|i: int|
            0 <= i < others.len() ==> inlines(
                arena,
                (#[trigger] a->Mapping_0[i]).0,
                others[i].0,
                hops,
            ) && inlines(arena, a->Mapping_0[i].1, others[i].1, hops),
        within_depth(eval_entries(arena, st, a->Mapping_0, at, so_far, depth)),
    ensures
        eval_entries(arena, st, others, at, so_far, depth) == eval_entries(
            arena,
            st,
            a->Mapping_0,
            at,
            so_far,
            depth,
        ),
    decreases hops, a, 0nat, others.len() - at,
{
    let entries = a->Mapping_0;
    if at < others.len() {
        assert(inlines(arena, entries[at].0, others[at].0, hops) && inlines(
            arena,
            entries[at].1,
            others[at].1,
            hops,
        ));
        law_references_inline(arena, st, entries[at].0, others[at].0, hops, depth);
        if let (Ok(key), after_key) = eval(arena, st, entries[at].0, depth) {
            law_references_inline(arena, after_key, entries[at].1, others[at].1, hops, depth);
            if let (Ok(value), after) = eval(arena, after_key, entries[at].1, depth) {
                lemma_entries_inline(
                    arena,
                    after,
                    a,
                    others,
                    at + 1,
                    so_far.push((key, value)),
                    hops,
                    depth,
                );
            }
        }
    }
}

/// Whether a term comes to the same value in every state, given at least
/// `need` units of depth, and leaves the cells and the arguments as they
/// were: a term that takes from no cell and from no argument.
pub open spec fn settles(arena: Seq<Option<Term>>, t: Term, value: Term, need: nat) -> bool {
    forall|st: State, depth: nat|
        depth >= need ==> {
            let out = #[trigger] eval(arena, st, t, depth);
            &&& out.0 == Ok::<Term, BuilderError>(value)
            &&& out.1.cells == st.cells
            &&& out.1.args == st.args
        }
}

/// A tree that nests in itself for as long as a cell counts down: a list
/// of an item and of a conditional that consumes the cell and, while the
/// cell reads true, is a mapping of a key to what the handle of the tree's
/// own slot stands for, and after that the empty mapping.
pub open spec fn countdown_tree(item: Term, key: Term, own: usize, cell: usize) -> Term {
    Term::List(
        seq![
            item,
            Term::IfThenElse(
                seq![
                    Term::Take(cell),
                    Term::Mapping(seq![(key, Term::SelfReference(own))]),
                    Term::Mapping(Seq::empty()),
                ],
            ),
        ],
    )
}

/// The value of a tree that has nested in itself `levels` times.
pub open spec fn unfolded(item: Term, key: Term, levels: nat) -> Term
    decreases levels,
{
    if levels == 0 {
        Term::List(seq![item, Term::Mapping(Seq::empty())])
    } else {
        Term::List(
            seq![item, Term::Mapping(seq![(key, unfolded(item, key, (levels - 1) as nat))])],
        )
    }
}

/// A cyclic tree whose self-reference is bounded by a `Take` over
/// `Unsigned(k)` unfolds exactly `k` times: it evaluates to the value that
/// is nested `k` levels deep, reads the cell once at each level and once
/// more to stop, and leaves the cell at zero. Each level takes four units
/// of depth, beside what the item and the key need.
pub proof fn law_bounded_cyclic_tree(
    arena: Seq<Option<Term>>,
    st: State,
    item: Term,
    key: Term,
    item_value: Term,
    key_value: Term,
    need: nat,
    own: usize,
    cell: usize,
    k: nat,
    depth: nat,
)
    requires
        alive(arena, own),
        arena[own as int] == Some(countdown_tree(item, key, own, cell)),
        settles(arena, item, item_value, need),
        settles(arena, key, key_value, need),
        cell < st.cells.len(),
        k <= u64::MAX,
        st.cells[cell as int] == Term::Unsigned(k as u64),
        depth >= 4 * k + 3 + need,
    ensures
        ({
            let out = eval(arena, st, countdown_tree(item, key, own, cell), depth);
            &&& out.0 == Ok::<Term, BuilderError>(unfolded(item_value, key_value, k))
            &&& out.1.cells == st.cells.update(cell as int, Term::Unsigned(0))
            &&& out.1.args == st.args
        }),
    decreases k,
{
    let tree = countdown_tree(item, key, own, cell);
    let items = tree->List_0;
    let children = items[1]->IfThenElse_0;
    let d1 = (depth - 1) as nat;
    let d2 = (depth - 2) as nat;
    let d3 = (depth - 3) as nat;
    let none = Seq::<Term>::empty();
    // The item, at position zero.
    let here0 = positioned(st, 0);
    assert(element(items, false, 0) == item);
    let first = eval(arena, here0, item, d1);
    assert(first.0 == Ok::<Term, BuilderError>(item_value));
    let s1 = first.1;
    // The conditional, at position one: the cell is read and consumed.
    let here1 = positioned(s1, 1);
    assert(element(items, false, 1) == items[1]);
    let read = truth(arena, here1.cells, Term::Take(cell), d2);
    let consumed = here1.cells.update(cell as int, left(here1.cells[cell as int]));
    assert(read == truth(arena, consumed, Term::Unsigned(k as u64), (depth - 3) as nat));
    assert(read == (Some(k != 0), consumed));
    assert(resolve_truth(arena, here1, children[0], d2) == lifted(read, here1));
    let after = State { cells: consumed, args: here1.args, index: here1.index };
    assert(select(arena, here1, children, d1) == (
        Ok::<Term, BuilderError>(
            if k != 0 {
                children[1]
            } else {
                children[2]
            },
        ),
        after,
    ));
    let collected = none.push(item_value);
    if k == 0 {
        let empty = Seq::<(Term, Term)>::empty();
        assert(eval_entries(arena, after, empty, 0, empty, d3) == (
            Ok::<Term, BuilderError>(Term::Mapping(empty)),
            after,
        ));
        assert(eval(arena, after, children[2], d2) == (
            Ok::<Term, BuilderError>(Term::Mapping(empty)),
            after,
        ));
        assert(eval(arena, here1, items[1], d1) == (
            Ok::<Term, BuilderError>(Term::Mapping(empty)),
            after,
        ));
        let all = collected.push(Term::Mapping(empty));
        assert(all =~= seq![item_value, Term::Mapping(empty)]);
        assert(eval_items(arena, after, items, false, 2, 2, all, d1) == (
            Ok::<Term, BuilderError>(Term::List(all)),
            after,
        ));
        assert(eval_items(arena, s1, items, false, 2, 1, collected, d1) == (
            Ok::<Term, BuilderError>(Term::List(all)),
            after,
        ));
        assert(eval_items(arena, st, items, false, 2, 0, none, d1) == (
            Ok::<Term, BuilderError>(Term::List(all)),
            after,
        ));
        assert(consumed =~= st.cells.update(cell as int, Term::Unsigned(0)));
    } else {
        let entries = children[1]->Mapping_0;
        let no_entries = Seq::<(Term, Term)>::empty();
        // The key, and then the tree itself one level down.
        let keyed = eval(arena, after, key, d3);
        assert(keyed.0 == Ok::<Term, BuilderError>(key_value));
        let s2 = keyed.1;
        assert(s2.cells[cell as int] == Term::Unsigned((k - 1) as u64));
        law_bounded_cyclic_tree(
            arena,
            s2,
            item,
            key,
            item_value,
            key_value,
            need,
            own,
            cell,
            (k - 1) as nat,
            (depth - 4) as nat,
        );
        let inner = eval(arena, s2, tree, (depth - 4) as nat);
        let below = unfolded(item_value, key_value, (k - 1) as nat);
        assert(eval(arena, s2, Term::SelfReference(own), d3) == inner);
        let s3 = inner.1;
        let one = no_entries.push((key_value, below));
        assert(one =~= seq![(key_value, below)]);
        assert(eval_entries(arena, s3, entries, 1, one, d3) == (
            Ok::<Term, BuilderError>(Term::Mapping(one)),
            s3,
        ));
        assert(eval_entries(arena, after, entries, 0, no_entries, d3) == (
            Ok::<Term, BuilderError>(Term::Mapping(one)),
            s3,
        ));
        assert(eval(arena, after, children[1], d2) == (
            Ok::<Term, BuilderError>(Term::Mapping(one)),
            s3,
        ));
        assert(eval(arena, here1, items[1], d1) == (
            Ok::<Term, BuilderError>(Term::Mapping(one)),
            s3,
        ));
        let all = collected.push(Term::Mapping(one));
        assert(all =~= seq![item_value, Term::Mapping(one)]);
        assert(eval_items(arena, s3, items, false, 2, 2, all, d1) == (
            Ok::<Term, BuilderError>(Term::List(all)),
            s3,
        ));
        assert(eval_items(arena, s1, items, false, 2, 1, collected, d1) == (
            Ok::<Term, BuilderError>(Term::List(all)),
            s3,
        ));
        assert(eval_items(arena, st, items, false, 2, 0, none, d1) == (
            Ok::<Term, BuilderError>(Term::List(all)),
            s3,
        ));
        assert(s3.cells =~= st.cells.update(cell as int, Term::Unsigned(0)));
    }
}

/// Whether a term is a value whose leaves are at most `height` containers
/// deep.
pub open spec fn value_within(t: Term, height: nat) -> bool
    decreases t,
{
    match t {
        Term::Boolean(_) | Term::Integer(_) | Term::Unsigned(_) | Term::Number(_) | Term::String(
            _,
            _,
        ) => true,
        Term::List(items) => height > 0 && forall|i: int|
            0 <= i < items.len() ==> value_within(#[trigger] items[i], (height - 1) as nat),
        Term::Mapping(entries) => height > 0 && forall|i: int|
            0 <= i < entries.len() ==> value_within(
                (#[trigger] entries[i]).0,
                (height - 1) as nat,
            ) && value_within(entries[i].1, (height - 1) as nat),
        _ => false,
    }
}

/// Whether an evaluation delivered the term itself and left the cells and
/// the arguments as they were.
pub open spec fn unchanged(out: Outcome<Term>, t: Term, st: State) -> bool {
    &&& out.0 == Ok::<Term, BuilderError>(t)
    &&& out.1.cells == st.cells
    &&& out.1.args == st.args
}

/// A value evaluates to itself at every depth that reaches to its leaves,
/// in every state: trees of scalars, text, lists and mappings round-trip.
pub proof fn law_value_round_trip(
    arena: Seq<Option<Term>>,
    st: State,
    t: Term,
    height: nat,
    depth: nat,
)
    requires
        value_within(t, height),
        depth >= height,
    ensures
        unchanged(eval(arena, st, t, depth), t, st),
    decreases t, 1nat, 0nat,
{
    match t {
        Term::List(items) => {
            assert(items.subrange(0, 0) =~= Seq::empty());
            lemma_round_trip_items(arena, st, t, 0, st, height, (depth - 1) as nat);
        },
        Term::Mapping(entries) => {
            assert(entries.subrange(0, 0) =~= Seq::empty());
            lemma_round_trip_entries(arena, st, t, 0, st, height, (depth - 1) as nat);
        },
        _ => {},
    }
}

proof fn lemma_round_trip_items(
    arena: Seq<Option<Term>>,
    st: State,
    t: Term,
    at: int,
    start: State,
    height: nat,
    depth: nat,
)
    requires
        t is List,
        value_within(t, height),
        depth + 1 >= height,
        0 <= at <= t->List_0.len(),
        st.cells == start.cells,
        st.args == start.args,
    ensures
        unchanged(
            eval_items(
                arena,
                st,
                t->List_0,
                false,
                t->List_0.len(),
                at,
                t->List_0.subrange(0, at),
                depth,
            ),
            t,
            start,
        ),
    decreases t, 0nat, t->List_0.len() - at,
{
    let items = t->List_0;
    if at < items.len() {
        let here = positioned(st, at);
        assert(element(items, false, at) == items[at]);
        assert(value_within(items[at], (height - 1) as nat));
        law_value_round_trip(arena, here, items[at], (height - 1) as nat, depth);
        let after = eval(arena, here, items[at], depth).1;
        assert(items.subrange(0, at).push(items[at]) =~= items.subrange(0, at + 1));
        lemma_round_trip_items(arena, after, t, at + 1, start, height, depth);
    } else {
        assert(items.subrange(0, at) =~= items);
    }
}

proof fn lemma_round_trip_entries(
    arena: Seq<Option<Term>>,
    st: State,
    t: Term,
    at: int,
    start: State,
    height: nat,
    depth: nat,
)
    requires
        t is Mapping,
        value_within(t, height),
        depth + 1 >= height,
        0 <= at <= t->Mapping_0.len(),
        st.cells == start.cells,
        st.args == start.args,
    ensures
        unchanged(
            eval_entries(arena, st, t->Mapping_0, at, t->Mapping_0.subrange(0, at), depth),
            t,
            start,
        ),
    decreases t, 0nat, t->Mapping_0.len() - at,
{
    let entries = t->Mapping_0;
    if at < entries.len() {
        assert(value_within(entries[at].0, (height - 1) as nat) && value_within(
            entries[at].1,
            (height - 1) as nat,
        ));
        law_value_round_trip(arena, st, entries[at].0, (height - 1) as nat, depth);
        let after_key = eval(arena, st, entries[at].0, depth).1;
        law_value_round_trip(arena, after_key, entries[at].1, (height - 1) as nat, depth);
        let after = eval(arena, after_key, entries[at].1, depth).1;
        assert(entries.subrange(0, at).push((entries[at].0, entries[at].1)) =~= entries.subrange(
            0,
            at + 1,
        ));
        lemma_round_trip_entries(arena, after, t, at + 1, start, height, depth);
    } else {
        assert(entries.subrange(0, at) =~= entries);
    }
}

/// A value settles on itself, given the depth that reaches to its leaves.
pub proof fn law_values_settle(arena: Seq<Option<Term>>, t: Term, height: nat)
    requires
        value_within(t, height),
    ensures
        settles(arena, t, t, height),
{
    assert forall|st: State, depth: nat| depth >= height implies unchanged(
        #[trigger] eval(arena, st, t, depth),
        t,
        st,
    ) by {
        law_value_round_trip(arena, st, t, height, depth);
    }
}

/// What `from_data` and `from_ref` deliver is the outcome of the
/// evaluation at every depth at which it comes to an end.
pub proof fn law_value_is_the_outcome(
    arena: Seq<Option<Term>>,
    cells: Seq<Term>,
    t: Term,
    depth: nat,
)
    requires
        depth <= usize::MAX,
        within_depth(eval(arena, crate::fresh(cells), t, depth)),
    ensures
        crate::value(arena, cells, t) == eval(arena, crate::fresh(cells), t, depth),
{
    law_depth_only_runs_out(arena, crate::fresh(cells), t, depth, (usize::MAX - depth) as nat);
}

/// `from_data` and `from_ref` return every scalar as it is, every list
/// of scalars as exactly those scalars, in order, and every mapping of
/// scalars to scalars as exactly those entries, in insertion order.
pub proof fn law_scalars_and_containers_of_scalars_round_trip(
    arena: Seq<Option<Term>>,
    cells: Seq<Term>,
    t: Term,
)
    requires
        is_scalar(t) || (t matches Term::List(items) && forall|i: int|
            0 <= i < items.len() ==> is_scalar(#[trigger] items[i])) || (t matches Term::Mapping(
            entries,
        ) && forall|i: int|
            0 <= i < entries.len() ==> is_scalar((#[trigger] entries[i]).0) && is_scalar(
                entries[i].1,
            )),
    ensures
        crate::value(arena, cells, t).0 == Ok::<Term, BuilderError>(t),
        crate::value(arena, cells, t).1.cells == cells,
{
    match t {
        Term::List(items) => {
            law_list_of_scalars(arena, crate::fresh(cells), items, usize::MAX as nat);
        },
        Term::Mapping(entries) => {
            law_mapping_of_scalars(arena, crate::fresh(cells), entries, usize::MAX as nat);
        },
        _ => {},
    }
}

} // verus!
