use crate::coercion::{truth, unsigned};
use crate::datatype::{left, taken, BuilderDataType, Term};
use crate::errors::BuilderError;
use crate::heap::alive;
use vstd::prelude::*;

verus! {

/// What an evaluation reads and changes: the mutable cells, the argument
/// stack of the frame it runs in, and the position of the element under
/// evaluation in its sequence. The arena of shared subterms is no part of
/// it, since no evaluation changes it.
pub struct State {
    pub cells: Seq<Term>,
    pub args: Seq<Term>,
    pub index: usize,
}

/// What an evaluation step results in, and the state it leaves.
pub type Outcome<T> = (Result<T, BuilderError>, State);

/// Whether what a function hands back is what was to be delivered: the
/// node with that value, or that error.
pub open spec fn yields<'de>(
    got: Result<BuilderDataType<'de>, BuilderError>,
    due: Result<Term, BuilderError>,
) -> bool {
    match (got, due) {
        (Ok(node), Ok(value)) => node@ == value,
        (Err(e), Err(x)) => e == x,
        _ => false,
    }
}

/// The outcome of a step that ends in a reading of the coercion kernel:
/// a reading that ran out of depth is an error.
pub open spec fn lifted<T>(reading: (Option<T>, Seq<Term>), st: State) -> Outcome<T> {
    let after = State { cells: reading.1, args: st.args, index: st.index };
    match reading.0 {
        Some(value) => (Ok(value), after),
        None => (Err(BuilderError::DepthExceeded), after),
    }
}

/// The state with one argument slot consumed by a step.
pub open spec fn slot_taken(st: State, slot: usize) -> State {
    State {
        cells: st.cells,
        args: st.args.update(slot as int, left(st.args[slot as int])),
        index: st.index,
    }
}

/// The state with one cell consumed by a step.
pub open spec fn cell_taken(st: State, cell: usize) -> State {
    State {
        cells: st.cells.update(cell as int, left(st.cells[cell as int])),
        args: st.args,
        index: st.index,
    }
}

/// The truth of a term that may depend on the frame. An `Argument` reads
/// its slot, a `TakeFromArgument` what it takes from its slot, and a
/// conditional the branch that it selects; any other term reads as the
/// coercion kernel reads it.
pub open spec fn resolve_truth(arena: Seq<Option<Term>>, st: State, t: Term, depth: nat) -> Outcome<
    bool,
>
    decreases depth, 1nat,
{
    match t {
        Term::Argument(a) => if a < st.args.len() {
            lifted(truth(arena, st.cells, st.args[a as int], depth), st)
        } else {
            (Err(BuilderError::InvalidFunctionArgument), st)
        },
        Term::TakeFromArgument(a) => if a < st.args.len() {
            lifted(
                truth(arena, st.cells, taken(st.args[a as int]), depth),
                slot_taken(st, a),
            )
        } else {
            (Err(BuilderError::InvalidFunctionArgument), st)
        },
        Term::IfThenElse(children) => match select(arena, st, children, depth) {
            (Ok(branch), after) => lifted(truth(arena, after.cells, branch, depth), after),
            (Err(e), after) => (Err(e), after),
        },
        _ => lifted(truth(arena, st.cells, t, depth), st),
    }
}

/// The conditional: the second child where the first is true in the frame
/// and the third where it is false. Fewer than three children are an
/// error. Reading the condition takes one unit of `depth`.
pub open spec fn select(arena: Seq<Option<Term>>, st: State, children: Seq<Term>, depth: nat)
    -> Outcome<Term>
    decreases depth, 0nat,
{
    if children.len() < 3 {
        (Err(BuilderError::InvalidFunctionArgument), st)
    } else if depth == 0 {
        (Err(BuilderError::DepthExceeded), st)
    } else {
        match resolve_truth(arena, st, children[0], (depth - 1) as nat) {
            (Ok(condition), after) => (
                Ok(
                    if condition {
                        children[1]
                    } else {
                        children[2]
                    },
                ),
                after,
            ),
            (Err(e), after) => (Err(e), after),
        }
    }
}

/// A term rewritten against the frame: an `Argument` becomes a copy of its
/// slot, a `TakeFromArgument` what it takes from its slot, a conditional
/// the branch that it selects, and any other term stays as it is.
pub open spec fn resolve(arena: Seq<Option<Term>>, st: State, t: Term, depth: nat) -> Outcome<Term> {
    match t {
        Term::Argument(a) => if a < st.args.len() {
            (Ok(st.args[a as int]), st)
        } else {
            (Err(BuilderError::InvalidFunctionArgument), st)
        },
        Term::TakeFromArgument(a) => if a < st.args.len() {
            (Ok(taken(st.args[a as int])), slot_taken(st, a))
        } else {
            (Err(BuilderError::InvalidFunctionArgument), st)
        },
        Term::IfThenElse(children) => select(arena, st, children, depth),
        _ => (Ok(t), st),
    }
}

/// The children of a closure from position `from` on, each rewritten
/// against the frame in turn, after those that were rewritten before.
pub open spec fn resolve_all(
    arena: Seq<Option<Term>>,
    st: State,
    children: Seq<Term>,
    from: int,
    so_far: Seq<Term>,
    depth: nat,
) -> Outcome<Seq<Term>>
    decreases children.len() - from,
{
    if from < 0 || from >= children.len() {
        (Ok(so_far), st)
    } else {
        match resolve(arena, st, children[from], depth) {
            (Ok(slot), after) => resolve_all(
                arena,
                after,
                children,
                from + 1,
                so_far.push(slot),
                depth,
            ),
            (Err(e), after) => (Err(e), after),
        }
    }
}

/// The child of a sequence that its element at position `at` is: the
/// child at that position, or, where the children after the first are
/// cycled through, the one that the position comes round to.
pub open spec fn element(children: Seq<Term>, cyclic: bool, at: int) -> Term {
    if cyclic {
        children[1 + at % (children.len() - 1)]
    } else {
        children[at]
    }
}

/// The state with the position register set for the element at `at`.
pub open spec fn positioned(st: State, at: int) -> State {
    State { cells: st.cells, args: st.args, index: at as usize }
}

/// The value of a term: what the evaluator delivers for it, and the state
/// that the evaluation leaves.
///
/// Scalars and text are their own value. A list evaluates to the list of
/// the values of its items and a mapping to the mapping of the values of
/// its keys and values, in order. A computed term evaluates to the value
/// of the term it stands for. `Empty` and the reserved variants have no
/// value. Each step from a term to a term inside it, or to the term it
/// stands for, takes one unit of `depth`.
pub open spec fn eval(arena: Seq<Option<Term>>, st: State, t: Term, depth: nat) -> Outcome<Term>
    decreases depth, 0nat, 0nat,
{
    match t {
        Term::Boolean(_) | Term::Integer(_) | Term::Unsigned(_) | Term::Number(_) | Term::String(
            _,
            _,
        ) => (Ok(t), st),
        Term::Index => (Ok(Term::Unsigned(st.index as u64)), st),
        Term::Mapping(entries) => if depth == 0 {
            (Err(BuilderError::DepthExceeded), st)
        } else {
            eval_entries(arena, st, entries, 0, Seq::empty(), (depth - 1) as nat)
        },
        Term::List(items) => if depth == 0 {
            (Err(BuilderError::DepthExceeded), st)
        } else {
            eval_items(arena, st, items, false, items.len(), 0, Seq::empty(), (depth - 1) as nat)
        },
        Term::Repeat(children) => if depth == 0 {
            (Err(BuilderError::DepthExceeded), st)
        } else if children.len() == 0 {
            (Ok(Term::List(Seq::empty())), st)
        } else {
            match lifted(unsigned(arena, st.cells, children[0], (depth - 1) as nat), st) {
                (Ok(times), after) => eval_items(
                    arena,
                    after,
                    children,
                    true,
                    if children.len() > 1 {
                        times as usize as nat
                    } else {
                        0
                    },
                    0,
                    Seq::empty(),
                    (depth - 1) as nat,
                ),
                (Err(e), after) => (Err(e), after),
            }
        },
        Term::Closure(children) => if children.len() == 0 {
            (Err(BuilderError::InvalidFunctionArgument), st)
        } else if depth == 0 {
            (Err(BuilderError::DepthExceeded), st)
        } else {
            match resolve_all(arena, st, children, 0, Seq::empty(), (depth - 1) as nat) {
                (Ok(slots), after) => {
                    let inner = State { cells: after.cells, args: slots, index: after.index };
                    let (value, left_by_body) = eval(arena, inner, children[0], (depth - 1) as nat);
                    (
                        value,
                        State { cells: left_by_body.cells, args: after.args, index: after.index },
                    )
                },
                (Err(e), after) => (Err(e), after),
            }
        },
        Term::Argument(a) => if a >= st.args.len() {
            (Err(BuilderError::InvalidFunctionArgument), st)
        } else if depth == 0 {
            (Err(BuilderError::DepthExceeded), st)
        } else {
            eval(arena, st, st.args[a as int], (depth - 1) as nat)
        },
        Term::TakeFromArgument(a) => if a >= st.args.len() {
            (Err(BuilderError::InvalidFunctionArgument), st)
        } else if depth == 0 {
            (Err(BuilderError::DepthExceeded), st)
        } else {
            eval(arena, slot_taken(st, a), taken(st.args[a as int]), (depth - 1) as nat)
        },
        Term::PopArgument => if st.args.len() == 0 {
            (Err(BuilderError::InvalidFunctionArgument), st)
        } else if depth == 0 {
            (Err(BuilderError::DepthExceeded), st)
        } else {
            eval(
                arena,
                State { cells: st.cells, args: st.args.drop_last(), index: st.index },
                st.args.last(),
                (depth - 1) as nat,
            )
        },
        Term::Reference(h) | Term::SelfReference(h) => if !alive(arena, h) {
            (Err(BuilderError::InvalidSelfRefrence), st)
        } else if depth == 0 {
            (Err(BuilderError::DepthExceeded), st)
        } else {
            eval(arena, st, arena[h as int]->0, (depth - 1) as nat)
        },
        Term::Store(c) => if c >= st.cells.len() {
            (Err(BuilderError::InvalidSelfRefrence), st)
        } else if depth == 0 {
            (Err(BuilderError::DepthExceeded), st)
        } else {
            eval(arena, st, st.cells[c as int], (depth - 1) as nat)
        },
        Term::Take(c) => if c >= st.cells.len() {
            (Err(BuilderError::InvalidSelfRefrence), st)
        } else if depth == 0 {
            (Err(BuilderError::DepthExceeded), st)
        } else {
            eval(arena, cell_taken(st, c), taken(st.cells[c as int]), (depth - 1) as nat)
        },
        Term::IfThenElse(children) => match select(arena, st, children, depth) {
            (Ok(branch), after) => if depth == 0 {
                (Err(BuilderError::DepthExceeded), after)
            } else {
                eval(arena, after, branch, (depth - 1) as nat)
            },
            (Err(e), after) => (Err(e), after),
        },
        Term::Empty | Term::Range(_) | Term::Sum(_) | Term::Multiply(_) | Term::Unique => (
            Err(BuilderError::Unimplemented),
            st,
        ),
    }
}

/// The values of the elements of a sequence from position `at` up to
/// `count`, after those that were evaluated before. Before each element is
/// evaluated, the position register is set to its position.
pub open spec fn eval_items(
    arena: Seq<Option<Term>>,
    st: State,
    children: Seq<Term>,
    cyclic: bool,
    count: nat,
    at: int,
    so_far: Seq<Term>,
    depth: nat,
) -> Outcome<Term>
    decreases depth, 1nat, count - at,
{
    if at < 0 || at >= count {
        (Ok(Term::List(so_far)), st)
    } else {
        match eval(arena, positioned(st, at), element(children, cyclic, at), depth) {
            (Ok(value), after) => eval_items(
                arena,
                after,
                children,
                cyclic,
                count,
                at + 1,
                so_far.push(value),
                depth,
            ),
            (Err(e), after) => (Err(e), after),
        }
    }
}

/// The values of the entries of a mapping from position `at` on, after
/// those that were evaluated before: of each entry the key is evaluated
/// first and then the value.
pub open spec fn eval_entries(
    arena: Seq<Option<Term>>,
    st: State,
    entries: Seq<(Term, Term)>,
    at: int,
    so_far: Seq<(Term, Term)>,
    depth: nat,
) -> Outcome<Term>
    decreases depth, 1nat, entries.len() - at,
{
    if at < 0 || at >= entries.len() {
        (Ok(Term::Mapping(so_far)), st)
    } else {
        match eval(arena, st, entries[at].0, depth) {
            (Ok(key), after_key) => match eval(arena, after_key, entries[at].1, depth) {
                (Ok(value), after) => eval_entries(
                    arena,
                    after,
                    entries,
                    at + 1,
                    so_far.push((key, value)),
                    depth,
                ),
                (Err(e), after) => (Err(e), after),
            },
            (Err(e), after) => (Err(e), after),
        }
    }
}

/// The value of one entry of a mapping and the state that its evaluation
/// leaves: the key is evaluated first and then the value; the first error
/// ends it.
pub open spec fn eval_entry(arena: Seq<Option<Term>>, st: State, entry: (Term, Term), depth: nat)
    -> Outcome<(Term, Term)> {
    match eval(arena, st, entry.0, depth) {
        (Ok(key), after_key) => match eval(arena, after_key, entry.1, depth) {
            (Ok(value), after) => (Ok((key, value)), after),
            (Err(e), after) => (Err(e), after),
        },
        (Err(e), after) => (Err(e), after),
    }
}

/// The mathematical value of a frame: its argument slots and its position
/// register.
pub struct Frame {
    pub args: Seq<Term>,
    pub index: usize,
}

/// The state that an evaluation starts from in a frame and over cells.
pub open spec fn state_of(frame: Frame, cells: Seq<Term>) -> State {
    State { cells, args: frame.args, index: frame.index }
}

/// The frame of a state.
pub open spec fn frame_of(st: State) -> Frame {
    Frame { args: st.args, index: st.index }
}

/// How text is delivered to a consumer: borrowed from outside the tree
/// for as long as the tree's text lives, lent by the evaluator for the
/// time of the delivery alone, or handed over for the consumer to own.
pub enum Delivery {
    Borrowed,
    Transient,
    Owned,
}

/// What the evaluator hands a consumer for a term: a scalar, text with its
/// delivery, or a container whose elements the consumer pulls one by one.
pub enum Head {
    Bool(bool),
    I64(i64),
    U64(u64),
    F64(u64),
    Text(Delivery, Seq<char>),
    /// A sequence: the children it draws its elements from, whether the
    /// children after the first are cycled through, and how many elements
    /// it has.
    Sequence(Seq<Term>, bool, nat),
    /// A mapping and its entries.
    Mapping(Seq<(Term, Term)>),
}

/// What the evaluator hands a consumer, with what the consumer needs to
/// pull the elements of a container: the frame in which they are to be
/// evaluated, where it is not the frame the evaluation started in, and the
/// depth that is left for them.
pub struct Shown {
    pub head: Head,
    pub frame: Option<Frame>,
    pub depth: nat,
}

/// A scalar or a container in the frame the evaluation started in.
pub open spec fn shown(head: Head, depth: nat) -> Shown {
    Shown { head, frame: None, depth }
}

/// What the evaluator hands a consumer for a term, and the state in which
/// it does so.
///
/// Scalars and text are handed over as they are, a list and a mapping as
/// their items and entries still to be evaluated, and a `Repeat` as the
/// sequence that it expands to. A computed term is rewritten until one of
/// these is reached. Text that the tree owns is handed over to own where
/// the evaluator owns the node, `owning`, and lent where it has borrowed
/// it; an argument, a cell and what is taken from either are owned, a
/// shared subterm is borrowed. The body of a closure is handed over with
/// the frame of the closure. Each step from a term to the term it stands
/// for, and the step into a container, takes one unit of `depth`.
pub open spec fn head(arena: Seq<Option<Term>>, st: State, t: Term, depth: nat, owning: bool)
    -> Outcome<Shown>
    decreases depth,
{
    let below = (depth - 1) as nat;
    match t {
        Term::Boolean(b) => (Ok(shown(Head::Bool(b), depth)), st),
        Term::Integer(v) => (Ok(shown(Head::I64(v), depth)), st),
        Term::Unsigned(v) => (Ok(shown(Head::U64(v), depth)), st),
        Term::Number(bits) => (Ok(shown(Head::F64(bits), depth)), st),
        Term::String(borrowed, text) => (
            Ok(
                shown(
                    Head::Text(
                        if borrowed {
                            Delivery::Borrowed
                        } else if owning {
                            Delivery::Owned
                        } else {
                            Delivery::Transient
                        },
                        text,
                    ),
                    depth,
                ),
            ),
            st,
        ),
        Term::Index => (Ok(shown(Head::U64(st.index as u64), depth)), st),
        Term::Mapping(entries) => if depth == 0 {
            (Err(BuilderError::DepthExceeded), st)
        } else {
            (Ok(shown(Head::Mapping(entries), below)), st)
        },
        Term::List(items) => if depth == 0 {
            (Err(BuilderError::DepthExceeded), st)
        } else {
            (Ok(shown(Head::Sequence(items, false, items.len()), below)), st)
        },
        Term::Repeat(children) => if depth == 0 {
            (Err(BuilderError::DepthExceeded), st)
        } else if children.len() == 0 {
            (Ok(shown(Head::Sequence(children, true, 0), below)), st)
        } else {
            match lifted(unsigned(arena, st.cells, children[0], below), st) {
                (Ok(times), after) => (
                    Ok(
                        shown(
                            Head::Sequence(
                                children,
                                true,
                                if children.len() > 1 {
                                    times as usize as nat
                                } else {
                                    0
                                },
                            ),
                            below,
                        ),
                    ),
                    after,
                ),
                (Err(e), after) => (Err(e), after),
            }
        },
        Term::Closure(children) => if children.len() == 0 {
            (Err(BuilderError::InvalidFunctionArgument), st)
        } else if depth == 0 {
            (Err(BuilderError::DepthExceeded), st)
        } else {
            match resolve_all(arena, st, children, 0, Seq::empty(), below) {
                (Ok(slots), after) => {
                    let inner = State { cells: after.cells, args: slots, index: after.index };
                    let (body, left_by_body) = head(arena, inner, children[0], below, owning);
                    let outer = State {
                        cells: left_by_body.cells,
                        args: after.args,
                        index: after.index,
                    };
                    match body {
                        Ok(of_body) => (
                            Ok(
                                Shown {
                                    head: of_body.head,
                                    frame: Some(
                                        match of_body.frame {
                                            Some(innermost) => innermost,
                                            None => frame_of(left_by_body),
                                        },
                                    ),
                                    depth: of_body.depth,
                                },
                            ),
                            outer,
                        ),
                        Err(e) => (Err(e), outer),
                    }
                },
                (Err(e), after) => (Err(e), after),
            }
        },
        Term::Argument(a) => if a >= st.args.len() {
            (Err(BuilderError::InvalidFunctionArgument), st)
        } else if depth == 0 {
            (Err(BuilderError::DepthExceeded), st)
        } else {
            head(arena, st, st.args[a as int], below, true)
        },
        Term::TakeFromArgument(a) => if a >= st.args.len() {
            (Err(BuilderError::InvalidFunctionArgument), st)
        } else if depth == 0 {
            (Err(BuilderError::DepthExceeded), st)
        } else {
            head(arena, slot_taken(st, a), taken(st.args[a as int]), below, true)
        },
        Term::PopArgument => if st.args.len() == 0 {
            (Err(BuilderError::InvalidFunctionArgument), st)
        } else if depth == 0 {
            (Err(BuilderError::DepthExceeded), st)
        } else {
            head(
                arena,
                State { cells: st.cells, args: st.args.drop_last(), index: st.index },
                st.args.last(),
                below,
                true,
            )
        },
        Term::Reference(h) | Term::SelfReference(h) => if !alive(arena, h) {
            (Err(BuilderError::InvalidSelfRefrence), st)
        } else if depth == 0 {
            (Err(BuilderError::DepthExceeded), st)
        } else {
            head(arena, st, arena[h as int]->0, below, false)
        },
        Term::Store(c) => if c >= st.cells.len() {
            (Err(BuilderError::InvalidSelfRefrence), st)
        } else if depth == 0 {
            (Err(BuilderError::DepthExceeded), st)
        } else {
            head(arena, st, st.cells[c as int], below, true)
        },
        Term::Take(c) => if c >= st.cells.len() {
            (Err(BuilderError::InvalidSelfRefrence), st)
        } else if depth == 0 {
            (Err(BuilderError::DepthExceeded), st)
        } else {
            head(arena, cell_taken(st, c), taken(st.cells[c as int]), below, true)
        },
        Term::IfThenElse(children) => match select(arena, st, children, depth) {
            (Ok(branch), after) => if depth == 0 {
                (Err(BuilderError::DepthExceeded), after)
            } else {
                head(arena, after, branch, below, owning)
            },
            (Err(e), after) => (Err(e), after),
        },
        Term::Empty | Term::Range(_) | Term::Sum(_) | Term::Multiply(_) | Term::Unique => (
            Err(BuilderError::Unimplemented),
            st,
        ),
    }
}

/// The state in which the elements of a container are evaluated: that of
/// the frame that the container was handed over with.
pub open spec fn entered(st: State, frame: Option<Frame>) -> State {
    match frame {
        Some(inner) => state_of(inner, st.cells),
        None => st,
    }
}

/// The outcome of the elements of a container as the frame that the
/// evaluation started in sees it: a frame that the container was handed
/// over with is dropped, and with it what the elements did to it.
pub open spec fn left_frame(st: State, frame: Option<Frame>, out: Outcome<Term>) -> Outcome<Term> {
    match frame {
        Some(_) => (out.0, State { cells: out.1.cells, args: st.args, index: st.index }),
        None => out,
    }
}

/// What a consumer that takes whatever it is handed makes of it: a scalar
/// and text as they are, a sequence as the list of the values of its
/// elements and a mapping as the mapping of the values of its entries,
/// pulled in order until none is left.
pub open spec fn finish(arena: Seq<Option<Term>>, st: State, what: Shown) -> Outcome<Term> {
    match what.head {
        Head::Bool(b) => (Ok(Term::Boolean(b)), st),
        Head::I64(v) => (Ok(Term::Integer(v)), st),
        Head::U64(v) => (Ok(Term::Unsigned(v)), st),
        Head::F64(bits) => (Ok(Term::Number(bits)), st),
        Head::Text(delivery, text) => (Ok(Term::String(delivery is Borrowed, text)), st),
        Head::Sequence(children, cyclic, count) => left_frame(
            st,
            what.frame,
            eval_items(
                arena,
                entered(st, what.frame),
                children,
                cyclic,
                count,
                0,
                Seq::empty(),
                what.depth,
            ),
        ),
        Head::Mapping(entries) => left_frame(
            st,
            what.frame,
            eval_entries(arena, entered(st, what.frame), entries, 0, Seq::empty(), what.depth),
        ),
    }
}

/// What the evaluation of a term comes to where a consumer that takes
/// whatever it is handed pulls it.
pub open spec fn pulled_through(
    arena: Seq<Option<Term>>,
    st: State,
    t: Term,
    depth: nat,
    owning: bool,
) -> Outcome<Term> {
    match head(arena, st, t, depth, owning) {
        (Ok(what), after) => finish(arena, after, what),
        (Err(e), after) => (Err(e), after),
    }
}

/// Handing a term over and pulling all of it is evaluating it: the value
/// of a term is what a consumer that takes whatever it is handed makes of
/// it, in owning mode and in borrowing mode alike.
pub proof fn law_pulling_evaluates(
    arena: Seq<Option<Term>>,
    st: State,
    t: Term,
    depth: nat,
    owning: bool,
)
    ensures
        pulled_through(arena, st, t, depth, owning) == eval(arena, st, t, depth),
        head(arena, st, t, depth, owning).0 matches Ok(what) ==> (what.head is Sequence
            || what.head is Mapping) ==> what.depth < depth,
    decreases depth,
{
    let below = (depth - 1) as nat;
    match t {
        Term::Closure(children) => {
            if children.len() > 0 && depth > 0 {
                if let (Ok(slots), after) = resolve_all(
                    arena,
                    st,
                    children,
                    0,
                    Seq::empty(),
                    below,
                ) {
                    let inner = State { cells: after.cells, args: slots, index: after.index };
                    law_pulling_evaluates(arena, inner, children[0], below, owning);
                    let (body, left_by_body) = head(arena, inner, children[0], below, owning);
                    if let Ok(of_body) = body {
                        let outer = State {
                            cells: left_by_body.cells,
                            args: after.args,
                            index: after.index,
                        };
                        let frame = match of_body.frame {
                            Some(innermost) => innermost,
                            None => frame_of(left_by_body),
                        };
                        assert(entered(outer, Some(frame)) == entered(left_by_body, of_body.frame));
                    }
                }
            }
        },
        Term::Argument(a) => {
            if a < st.args.len() && depth > 0 {
                law_pulling_evaluates(arena, st, st.args[a as int], below, true);
            }
        },
        Term::TakeFromArgument(a) => {
            if a < st.args.len() && depth > 0 {
                law_pulling_evaluates(
                    arena,
                    slot_taken(st, a),
                    taken(st.args[a as int]),
                    below,
                    true,
                );
            }
        },
        Term::PopArgument => {
            if st.args.len() > 0 && depth > 0 {
                law_pulling_evaluates(
                    arena,
                    State { cells: st.cells, args: st.args.drop_last(), index: st.index },
                    st.args.last(),
                    below,
                    true,
                );
            }
        },
        Term::Reference(h) | Term::SelfReference(h) => {
            if alive(arena, h) && depth > 0 {
                law_pulling_evaluates(arena, st, arena[h as int]->0, below, false);
            }
        },
        Term::Store(c) => {
            if c < st.cells.len() && depth > 0 {
                law_pulling_evaluates(arena, st, st.cells[c as int], below, true);
            }
        },
        Term::Take(c) => {
            if c < st.cells.len() && depth > 0 {
                law_pulling_evaluates(
                    arena,
                    cell_taken(st, c),
                    taken(st.cells[c as int]),
                    below,
                    true,
                );
            }
        },
        Term::IfThenElse(children) => {
            if let (Ok(branch), after) = select(arena, st, children, depth) {
                if depth > 0 {
                    law_pulling_evaluates(arena, after, branch, below, owning);
                }
            }
        },
        _ => {},
    }
}

/// The two modes deliver the same value and leave the same state: they
/// differ only in how text that the tree owns is delivered.
pub proof fn law_modes_agree(arena: Seq<Option<Term>>, st: State, t: Term, depth: nat)
    ensures
        pulled_through(arena, st, t, depth, true) == pulled_through(arena, st, t, depth, false),
{
    law_pulling_evaluates(arena, st, t, depth, true);
    law_pulling_evaluates(arena, st, t, depth, false);
}

} // verus!
