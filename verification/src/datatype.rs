use std::borrow::Cow;
use vstd::prelude::*;

verus! {

/// A node of the value tree.
///
/// Leaves are scalars and text. `Mapping` and `List` are ordinary
/// containers. The other variants are computed: they stand for a value that
/// the evaluator works out against an argument stack, an arena of shared
/// subterms and a set of mutable cells.
#[derive(Debug, PartialEq)]
pub enum BuilderDataType<'de> {
    /// The absence of a value.
    Empty,
    Boolean(bool),
    Integer(i64),
    Unsigned(u64),
    /// A double-precision number, held as its IEEE-754 bit pattern.
    Number(u64),
    /// Text that is either borrowed from outside the tree or owned by it.
    String(Cow<'de, str>),
    /// Key and value pairs, in insertion order.
    Mapping(Vec<(BuilderDataType<'de>, BuilderDataType<'de>)>),
    List(Vec<BuilderDataType<'de>>),
    /// The first child is the body; all children, the body included, are
    /// the argument slots under which the body is evaluated.
    Closure(Vec<BuilderDataType<'de>>),
    /// The argument slot with this index.
    Argument(usize),
    /// The argument slot with this index, consumed by one `take_one`.
    TakeFromArgument(usize),
    /// The top of the argument stack, removed from it.
    PopArgument,
    /// An owning handle of a shared subterm in the arena.
    Reference(usize),
    /// A handle of a shared subterm that does not keep it alive.
    SelfReference(usize),
    /// A handle of a mutable cell, read without changing it.
    Store(usize),
    /// A handle of a mutable cell, consumed by one `take_one` at each visit.
    Take(usize),
    /// Condition, then-branch and else-branch.
    IfThenElse(Vec<BuilderDataType<'de>>),
    /// A count followed by the elements to cycle through.
    Repeat(Vec<BuilderDataType<'de>>),
    /// Reserved.
    Range(Vec<BuilderDataType<'de>>),
    /// Reserved.
    Sum(Vec<BuilderDataType<'de>>),
    /// Reserved.
    Multiply(Vec<BuilderDataType<'de>>),
    /// The position of the element under evaluation in its sequence.
    Index,
    /// Reserved.
    Unique,
}

/// The mathematical value of a node: the same tree over sequences. Text is
/// a sequence of characters together with whether it is borrowed.
pub enum Term {
    Empty,
    Boolean(bool),
    Integer(i64),
    Unsigned(u64),
    Number(u64),
    String(bool, Seq<char>),
    Mapping(Seq<(Term, Term)>),
    List(Seq<Term>),
    Closure(Seq<Term>),
    Argument(usize),
    TakeFromArgument(usize),
    PopArgument,
    Reference(usize),
    SelfReference(usize),
    Store(usize),
    Take(usize),
    IfThenElse(Seq<Term>),
    Repeat(Seq<Term>),
    Range(Seq<Term>),
    Sum(Seq<Term>),
    Multiply(Seq<Term>),
    Index,
    Unique,
}

/// The values of a vector of nodes, in order.
pub open spec fn terms_of<'de>(v: Seq<BuilderDataType<'de>>) -> Seq<Term>
    decreases v,
{
    Seq::new(
        v.len(),
        |i: int|
            if 0 <= i < v.len() {
                v[i]@
            } else {
                Term::Empty
            },
    )
}

/// The values of a vector of pairs of nodes, in order.
pub open spec fn entries_of<'de>(
    v: Seq<(BuilderDataType<'de>, BuilderDataType<'de>)>,
) -> Seq<(Term, Term)>
    decreases v,
{
    Seq::new(
        v.len(),
        |i: int|
            if 0 <= i < v.len() {
                (v[i].0@, v[i].1@)
            } else {
                (Term::Empty, Term::Empty)
            },
    )
}

/// The values of a vector of nodes are as many as the nodes, and each is
/// the value of the node in its place.
pub broadcast proof fn lemma_terms_of<'de>(v: Seq<BuilderDataType<'de>>)
    ensures
        (#[trigger] terms_of(v)).len() == v.len(),
        forall|i: int| 0 <= i < v.len() ==> terms_of(v)[i] == v[i]@,
{
}

/// The values of a vector of pairs are as many as the pairs, and each is
/// the pair of values of the pair in its place.
pub broadcast proof fn lemma_entries_of<'de>(v: Seq<(BuilderDataType<'de>, BuilderDataType<'de>)>)
    ensures
        (#[trigger] entries_of(v)).len() == v.len(),
        forall|i: int| 0 <= i < v.len() ==> entries_of(v)[i] == (v[i].0@, v[i].1@),
{
}

pub broadcast group group_views {
    lemma_terms_of,
    lemma_entries_of,
}

impl<'de> View for BuilderDataType<'de> {
    type V = Term;

    open spec fn view(&self) -> Term
        decreases self,
    {
        match self {
            BuilderDataType::Empty => Term::Empty,
            BuilderDataType::Boolean(b) => Term::Boolean(*b),
            BuilderDataType::Integer(v) => Term::Integer(*v),
            BuilderDataType::Unsigned(v) => Term::Unsigned(*v),
            BuilderDataType::Number(v) => Term::Number(*v),
            BuilderDataType::String(s) => Term::String(s is Borrowed, s@),
            BuilderDataType::Mapping(v) => Term::Mapping(entries_of(v@)),
            BuilderDataType::List(v) => Term::List(terms_of(v@)),
            BuilderDataType::Closure(v) => Term::Closure(terms_of(v@)),
            BuilderDataType::Argument(a) => Term::Argument(*a),
            BuilderDataType::TakeFromArgument(a) => Term::TakeFromArgument(*a),
            BuilderDataType::PopArgument => Term::PopArgument,
            BuilderDataType::Reference(h) => Term::Reference(*h),
            BuilderDataType::SelfReference(h) => Term::SelfReference(*h),
            BuilderDataType::Store(h) => Term::Store(*h),
            BuilderDataType::Take(h) => Term::Take(*h),
            BuilderDataType::IfThenElse(v) => Term::IfThenElse(terms_of(v@)),
            BuilderDataType::Repeat(v) => Term::Repeat(terms_of(v@)),
            BuilderDataType::Range(v) => Term::Range(terms_of(v@)),
            BuilderDataType::Sum(v) => Term::Sum(terms_of(v@)),
            BuilderDataType::Multiply(v) => Term::Multiply(terms_of(v@)),
            BuilderDataType::Index => Term::Index,
            BuilderDataType::Unique => Term::Unique,
        }
    }
}

/// Copies a vector of nodes, node by node.
#[verifier::loop_isolation(false)]
pub fn clone_nodes<'de>(v: &Vec<BuilderDataType<'de>>) -> (r: Vec<BuilderDataType<'de>>)
    ensures
        terms_of(r@) == terms_of(v@),
    decreases v,
{
    let mut out: Vec<BuilderDataType<'de>> = Vec::new();
    let mut i: usize = 0;
    while i < v.len()
        invariant
            i <= v.len(),
            out@.len() == i,
            forall|j: int| 0 <= j < i ==> out@[j]@ == v@[j]@,
        decreases v.len() - i,
    {
        out.push(v[i].clone());
        i += 1;
    }
    assert(terms_of(out@) =~= terms_of(v@));
    out
}

/// Copies a vector of pairs of nodes, pair by pair.
#[verifier::loop_isolation(false)]
pub fn clone_entries<'de>(v: &Vec<(BuilderDataType<'de>, BuilderDataType<'de>)>) -> (r: Vec<
    (BuilderDataType<'de>, BuilderDataType<'de>),
>)
    ensures
        entries_of(r@) == entries_of(v@),
    decreases v,
{
    let mut out: Vec<(BuilderDataType<'de>, BuilderDataType<'de>)> = Vec::new();
    let mut i: usize = 0;
    while i < v.len()
        invariant
            i <= v.len(),
            out@.len() == i,
            forall|j: int| 0 <= j < i ==> out@[j].0@ == v@[j].0@ && out@[j].1@ == v@[j].1@,
        decreases v.len() - i,
    {
        out.push((v[i].0.clone(), v[i].1.clone()));
        i += 1;
    }
    assert(entries_of(out@) =~= entries_of(v@));
    out
}

impl<'de> Clone for BuilderDataType<'de> {
    /// The structural copy of a node: the same value, text that was
    /// borrowed still borrowed, handles still naming the same slots.
    fn clone(&self) -> (r: Self)
        ensures
            r@ == self@,
        decreases self,
    {
        match self {
            BuilderDataType::Empty => BuilderDataType::Empty,
            BuilderDataType::Boolean(b) => BuilderDataType::Boolean(*b),
            BuilderDataType::Integer(v) => BuilderDataType::Integer(*v),
            BuilderDataType::Unsigned(v) => BuilderDataType::Unsigned(*v),
            BuilderDataType::Number(v) => BuilderDataType::Number(*v),
            BuilderDataType::String(s) => match s {
                Cow::Borrowed(t) => BuilderDataType::String(Cow::Borrowed(*t)),
                Cow::Owned(t) => BuilderDataType::String(Cow::Owned(t.clone())),
            },
            BuilderDataType::Mapping(v) => BuilderDataType::Mapping(clone_entries(v)),
            BuilderDataType::List(v) => BuilderDataType::List(clone_nodes(v)),
            BuilderDataType::Closure(v) => BuilderDataType::Closure(clone_nodes(v)),
            BuilderDataType::Argument(a) => BuilderDataType::Argument(*a),
            BuilderDataType::TakeFromArgument(a) => BuilderDataType::TakeFromArgument(*a),
            BuilderDataType::PopArgument => BuilderDataType::PopArgument,
            BuilderDataType::Reference(h) => BuilderDataType::Reference(*h),
            BuilderDataType::SelfReference(h) => BuilderDataType::SelfReference(*h),
            BuilderDataType::Store(h) => BuilderDataType::Store(*h),
            BuilderDataType::Take(h) => BuilderDataType::Take(*h),
            BuilderDataType::IfThenElse(v) => BuilderDataType::IfThenElse(clone_nodes(v)),
            BuilderDataType::Repeat(v) => BuilderDataType::Repeat(clone_nodes(v)),
            BuilderDataType::Range(v) => BuilderDataType::Range(clone_nodes(v)),
            BuilderDataType::Sum(v) => BuilderDataType::Sum(clone_nodes(v)),
            BuilderDataType::Multiply(v) => BuilderDataType::Multiply(clone_nodes(v)),
            BuilderDataType::Index => BuilderDataType::Index,
            BuilderDataType::Unique => BuilderDataType::Unique,
        }
    }
}

/// What a consuming read of a term hands out.
pub open spec fn taken(t: Term) -> Term {
    match t {
        Term::Boolean(b) => Term::Boolean(b),
        Term::Integer(v) => Term::Integer(v),
        Term::Unsigned(v) => Term::Unsigned(v),
        Term::List(items) => if items.len() > 0 {
            items.last()
        } else {
            Term::Empty
        },
        _ => Term::Empty,
    }
}

/// What a consuming read of a term leaves behind: a true boolean becomes
/// false, a positive integer loses one, a negative integer becomes zero, a
/// list loses its last element, and anything else stays as it is.
pub open spec fn left(t: Term) -> Term {
    match t {
        Term::Boolean(b) => Term::Boolean(false),
        Term::Integer(v) => Term::Integer(
            if v > 0 {
                (v - 1) as i64
            } else {
                0
            },
        ),
        Term::Unsigned(v) => Term::Unsigned(
            if v > 0 {
                (v - 1) as u64
            } else {
                0
            },
        ),
        Term::List(items) => if items.len() > 0 {
            Term::List(items.drop_last())
        } else {
            t
        },
        _ => t,
    }
}

impl<'de> BuilderDataType<'de> {
    /// The consuming read: hands out the node's current reading and winds
    /// the node down by one step.
    pub fn take_one(&mut self) -> (r: BuilderDataType<'de>)
        ensures
            r@ == taken(old(self)@),
            final(self)@ == left(old(self)@),
    {
        match self {
            BuilderDataType::Empty => BuilderDataType::Empty,
            BuilderDataType::Boolean(b) => {
                let result = BuilderDataType::Boolean(*b);
                if *b {
                    *b = false;
                }
                result
            },
            BuilderDataType::Integer(b) => {
                let result = BuilderDataType::Integer(*b);
                if *b > 0 {
                    *b -= 1;
                } else {
                    *b = 0;
                }
                result
            },
            BuilderDataType::Unsigned(b) => {
                let result = BuilderDataType::Unsigned(*b);
                if *b > 0 {
                    *b -= 1;
                }
                result
            },
            BuilderDataType::List(c) => {
                let ghost before = c@;
                match c.pop() {
                    Some(last) => {
                        assert(terms_of(c@) =~= terms_of(before).drop_last());
                        last
                    },
                    None => BuilderDataType::Empty,
                }
            },
            _ => BuilderDataType::Empty,
        }
    }
}

} // verus!
