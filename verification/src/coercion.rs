use crate::datatype::{entries_of, group_views, left, taken, terms_of, BuilderDataType, Term};
use crate::heap::{alive, Arena, Cells};
use crate::scalar::{
    decimal, float_as_signed, float_as_unsigned, float_is_nonzero, float_nonzero, float_to_signed,
    float_to_unsigned, parse_signed, parse_unsigned, parsed_signed, parsed_unsigned,
    signed_decimal, signed_text, unsigned_text,
};
use std::borrow::Cow;
use vstd::prelude::*;

verus! {

broadcast use group_views;

/// The text of a string node, borrowed for as long as the node is.
pub fn text_of<'a, 'de>(s: &'a Cow<'de, str>) -> (r: &'a str)
    ensures
        r@ == s@,
{
    match s {
        Cow::Borrowed(t) => t,
        Cow::Owned(t) => t.as_str(),
    }
}

/// The truth of a term, and the cells as the reading leaves them.
///
/// A scalar is true where it is not zero, text and containers where they
/// are not empty. A handle reads through to its target and is false where
/// it dangles; a `Take` first consumes its cell by one step. `Repeat` reads
/// through its first child, and a conditional through the branch that the
/// truth of its condition selects. Everything else is false.
///
/// Each step from a term to the term it reads through takes one unit of
/// `depth`. The reading is `None` where it would need more than it has.
pub open spec fn truth(arena: Seq<Option<Term>>, cells: Seq<Term>, t: Term, depth: nat) -> (
    Option<bool>,
    Seq<Term>,
)
    decreases depth,
{
    match t {
        Term::Boolean(b) => (Some(b), cells),
        Term::Integer(v) => (Some(v != 0), cells),
        Term::Unsigned(v) => (Some(v != 0), cells),
        Term::Number(bits) => (Some(float_is_nonzero(bits)), cells),
        Term::String(_, text) => (Some(text.len() != 0), cells),
        Term::Mapping(entries) => (Some(entries.len() != 0), cells),
        Term::List(items) => (Some(items.len() != 0), cells),
        Term::Reference(h) | Term::SelfReference(h) => if !alive(arena, h) {
            (Some(false), cells)
        } else if depth == 0 {
            (None, cells)
        } else {
            truth(arena, cells, arena[h as int]->0, (depth - 1) as nat)
        },
        Term::Store(c) => if c >= cells.len() {
            (Some(false), cells)
        } else if depth == 0 {
            (None, cells)
        } else {
            truth(arena, cells, cells[c as int], (depth - 1) as nat)
        },
        Term::Take(c) => if c >= cells.len() {
            (Some(false), cells)
        } else if depth == 0 {
            (None, cells)
        } else {
            truth(
                arena,
                cells.update(c as int, left(cells[c as int])),
                taken(cells[c as int]),
                (depth - 1) as nat,
            )
        },
        Term::Repeat(children) => if children.len() == 0 {
            (Some(false), cells)
        } else if depth == 0 {
            (None, cells)
        } else {
            truth(arena, cells, children[0], (depth - 1) as nat)
        },
        Term::IfThenElse(children) => if children.len() < 3 {
            (Some(false), cells)
        } else if depth == 0 {
            (None, cells)
        } else {
            match truth(arena, cells, children[0], (depth - 1) as nat) {
                (Some(condition), after) => truth(
                    arena,
                    after,
                    if condition {
                        children[1]
                    } else {
                        children[2]
                    },
                    (depth - 1) as nat,
                ),
                (None, after) => (None, after),
            }
        },
        _ => (Some(false), cells),
    }
}

/// The term that a numeric reading of a term ends at, and the cells as the
/// reading leaves them. Handles read through to their targets, a `Take`
/// after consuming its cell by one step, and `Repeat` reads through its
/// first child. A dangling handle and a `Repeat` without children read as
/// `Empty`. Each step takes one unit of `depth`.
pub open spec fn leaf(arena: Seq<Option<Term>>, cells: Seq<Term>, t: Term, depth: nat) -> (
    Option<Term>,
    Seq<Term>,
)
    decreases depth,
{
    match t {
        Term::Reference(h) | Term::SelfReference(h) => if !alive(arena, h) {
            (Some(Term::Empty), cells)
        } else if depth == 0 {
            (None, cells)
        } else {
            leaf(arena, cells, arena[h as int]->0, (depth - 1) as nat)
        },
        Term::Store(c) => if c >= cells.len() {
            (Some(Term::Empty), cells)
        } else if depth == 0 {
            (None, cells)
        } else {
            leaf(arena, cells, cells[c as int], (depth - 1) as nat)
        },
        Term::Take(c) => if c >= cells.len() {
            (Some(Term::Empty), cells)
        } else if depth == 0 {
            (None, cells)
        } else {
            leaf(
                arena,
                cells.update(c as int, left(cells[c as int])),
                taken(cells[c as int]),
                (depth - 1) as nat,
            )
        },
        Term::Repeat(children) => if children.len() == 0 {
            (Some(Term::Empty), cells)
        } else if depth == 0 {
            (None, cells)
        } else {
            leaf(arena, cells, children[0], (depth - 1) as nat)
        },
        _ => (Some(t), cells),
    }
}

/// A term that is no handle and no `Repeat`, read as an unsigned integer:
/// a negative integer, a double that is negative or not normal, and text
/// that does not parse read as zero; a container reads as its length.
pub open spec fn unsigned_of(t: Term) -> u64 {
    match t {
        Term::Boolean(b) => if b {
            1
        } else {
            0
        },
        Term::Integer(v) => if v > 0 {
            v as u64
        } else {
            0
        },
        Term::Unsigned(v) => v,
        Term::Number(bits) => float_as_unsigned(bits),
        Term::String(_, text) => match parsed_unsigned(text) {
            Some(v) => v,
            None => 0,
        },
        Term::Mapping(entries) => entries.len() as u64,
        Term::List(items) => items.len() as u64,
        _ => 0,
    }
}

/// A term that is no handle and no `Repeat`, read as a signed integer: an
/// unsigned integer saturates, a double that is not normal and text that
/// does not parse read as zero; a container reads as its length.
pub open spec fn signed_of(t: Term) -> i64 {
    match t {
        Term::Boolean(b) => if b {
            1
        } else {
            0
        },
        Term::Integer(v) => v,
        Term::Unsigned(v) => if v > i64::MAX {
            i64::MAX
        } else {
            v as i64
        },
        Term::Number(bits) => float_as_signed(bits),
        Term::String(_, text) => match parsed_signed(text) {
            Some(v) => v,
            None => 0,
        },
        Term::Mapping(entries) => entries.len() as usize as i64,
        Term::List(items) => items.len() as usize as i64,
        _ => 0,
    }
}

/// A term that is no handle and no `Repeat`, as the scalar that its reading
/// as a double is converted from: an integer, an unsigned integer, a
/// double or text to be parsed. A boolean is one or zero, a container its
/// length, and anything else zero.
pub open spec fn float_source_of(t: Term) -> Term {
    match t {
        Term::Boolean(b) => Term::Unsigned(
            if b {
                1
            } else {
                0
            },
        ),
        Term::Integer(v) => t,
        Term::Unsigned(v) => t,
        Term::Number(bits) => t,
        Term::String(_, text) => t,
        Term::Mapping(entries) => Term::Unsigned(entries.len() as u64),
        Term::List(items) => Term::Unsigned(items.len() as u64),
        _ => Term::Unsigned(0),
    }
}

/// The reading of a term as an unsigned integer.
pub open spec fn unsigned(arena: Seq<Option<Term>>, cells: Seq<Term>, t: Term, depth: nat) -> (
    Option<u64>,
    Seq<Term>,
) {
    match leaf(arena, cells, t, depth) {
        (Some(l), after) => (Some(unsigned_of(l)), after),
        (None, after) => (None, after),
    }
}

/// The reading of a term as a signed integer.
pub open spec fn signed(arena: Seq<Option<Term>>, cells: Seq<Term>, t: Term, depth: nat) -> (
    Option<i64>,
    Seq<Term>,
) {
    match leaf(arena, cells, t, depth) {
        (Some(l), after) => (Some(signed_of(l)), after),
        (None, after) => (None, after),
    }
}

/// The scalar that the reading of a term as a double is converted from.
pub open spec fn float_source(arena: Seq<Option<Term>>, cells: Seq<Term>, t: Term, depth: nat) -> (
    Option<Term>,
    Seq<Term>,
) {
    match leaf(arena, cells, t, depth) {
        (Some(l), after) => (Some(float_source_of(l)), after),
        (None, after) => (None, after),
    }
}

/// The empty text, owned: what renders where there is nothing to render.
pub open spec fn no_text() -> Seq<Term> {
    seq![Term::String(false, Seq::<char>::empty())]
}

/// Whether a rendering is empty: every fragment is text without characters.
/// A number fragment is never empty, since a double renders as at least
/// one character.
pub open spec fn blank(fragments: Seq<Term>) -> bool {
    forall|i: int|
        0 <= i < fragments.len() ==> (#[trigger] fragments[i] matches Term::String(_, text)
            && text.len() == 0)
}

/// A rendering with one more item joined to it after a comma. An empty
/// item is skipped, and the first item that is not empty stands as it is.
pub open spec fn join_item(so_far: Seq<Term>, item: Seq<Term>) -> Seq<Term> {
    if blank(so_far) {
        item
    } else if blank(item) {
        so_far
    } else {
        so_far + seq![Term::String(true, ","@)] + item
    }
}

/// A rendering with one more entry joined to it as `key:value` after a
/// comma. The key and the value are not empty.
pub open spec fn join_entry(so_far: Seq<Term>, key: Seq<Term>, value: Seq<Term>) -> Seq<Term> {
    if blank(so_far) {
        key + seq![Term::String(true, ":"@)] + value
    } else {
        so_far + seq![Term::String(true, ","@)] + key + seq![Term::String(true, ":"@)] + value
    }
}

/// The rendering of a term as text, and the cells as the rendering leaves
/// them.
///
/// The rendering is a sequence of fragments to be read one after the
/// other. A `String` fragment is its text; a `Number` fragment stands for
/// the default rendering of that double. Booleans render as `true` and
/// `false`, integers in decimal, text as itself; a list joins its items
/// with commas and a mapping its entries as `key:value` with commas, both
/// skipping what renders empty. Handles read through to their targets, a
/// `Take` after consuming its cell by one step. Everything else renders
/// empty. Each step into a container or through a handle takes one unit
/// of `depth`.
pub open spec fn text(arena: Seq<Option<Term>>, cells: Seq<Term>, t: Term, depth: nat) -> (
    Option<Seq<Term>>,
    Seq<Term>,
)
    decreases depth, 0nat, 0nat,
{
    match t {
        Term::Boolean(b) => (
            Some(
                seq![Term::String(
                    true,
                    if b {
                        "true"@
                    } else {
                        "false"@
                    },
                )],
            ),
            cells,
        ),
        Term::Integer(v) => (Some(seq![Term::String(false, signed_decimal(v as int))]), cells),
        Term::Unsigned(v) => (Some(seq![Term::String(false, decimal(v as nat))]), cells),
        Term::Number(bits) => (Some(seq![t]), cells),
        Term::String(_, _) => (Some(seq![t]), cells),
        Term::Mapping(entries) => if depth == 0 {
            (None, cells)
        } else {
            text_entries(arena, cells, entries, 0, no_text(), (depth - 1) as nat)
        },
        Term::List(items) => if depth == 0 {
            (None, cells)
        } else {
            text_items(arena, cells, items, 0, no_text(), (depth - 1) as nat)
        },
        Term::Reference(h) | Term::SelfReference(h) => if !alive(arena, h) {
            (Some(no_text()), cells)
        } else if depth == 0 {
            (None, cells)
        } else {
            text(arena, cells, arena[h as int]->0, (depth - 1) as nat)
        },
        Term::Store(c) => if c >= cells.len() {
            (Some(no_text()), cells)
        } else if depth == 0 {
            (None, cells)
        } else {
            text(arena, cells, cells[c as int], (depth - 1) as nat)
        },
        Term::Take(c) => if c >= cells.len() {
            (Some(no_text()), cells)
        } else if depth == 0 {
            (None, cells)
        } else {
            text(
                arena,
                cells.update(c as int, left(cells[c as int])),
                taken(cells[c as int]),
                (depth - 1) as nat,
            )
        },
        _ => (Some(no_text()), cells),
    }
}

/// The rendering of the items of a list from position `from` on, joined to
/// what the items before it rendered as.
pub open spec fn text_items(
    arena: Seq<Option<Term>>,
    cells: Seq<Term>,
    items: Seq<Term>,
    from: int,
    so_far: Seq<Term>,
    depth: nat,
) -> (Option<Seq<Term>>, Seq<Term>)
    decreases depth, 1nat, items.len() - from,
{
    if from < 0 || from >= items.len() {
        (Some(so_far), cells)
    } else {
        match text(arena, cells, items[from], depth) {
            (Some(item), after) => text_items(
                arena,
                after,
                items,
                from + 1,
                join_item(so_far, item),
                depth,
            ),
            (None, after) => (None, after),
        }
    }
}

/// The rendering of the entries of a mapping from position `from` on,
/// joined to what the entries before it rendered as. An entry whose key
/// renders empty is skipped without its value being read.
pub open spec fn text_entries(
    arena: Seq<Option<Term>>,
    cells: Seq<Term>,
    entries: Seq<(Term, Term)>,
    from: int,
    so_far: Seq<Term>,
    depth: nat,
) -> (Option<Seq<Term>>, Seq<Term>)
    decreases depth, 1nat, entries.len() - from,
{
    if from < 0 || from >= entries.len() {
        (Some(so_far), cells)
    } else {
        match text(arena, cells, entries[from].0, depth) {
            (Some(key), after_key) => if blank(key) {
                text_entries(arena, after_key, entries, from + 1, so_far, depth)
            } else {
                match text(arena, after_key, entries[from].1, depth) {
                    (Some(value), after) => text_entries(
                        arena,
                        after,
                        entries,
                        from + 1,
                        if blank(value) {
                            so_far
                        } else {
                            join_entry(so_far, key, value)
                        },
                        depth,
                    ),
                    (None, after) => (None, after),
                }
            },
            (None, after) => (None, after),
        }
    }
}

/// Whether a rendering is empty.
pub fn is_blank<'de>(fragments: &Vec<BuilderDataType<'de>>) -> (r: bool)
    ensures
        r == blank(terms_of(fragments@)),
{
    let mut i: usize = 0;
    while i < fragments.len()
        invariant
            i <= fragments.len(),
            forall|j: int|
                0 <= j < i ==> (#[trigger] terms_of(fragments@)[j] matches Term::String(_, text)
                    && text.len() == 0),
        decreases fragments.len() - i,
    {
        let empty = match &fragments[i] {
            BuilderDataType::String(s) => text_of(s).is_empty(),
            _ => false,
        };
        if !empty {
            assert(!(terms_of(fragments@)[i as int] matches Term::String(_, text) && text.len()
                == 0));
            return false;
        }
        i += 1;
    }
    true
}

/// The empty text, owned.
fn nothing<'de>() -> (r: Vec<BuilderDataType<'de>>)
    ensures
        terms_of(r@) == no_text(),
{
    let mut r: Vec<BuilderDataType<'de>> = Vec::new();
    r.push(BuilderDataType::String(Cow::Owned(String::new())));
    assert(terms_of(r@) =~= no_text());
    r
}

/// A rendering of one fragment.
fn single<'de>(fragment: BuilderDataType<'de>) -> (r: Vec<BuilderDataType<'de>>)
    ensures
        terms_of(r@) == seq![fragment@],
{
    let mut r: Vec<BuilderDataType<'de>> = Vec::new();
    r.push(fragment);
    assert(terms_of(r@) =~= seq![fragment@]);
    r
}

/// Appends a separator and then a rendering to a rendering.
fn extend<'de>(
    so_far: &mut Vec<BuilderDataType<'de>>,
    separator: &'static str,
    more: Vec<BuilderDataType<'de>>,
)
    ensures
        terms_of(final(so_far)@) == terms_of(old(so_far)@) + seq![
            Term::String(true, separator@),
        ] + terms_of(more@),
{
    let mut rest = more;
    so_far.push(BuilderDataType::String(Cow::Borrowed(separator)));
    so_far.append(&mut rest);
    assert(terms_of(so_far@) =~= terms_of(old(so_far)@) + seq![Term::String(true, separator@)]
        + terms_of(more@));
}

impl<'de> BuilderDataType<'de> {
    /// Reads the node as a truth value. `None` where the reading needs
    /// more steps than `depth`.
    pub fn check_true(&self, arena: &Arena<'de>, cells: &mut Cells<'de>, depth: usize) -> (r:
        Option<bool>)
        ensures
            (r, final(cells)@) == truth(arena@, old(cells)@, self@, depth as nat),
        decreases depth,
    {
        match self {
            BuilderDataType::Boolean(b) => Some(*b),
            BuilderDataType::Integer(v) => Some(*v != 0),
            BuilderDataType::Unsigned(v) => Some(*v != 0),
            BuilderDataType::Number(v) => Some(float_nonzero(*v)),
            BuilderDataType::String(s) => Some(!text_of(s).is_empty()),
            BuilderDataType::Mapping(c) => {
                assert(self@ == Term::Mapping(entries_of(c@)));
                Some(c.len() != 0)
            },
            BuilderDataType::List(c) => {
                assert(self@ == Term::List(terms_of(c@)));
                Some(c.len() != 0)
            },
            BuilderDataType::Reference(h) | BuilderDataType::SelfReference(h) => {
                match arena.get(*h) {
                    None => Some(false),
                    Some(target) => {
                        if depth == 0 {
                            None
                        } else {
                            target.check_true(arena, cells, depth - 1)
                        }
                    },
                }
            },
            BuilderDataType::Store(c) => {
                if depth == 0 {
                    if *c < cells.len() {
                        None
                    } else {
                        Some(false)
                    }
                } else {
                    match cells.read(*c) {
                        None => Some(false),
                        Some(inner) => inner.check_true(arena, cells, depth - 1),
                    }
                }
            },
            BuilderDataType::Take(c) => {
                if depth == 0 {
                    if *c < cells.len() {
                        None
                    } else {
                        Some(false)
                    }
                } else {
                    match cells.take(*c) {
                        None => Some(false),
                        Some(inner) => inner.check_true(arena, cells, depth - 1),
                    }
                }
            },
            BuilderDataType::Repeat(v) => {
                assert(self@ == Term::Repeat(terms_of(v@)));
                if v.len() == 0 {
                    Some(false)
                } else if depth == 0 {
                    None
                } else {
                    v[0].check_true(arena, cells, depth - 1)
                }
            },
            BuilderDataType::IfThenElse(v) => {
                assert(self@ == Term::IfThenElse(terms_of(v@)));
                if v.len() < 3 {
                    Some(false)
                } else if depth == 0 {
                    None
                } else {
                    match v[0].check_true(arena, cells, depth - 1) {
                        None => None,
                        Some(condition) => {
                            if condition {
                                v[1].check_true(arena, cells, depth - 1)
                            } else {
                                v[2].check_true(arena, cells, depth - 1)
                            }
                        },
                    }
                }
            },
            _ => Some(false),
        }
    }
    /// Reads the node as an unsigned integer. `None` where the reading
    /// needs more steps than `depth`.
    pub fn to_unsigned(&self, arena: &Arena<'de>, cells: &mut Cells<'de>, depth: usize) -> (r:
        Option<u64>)
        ensures
            (r, final(cells)@) == unsigned(arena@, old(cells)@, self@, depth as nat),
        decreases depth,
    {
        match self {
            BuilderDataType::Boolean(v) => Some(
                if *v {
                    1
                } else {
                    0
                },
            ),
            BuilderDataType::Integer(v) => Some(
                if *v > 0 {
                    *v as u64
                } else {
                    0
                },
            ),
            BuilderDataType::Unsigned(v) => Some(*v),
            BuilderDataType::Number(v) => Some(float_to_unsigned(*v)),
            BuilderDataType::String(s) => Some(
                match parse_unsigned(text_of(s)) {
                    Some(v) => v,
                    None => 0,
                },
            ),
            BuilderDataType::Mapping(v) => {
                assert(self@ == Term::Mapping(entries_of(v@)));
                Some(v.len() as u64)
            },
            BuilderDataType::List(v) => {
                assert(self@ == Term::List(terms_of(v@)));
                Some(v.len() as u64)
            },
            BuilderDataType::Reference(h) | BuilderDataType::SelfReference(h) => {
                match arena.get(*h) {
                    None => Some(0),
                    Some(target) => {
                        if depth == 0 {
                            None
                        } else {
                            target.to_unsigned(arena, cells, depth - 1)
                        }
                    },
                }
            },
            BuilderDataType::Store(c) => {
                if depth == 0 {
                    if *c < cells.len() {
                        None
                    } else {
                        Some(0)
                    }
                } else {
                    match cells.read(*c) {
                        None => Some(0),
                        Some(inner) => inner.to_unsigned(arena, cells, depth - 1),
                    }
                }
            },
            BuilderDataType::Take(c) => {
                if depth == 0 {
                    if *c < cells.len() {
                        None
                    } else {
                        Some(0)
                    }
                } else {
                    match cells.take(*c) {
                        None => Some(0),
                        Some(inner) => inner.to_unsigned(arena, cells, depth - 1),
                    }
                }
            },
            BuilderDataType::Repeat(v) => {
                assert(self@ == Term::Repeat(terms_of(v@)));
                if v.len() == 0 {
                    Some(0)
                } else if depth == 0 {
                    None
                } else {
                    v[0].to_unsigned(arena, cells, depth - 1)
                }
            },
            _ => Some(0),
        }
    }

    /// Reads the node as a signed integer. `None` where the reading needs
    /// more steps than `depth`.
    pub fn to_signed(&self, arena: &Arena<'de>, cells: &mut Cells<'de>, depth: usize) -> (r:
        Option<i64>)
        ensures
            (r, final(cells)@) == signed(arena@, old(cells)@, self@, depth as nat),
        decreases depth,
    {
        match self {
            BuilderDataType::Boolean(v) => Some(
                if *v {
                    1
                } else {
                    0
                },
            ),
            BuilderDataType::Integer(v) => Some(*v),
            BuilderDataType::Unsigned(v) => Some(
                if *v > i64::MAX as u64 {
                    i64::MAX
                } else {
                    *v as i64
                },
            ),
            BuilderDataType::Number(v) => Some(float_to_signed(*v)),
            BuilderDataType::String(s) => Some(
                match parse_signed(text_of(s)) {
                    Some(v) => v,
                    None => 0,
                },
            ),
            BuilderDataType::Mapping(v) => {
                assert(self@ == Term::Mapping(entries_of(v@)));
                Some(#[verifier::truncate] (v.len() as i64))
            },
            BuilderDataType::List(v) => {
                assert(self@ == Term::List(terms_of(v@)));
                Some(#[verifier::truncate] (v.len() as i64))
            },
            BuilderDataType::Reference(h) | BuilderDataType::SelfReference(h) => {
                match arena.get(*h) {
                    None => Some(0),
                    Some(target) => {
                        if depth == 0 {
                            None
                        } else {
                            target.to_signed(arena, cells, depth - 1)
                        }
                    },
                }
            },
            BuilderDataType::Store(c) => {
                if depth == 0 {
                    if *c < cells.len() {
                        None
                    } else {
                        Some(0)
                    }
                } else {
                    match cells.read(*c) {
                        None => Some(0),
                        Some(inner) => inner.to_signed(arena, cells, depth - 1),
                    }
                }
            },
            BuilderDataType::Take(c) => {
                if depth == 0 {
                    if *c < cells.len() {
                        None
                    } else {
                        Some(0)
                    }
                } else {
                    match cells.take(*c) {
                        None => Some(0),
                        Some(inner) => inner.to_signed(arena, cells, depth - 1),
                    }
                }
            },
            BuilderDataType::Repeat(v) => {
                assert(self@ == Term::Repeat(terms_of(v@)));
                if v.len() == 0 {
                    Some(0)
                } else if depth == 0 {
                    None
                } else {
                    v[0].to_signed(arena, cells, depth - 1)
                }
            },
            _ => Some(0),
        }
    }

    /// Reads the node as a double, up to the conversion itself: hands out
    /// the scalar that the double is converted from, which is an
    /// `Integer`, an `Unsigned`, a `Number`, or a `String` to be parsed as a
    /// double that reads as zero where it does not parse. `None` where the
    /// reading needs more steps than `depth`.
    pub fn to_float(&self, arena: &Arena<'de>, cells: &mut Cells<'de>, depth: usize) -> (r:
        Option<BuilderDataType<'de>>)
        ensures
            r is Some == float_source(arena@, old(cells)@, self@, depth as nat).0 is Some,
            r matches Some(source) ==> Some(source@) == float_source(
                arena@,
                old(cells)@,
                self@,
                depth as nat,
            ).0,
            final(cells)@ == float_source(arena@, old(cells)@, self@, depth as nat).1,
        decreases depth,
    {
        match self {
            BuilderDataType::Boolean(v) => Some(
                BuilderDataType::Unsigned(
                    if *v {
                        1
                    } else {
                        0
                    },
                ),
            ),
            BuilderDataType::Integer(v) => Some(BuilderDataType::Integer(*v)),
            BuilderDataType::Unsigned(v) => Some(BuilderDataType::Unsigned(*v)),
            BuilderDataType::Number(v) => Some(BuilderDataType::Number(*v)),
            BuilderDataType::String(s) => Some(self.clone()),
            BuilderDataType::Mapping(v) => {
                assert(self@ == Term::Mapping(entries_of(v@)));
                Some(BuilderDataType::Unsigned(v.len() as u64))
            },
            BuilderDataType::List(v) => {
                assert(self@ == Term::List(terms_of(v@)));
                Some(BuilderDataType::Unsigned(v.len() as u64))
            },
            BuilderDataType::Reference(h) | BuilderDataType::SelfReference(h) => {
                match arena.get(*h) {
                    None => Some(BuilderDataType::Unsigned(0)),
                    Some(target) => {
                        if depth == 0 {
                            None
                        } else {
                            target.to_float(arena, cells, depth - 1)
                        }
                    },
                }
            },
            BuilderDataType::Store(c) => {
                if depth == 0 {
                    if *c < cells.len() {
                        None
                    } else {
                        Some(BuilderDataType::Unsigned(0))
                    }
                } else {
                    match cells.read(*c) {
                        None => Some(BuilderDataType::Unsigned(0)),
                        Some(inner) => inner.to_float(arena, cells, depth - 1),
                    }
                }
            },
            BuilderDataType::Take(c) => {
                if depth == 0 {
                    if *c < cells.len() {
                        None
                    } else {
                        Some(BuilderDataType::Unsigned(0))
                    }
                } else {
                    match cells.take(*c) {
                        None => Some(BuilderDataType::Unsigned(0)),
                        Some(inner) => inner.to_float(arena, cells, depth - 1),
                    }
                }
            },
            BuilderDataType::Repeat(v) => {
                assert(self@ == Term::Repeat(terms_of(v@)));
                if v.len() == 0 {
                    Some(BuilderDataType::Unsigned(0))
                } else if depth == 0 {
                    None
                } else {
                    v[0].to_float(arena, cells, depth - 1)
                }
            },
            _ => Some(BuilderDataType::Unsigned(0)),
        }
    }
    /// Renders the node as text. The rendering is a sequence of fragments
    /// to be read one after the other: a `String` is its text, a `Number`
    /// stands for the default rendering of that double. `None` where the
    /// rendering needs more steps than `depth`.
    #[verifier::loop_isolation(false)]
    pub fn to_string(&self, arena: &Arena<'de>, cells: &mut Cells<'de>, depth: usize) -> (r:
        Option<Vec<BuilderDataType<'de>>>)
        ensures
            r is Some == text(arena@, old(cells)@, self@, depth as nat).0 is Some,
            r matches Some(fragments) ==> Some(terms_of(fragments@)) == text(
                arena@,
                old(cells)@,
                self@,
                depth as nat,
            ).0,
            final(cells)@ == text(arena@, old(cells)@, self@, depth as nat).1,
        decreases depth,
    {
        match self {
            BuilderDataType::Boolean(v) => Some(
                single(
                    BuilderDataType::String(
                        if *v {
                            Cow::Borrowed("true")
                        } else {
                            Cow::Borrowed("false")
                        },
                    ),
                ),
            ),
            BuilderDataType::Integer(v) => Some(
                single(BuilderDataType::String(Cow::Owned(signed_text(*v)))),
            ),
            BuilderDataType::Unsigned(v) => Some(
                single(BuilderDataType::String(Cow::Owned(unsigned_text(*v)))),
            ),
            BuilderDataType::Number(v) => Some(single(BuilderDataType::Number(*v))),
            BuilderDataType::String(v) => Some(single(self.clone())),
            BuilderDataType::Mapping(v) => {
                assert(self@ == Term::Mapping(entries_of(v@)));
                if depth == 0 {
                    return None;
                }
                let ghost start = cells@;
                let ghost below = (depth - 1) as nat;
                let mut so_far = nothing();
                let mut i: usize = 0;
                while i < v.len()
                    invariant
                        i <= v.len(),
                        text_entries(arena@, cells@, entries_of(v@), i as int, terms_of(so_far@), below)
                            == text_entries(arena@, start, entries_of(v@), 0, no_text(), below),
                    decreases v.len() - i,
                {
                    let key = match v[i].0.to_string(arena, cells, depth - 1) {
                        None => {
                            return None;
                        },
                        Some(key) => key,
                    };
                    if !is_blank(&key) {
                        let value = match v[i].1.to_string(arena, cells, depth - 1) {
                            None => {
                                return None;
                            },
                            Some(value) => value,
                        };
                        if !is_blank(&value) {
                            if is_blank(&so_far) {
                                so_far = key;
                            } else {
                                extend(&mut so_far, ",", key);
                            }
                            extend(&mut so_far, ":", value);
                        }
                    }
                    i += 1;
                }
                Some(so_far)
            },
            BuilderDataType::List(v) => {
                assert(self@ == Term::List(terms_of(v@)));
                if depth == 0 {
                    return None;
                }
                let ghost start = cells@;
                let ghost below = (depth - 1) as nat;
                let mut so_far = nothing();
                let mut i: usize = 0;
                while i < v.len()
                    invariant
                        i <= v.len(),
                        text_items(arena@, cells@, terms_of(v@), i as int, terms_of(so_far@), below)
                            == text_items(arena@, start, terms_of(v@), 0, no_text(), below),
                    decreases v.len() - i,
                {
                    let item = match v[i].to_string(arena, cells, depth - 1) {
                        None => {
                            return None;
                        },
                        Some(item) => item,
                    };
                    if is_blank(&so_far) {
                        so_far = item;
                    } else if !is_blank(&item) {
                        extend(&mut so_far, ",", item);
                    }
                    i += 1;
                }
                Some(so_far)
            },
            BuilderDataType::Reference(h) | BuilderDataType::SelfReference(h) => {
                match arena.get(*h) {
                    None => Some(nothing()),
                    Some(target) => {
                        if depth == 0 {
                            None
                        } else {
                            target.to_string(arena, cells, depth - 1)
                        }
                    },
                }
            },
            BuilderDataType::Store(c) => {
                if depth == 0 {
                    if *c < cells.len() {
                        None
                    } else {
                        Some(nothing())
                    }
                } else {
                    match cells.read(*c) {
                        None => Some(nothing()),
                        Some(inner) => inner.to_string(arena, cells, depth - 1),
                    }
                }
            },
            BuilderDataType::Take(c) => {
                if depth == 0 {
                    if *c < cells.len() {
                        None
                    } else {
                        Some(nothing())
                    }
                } else {
                    match cells.take(*c) {
                        None => Some(nothing()),
                        Some(inner) => inner.to_string(arena, cells, depth - 1),
                    }
                }
            },
            _ => Some(nothing()),
        }
    }
}

} // verus!
