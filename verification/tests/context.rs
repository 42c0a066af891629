use data_builder::{Arena, BuilderDataType, BuilderError, Cells, Closure};
use std::borrow::Cow;

const DEPTH: usize = 16;

fn text(s: &'static str) -> BuilderDataType<'static> {
    BuilderDataType::String(Cow::Borrowed(s))
}

fn frame() -> Closure<'static> {
    Closure {
        args: vec![text("zero"), BuilderDataType::Integer(2), BuilderDataType::Boolean(false)],
        index: 0,
    }
}

#[test]
fn a_new_frame_is_fresh() {
    let closure = Closure::new();
    assert!(closure.args.is_empty());
    assert_eq!(closure.index, 0);
}

#[test]
fn get_argument_reads_a_slot() {
    let closure = frame();
    assert_eq!(closure.get_argument(0), Ok(&text("zero")));
    assert_eq!(closure.get_argument(2), Ok(&BuilderDataType::Boolean(false)));
    assert_eq!(closure.get_argument(3), Err(BuilderError::InvalidFunctionArgument));
}

#[test]
fn clone_argument_copies_a_slot() {
    let closure = frame();
    assert_eq!(closure.clone_argument(1), Ok(BuilderDataType::Integer(2)));
    assert_eq!(closure.clone_argument(9), Err(BuilderError::InvalidFunctionArgument));
    assert_eq!(closure.args, frame().args);
}

#[test]
fn take_from_argument_consumes_a_slot() {
    let mut closure = frame();
    assert_eq!(closure.take_from_argument(1), Ok(BuilderDataType::Integer(2)));
    assert_eq!(closure.take_from_argument(1), Ok(BuilderDataType::Integer(1)));
    assert_eq!(closure.args[1], BuilderDataType::Integer(0));
    assert_eq!(closure.take_from_argument(0), Ok(BuilderDataType::Empty));
    assert_eq!(closure.args[0], text("zero"));
    assert_eq!(closure.take_from_argument(3), Err(BuilderError::InvalidFunctionArgument));
}

#[test]
fn resolve_rewrites_computed_nodes() {
    let arena = Arena::new();
    let mut cells = Cells::new();
    let mut closure = frame();
    assert_eq!(
        closure.resolve(&arena, &mut cells, BuilderDataType::Argument(0), DEPTH),
        Ok(text("zero"))
    );
    assert_eq!(
        closure.resolve(&arena, &mut cells, BuilderDataType::TakeFromArgument(1), DEPTH),
        Ok(BuilderDataType::Integer(2))
    );
    assert_eq!(closure.args[1], BuilderDataType::Integer(1));
    assert_eq!(
        closure.resolve(
            &arena,
            &mut cells,
            BuilderDataType::IfThenElse(vec![
                BuilderDataType::Argument(2),
                text("then"),
                BuilderDataType::Argument(0),
            ]),
            DEPTH
        ),
        Ok(BuilderDataType::Argument(0))
    );
    assert_eq!(
        closure.resolve(&arena, &mut cells, BuilderDataType::PopArgument, DEPTH),
        Ok(BuilderDataType::PopArgument)
    );
    assert_eq!(
        closure.resolve(&arena, &mut cells, BuilderDataType::Argument(5), DEPTH),
        Err(BuilderError::InvalidFunctionArgument)
    );
    assert_eq!(closure.args.len(), 3);
}

#[test]
fn resolve_clone_agrees_with_resolve() {
    let arena = Arena::new();
    let nodes = vec![
        BuilderDataType::Argument(1),
        BuilderDataType::TakeFromArgument(1),
        BuilderDataType::TakeFromArgument(7),
        BuilderDataType::IfThenElse(vec![BuilderDataType::TakeFromArgument(1), text("a"), text("b")]),
        BuilderDataType::IfThenElse(vec![text("a")]),
        BuilderDataType::List(vec![BuilderDataType::Argument(0)]),
        BuilderDataType::Index,
    ];
    for node in nodes {
        let mut by_value = frame();
        let mut by_reference = frame();
        let mut cells = Cells::new();
        let owned = by_value.resolve(&arena, &mut cells, node.clone(), DEPTH);
        let cloned = by_reference.resolve_clone(&arena, &mut cells, &node, DEPTH);
        assert_eq!(owned, cloned);
        assert_eq!(by_value.args, by_reference.args);
    }
}

#[test]
fn resolve_to_bool_reads_through_the_frame() {
    let arena = Arena::new();
    let mut cells = Cells::new();
    let cell = cells.insert(BuilderDataType::Unsigned(1));
    let mut closure = frame();
    assert_eq!(
        closure.resolve_to_bool(&arena, &mut cells, &BuilderDataType::Argument(0), DEPTH),
        Ok(true)
    );
    assert_eq!(
        closure.resolve_to_bool(&arena, &mut cells, &BuilderDataType::Argument(2), DEPTH),
        Ok(false)
    );
    assert_eq!(closure.args[1], BuilderDataType::Integer(2));
    assert_eq!(
        closure.resolve_to_bool(&arena, &mut cells, &BuilderDataType::TakeFromArgument(1), DEPTH),
        Ok(true)
    );
    assert_eq!(closure.args[1], BuilderDataType::Integer(1));
    assert_eq!(
        closure.resolve_to_bool(&arena, &mut cells, &BuilderDataType::Take(cell), DEPTH),
        Ok(true)
    );
    assert_eq!(
        closure.resolve_to_bool(&arena, &mut cells, &BuilderDataType::Take(cell), DEPTH),
        Ok(false)
    );
    assert_eq!(
        closure.resolve_to_bool(
            &arena,
            &mut cells,
            &BuilderDataType::IfThenElse(vec![
                BuilderDataType::Argument(2),
                BuilderDataType::Integer(0),
                BuilderDataType::Integer(1),
            ]),
            DEPTH
        ),
        Ok(true)
    );
    assert_eq!(
        closure.resolve_to_bool(&arena, &mut cells, &BuilderDataType::Argument(3), DEPTH),
        Err(BuilderError::InvalidFunctionArgument)
    );
    assert_eq!(
        closure.resolve_to_bool(
            &arena,
            &mut cells,
            &BuilderDataType::IfThenElse(vec![text("a")]),
            DEPTH
        ),
        Err(BuilderError::InvalidFunctionArgument)
    );
    assert_eq!(
        closure.resolve_to_bool(&arena, &mut cells, &BuilderDataType::Argument(0), 0),
        Ok(true)
    );
    assert_eq!(
        closure.resolve_to_bool(&arena, &mut cells, &BuilderDataType::Take(cell), 0),
        Err(BuilderError::DepthExceeded)
    );
}

#[test]
fn conditionals_select_a_branch() {
    let arena = Arena::new();
    let mut cells = Cells::new();
    let mut closure = frame();
    let children = vec![BuilderDataType::TakeFromArgument(1), text("then"), text("else")];
    assert_eq!(closure.if_then_else_ref(&arena, &mut cells, &children, DEPTH), Ok(&text("then")));
    assert_eq!(closure.if_then_else(&arena, &mut cells, children.clone(), DEPTH), Ok(text("then")));
    assert_eq!(closure.if_then_else_ref(&arena, &mut cells, &children, DEPTH), Ok(&text("else")));
    assert_eq!(closure.if_then_else(&arena, &mut cells, children.clone(), DEPTH), Ok(text("else")));
    let extra = vec![
        BuilderDataType::Boolean(false),
        text("then"),
        text("else"),
        text("ignored"),
    ];
    assert_eq!(closure.if_then_else(&arena, &mut cells, extra, DEPTH), Ok(text("else")));
    assert_eq!(
        closure.if_then_else_ref(&arena, &mut cells, &children, 0),
        Err(BuilderError::DepthExceeded)
    );
}

#[test]
fn conditionals_need_three_children() {
    let arena = Arena::new();
    let mut cells = Cells::new();
    let mut closure = frame();
    for n in 0..3 {
        let children: Vec<BuilderDataType<'static>> =
            (0..n).map(|_| BuilderDataType::Boolean(true)).collect();
        assert_eq!(
            closure.if_then_else_ref(&arena, &mut cells, &children, DEPTH),
            Err(BuilderError::InvalidFunctionArgument)
        );
        assert_eq!(
            closure.if_then_else(&arena, &mut cells, children, DEPTH),
            Err(BuilderError::InvalidFunctionArgument)
        );
    }
}

#[test]
fn errors_render_as_text() {
    assert_eq!(BuilderError::InvalidMapAccess.to_string(), "Invalid map access sequence.");
    assert_eq!(
        BuilderError::InvalidDeserialization("missing field".to_owned()).to_string(),
        "Invalid deserialization: missing field"
    );
    assert_eq!(
        BuilderError::custom("missing field"),
        BuilderError::InvalidDeserialization("missing field".to_owned())
    );
    assert_eq!(BuilderError::custom("").to_string(), "Invalid deserialization: ");
    assert!(!BuilderError::InvalidFunctionArgument.to_string().is_empty());
    assert!(!BuilderError::InvalidSelfRefrence.to_string().is_empty());
    assert!(!BuilderError::Unimplemented.to_string().is_empty());
    assert!(!BuilderError::DepthExceeded.to_string().is_empty());
}

#[test]
fn arena_slots_are_alive_or_vacant() {
    let mut arena = Arena::new();
    assert_eq!(arena.len(), 0);
    assert_eq!(arena.get(0), None);
    let first = arena.insert(text("first"));
    let second = arena.reserve();
    assert_eq!((first, second), (0, 1));
    assert_eq!(arena.len(), 2);
    assert_eq!(arena.get(first), Some(&text("first")));
    assert_eq!(arena.get(second), None);
    assert!(arena.fill(second, text("second")));
    assert_eq!(arena.get(second), Some(&text("second")));
    assert!(!arena.fill(2, text("third")));
    assert_eq!(arena.len(), 2);
    arena.release(first);
    arena.release(5);
    assert_eq!(arena.get(first), None);
    assert_eq!(arena.len(), 2);
}

#[test]
fn cells_are_read_and_consumed() {
    let mut cells = Cells::new();
    assert_eq!(cells.len(), 0);
    let counter = cells.insert(BuilderDataType::Unsigned(2));
    assert_eq!(cells.len(), 1);
    assert_eq!(cells.get(counter), Some(&BuilderDataType::Unsigned(2)));
    assert_eq!(cells.read(counter), Some(BuilderDataType::Unsigned(2)));
    assert_eq!(cells.take(counter), Some(BuilderDataType::Unsigned(2)));
    assert_eq!(cells.get(counter), Some(&BuilderDataType::Unsigned(1)));
    assert_eq!(cells.get(1), None);
    assert_eq!(cells.read(1), None);
    assert_eq!(cells.take(1), None);
}

#[test]
fn clone_copies_a_tree() {
    let tree = BuilderDataType::Closure(vec![
        BuilderDataType::Mapping(vec![(
            text("k"),
            BuilderDataType::List(vec![
                BuilderDataType::String(Cow::Owned("owned".to_owned())),
                BuilderDataType::Number(0.5f64.to_bits()),
                BuilderDataType::Take(3),
            ]),
        )]),
        BuilderDataType::IfThenElse(vec![
            BuilderDataType::Argument(1),
            BuilderDataType::PopArgument,
            BuilderDataType::Repeat(vec![BuilderDataType::Unsigned(2), BuilderDataType::Index]),
        ]),
        BuilderDataType::Range(vec![BuilderDataType::Unique]),
    ]);
    assert_eq!(tree.clone(), tree);
    let borrowed = text("b").clone();
    assert!(matches!(borrowed, BuilderDataType::String(Cow::Borrowed("b"))));
}
