use data_builder::scalar::{float_nonzero, float_to_signed, float_to_unsigned};
use data_builder::{Arena, BuilderDataType, Cells};
use std::borrow::Cow;

const DEPTH: usize = 16;

fn text(s: &'static str) -> BuilderDataType<'static> {
    BuilderDataType::String(Cow::Borrowed(s))
}

fn owned(s: &str) -> BuilderDataType<'static> {
    BuilderDataType::String(Cow::Owned(s.to_owned()))
}

fn number(v: f64) -> BuilderDataType<'static> {
    BuilderDataType::Number(v.to_bits())
}

fn truth(node: &BuilderDataType<'static>) -> Option<bool> {
    node.check_true(&Arena::new(), &mut Cells::new(), DEPTH)
}

fn unsigned(node: &BuilderDataType<'static>) -> Option<u64> {
    node.to_unsigned(&Arena::new(), &mut Cells::new(), DEPTH)
}

fn signed(node: &BuilderDataType<'static>) -> Option<i64> {
    node.to_signed(&Arena::new(), &mut Cells::new(), DEPTH)
}

fn rendered(node: &BuilderDataType<'static>) -> Vec<BuilderDataType<'static>> {
    node.to_string(&Arena::new(), &mut Cells::new(), DEPTH).unwrap()
}

fn sample_floats() -> Vec<f64> {
    vec![
        0.0,
        -0.0,
        1.0,
        -1.0,
        0.5,
        0.999_999_999_999,
        1.5,
        2.5,
        -2.5,
        123.456,
        -123.456,
        4_503_599_627_370_496.0,
        4_503_599_627_370_497.0,
        9_007_199_254_740_992.0,
        9_007_199_254_740_993.5,
        9_223_372_036_854_774_784.0,
        9_223_372_036_854_775_808.0,
        -9_223_372_036_854_775_808.0,
        -9_223_372_036_854_777_856.0,
        18_446_744_073_709_549_568.0,
        18_446_744_073_709_551_616.0,
        1e19,
        1e300,
        -1e300,
        f64::MAX,
        f64::MIN,
        f64::MIN_POSITIVE,
        f64::MIN_POSITIVE / 2.0,
        f64::EPSILON,
        f64::INFINITY,
        f64::NEG_INFINITY,
        f64::NAN,
    ]
}

#[test]
fn take_one_empty_stays_empty() {
    let mut node = BuilderDataType::Empty;
    assert_eq!(node.take_one(), BuilderDataType::Empty);
    assert_eq!(node, BuilderDataType::Empty);
}

#[test]
fn take_one_boolean_reads_true_once() {
    let mut node = BuilderDataType::Boolean(true);
    assert_eq!(node.take_one(), BuilderDataType::Boolean(true));
    assert_eq!(node, BuilderDataType::Boolean(false));
    assert_eq!(node.take_one(), BuilderDataType::Boolean(false));
    assert_eq!(node, BuilderDataType::Boolean(false));
}

#[test]
fn take_one_integer_counts_down_to_zero() {
    let mut node = BuilderDataType::Integer(2);
    assert_eq!(node.take_one(), BuilderDataType::Integer(2));
    assert_eq!(node.take_one(), BuilderDataType::Integer(1));
    assert_eq!(node.take_one(), BuilderDataType::Integer(0));
    assert_eq!(node.take_one(), BuilderDataType::Integer(0));
    assert_eq!(node, BuilderDataType::Integer(0));
}

#[test]
fn take_one_negative_integer_snaps_to_zero() {
    let mut node = BuilderDataType::Integer(-7);
    assert_eq!(node.take_one(), BuilderDataType::Integer(-7));
    assert_eq!(node, BuilderDataType::Integer(0));
    let mut least = BuilderDataType::Integer(i64::MIN);
    assert_eq!(least.take_one(), BuilderDataType::Integer(i64::MIN));
    assert_eq!(least, BuilderDataType::Integer(0));
}

#[test]
fn take_one_unsigned_saturates_at_zero() {
    let mut node = BuilderDataType::Unsigned(1);
    assert_eq!(node.take_one(), BuilderDataType::Unsigned(1));
    assert_eq!(node.take_one(), BuilderDataType::Unsigned(0));
    assert_eq!(node.take_one(), BuilderDataType::Unsigned(0));
    let mut most = BuilderDataType::Unsigned(u64::MAX);
    assert_eq!(most.take_one(), BuilderDataType::Unsigned(u64::MAX));
    assert_eq!(most, BuilderDataType::Unsigned(u64::MAX - 1));
}

#[test]
fn take_one_list_pops_the_tail() {
    let mut node = BuilderDataType::List(vec![text("a"), text("b")]);
    assert_eq!(node.take_one(), text("b"));
    assert_eq!(node, BuilderDataType::List(vec![text("a")]));
    assert_eq!(node.take_one(), text("a"));
    assert_eq!(node.take_one(), BuilderDataType::Empty);
    assert_eq!(node, BuilderDataType::List(vec![]));
}

#[test]
fn take_one_leaves_other_variants_unchanged() {
    let mut string = text("abc");
    assert_eq!(string.take_one(), BuilderDataType::Empty);
    assert_eq!(string, text("abc"));
    let mut num = number(2.0);
    assert_eq!(num.take_one(), BuilderDataType::Empty);
    assert_eq!(num, number(2.0));
    let mut mapping = BuilderDataType::Mapping(vec![(text("k"), text("v"))]);
    assert_eq!(mapping.take_one(), BuilderDataType::Empty);
    assert_eq!(mapping, BuilderDataType::Mapping(vec![(text("k"), text("v"))]));
    let mut repeat = BuilderDataType::Repeat(vec![BuilderDataType::Unsigned(2)]);
    assert_eq!(repeat.take_one(), BuilderDataType::Empty);
    assert_eq!(repeat, BuilderDataType::Repeat(vec![BuilderDataType::Unsigned(2)]));
}

#[test]
fn truth_of_scalars_and_containers() {
    assert_eq!(truth(&BuilderDataType::Empty), Some(false));
    assert_eq!(truth(&BuilderDataType::Boolean(true)), Some(true));
    assert_eq!(truth(&BuilderDataType::Boolean(false)), Some(false));
    assert_eq!(truth(&BuilderDataType::Integer(-1)), Some(true));
    assert_eq!(truth(&BuilderDataType::Integer(0)), Some(false));
    assert_eq!(truth(&BuilderDataType::Unsigned(5)), Some(true));
    assert_eq!(truth(&BuilderDataType::Unsigned(0)), Some(false));
    assert_eq!(truth(&text("x")), Some(true));
    assert_eq!(truth(&text("")), Some(false));
    assert_eq!(truth(&owned("")), Some(false));
    assert_eq!(truth(&BuilderDataType::List(vec![BuilderDataType::Empty])), Some(true));
    assert_eq!(truth(&BuilderDataType::List(vec![])), Some(false));
    assert_eq!(
        truth(&BuilderDataType::Mapping(vec![(BuilderDataType::Empty, BuilderDataType::Empty)])),
        Some(true)
    );
    assert_eq!(truth(&BuilderDataType::Mapping(vec![])), Some(false));
}

#[test]
fn truth_of_other_variants_is_false() {
    assert_eq!(truth(&BuilderDataType::Closure(vec![BuilderDataType::Boolean(true)])), Some(false));
    assert_eq!(truth(&BuilderDataType::Argument(0)), Some(false));
    assert_eq!(truth(&BuilderDataType::TakeFromArgument(0)), Some(false));
    assert_eq!(truth(&BuilderDataType::PopArgument), Some(false));
    assert_eq!(truth(&BuilderDataType::Index), Some(false));
    assert_eq!(truth(&BuilderDataType::Unique), Some(false));
    assert_eq!(truth(&BuilderDataType::Range(vec![BuilderDataType::Boolean(true)])), Some(false));
    assert_eq!(truth(&BuilderDataType::Sum(vec![BuilderDataType::Boolean(true)])), Some(false));
    assert_eq!(truth(&BuilderDataType::Multiply(vec![BuilderDataType::Boolean(true)])), Some(false));
}

#[test]
fn truth_of_numbers_matches_comparison_with_zero() {
    for v in sample_floats() {
        assert_eq!(float_nonzero(v.to_bits()), v != 0.0, "{}", v);
        assert_eq!(truth(&number(v)), Some(v != 0.0), "{}", v);
    }
}

#[test]
fn truth_reads_through_references_and_cells() {
    let mut arena = Arena::new();
    let mut cells = Cells::new();
    let shared = arena.insert(BuilderDataType::Integer(4));
    let vacant = arena.reserve();
    let cell = cells.insert(BuilderDataType::Unsigned(1));

    assert_eq!(BuilderDataType::Reference(shared).check_true(&arena, &mut cells, DEPTH), Some(true));
    assert_eq!(
        BuilderDataType::SelfReference(shared).check_true(&arena, &mut cells, DEPTH),
        Some(true)
    );
    assert_eq!(
        BuilderDataType::SelfReference(vacant).check_true(&arena, &mut cells, DEPTH),
        Some(false)
    );
    assert_eq!(BuilderDataType::Reference(99).check_true(&arena, &mut cells, DEPTH), Some(false));
    assert_eq!(BuilderDataType::Store(cell).check_true(&arena, &mut cells, DEPTH), Some(true));
    assert_eq!(cells.get(cell), Some(&BuilderDataType::Unsigned(1)));
    assert_eq!(BuilderDataType::Store(7).check_true(&arena, &mut cells, DEPTH), Some(false));
    assert_eq!(BuilderDataType::Take(7).check_true(&arena, &mut cells, DEPTH), Some(false));
}

#[test]
fn truth_through_take_consumes_the_cell() {
    let arena = Arena::new();
    let mut cells = Cells::new();
    let cell = cells.insert(BuilderDataType::Unsigned(2));
    let take = BuilderDataType::Take(cell);

    assert_eq!(take.check_true(&arena, &mut cells, DEPTH), Some(true));
    assert_eq!(cells.get(cell), Some(&BuilderDataType::Unsigned(1)));
    assert_eq!(take.check_true(&arena, &mut cells, DEPTH), Some(true));
    assert_eq!(cells.get(cell), Some(&BuilderDataType::Unsigned(0)));
    assert_eq!(take.check_true(&arena, &mut cells, DEPTH), Some(false));
    assert_eq!(cells.get(cell), Some(&BuilderDataType::Unsigned(0)));
}

#[test]
fn truth_of_repeat_reads_its_first_child() {
    assert_eq!(truth(&BuilderDataType::Repeat(vec![])), Some(false));
    assert_eq!(
        truth(&BuilderDataType::Repeat(vec![BuilderDataType::Unsigned(0), text("x")])),
        Some(false)
    );
    assert_eq!(truth(&BuilderDataType::Repeat(vec![BuilderDataType::Unsigned(3)])), Some(true));
}

#[test]
fn truth_of_conditional_reads_the_selected_branch() {
    let yes = BuilderDataType::IfThenElse(vec![
        BuilderDataType::Boolean(true),
        BuilderDataType::Integer(1),
        BuilderDataType::Integer(0),
    ]);
    let no = BuilderDataType::IfThenElse(vec![
        BuilderDataType::Boolean(false),
        BuilderDataType::Integer(1),
        BuilderDataType::Integer(0),
    ]);
    let other = BuilderDataType::IfThenElse(vec![
        BuilderDataType::Boolean(false),
        BuilderDataType::Integer(0),
        BuilderDataType::Integer(1),
    ]);
    let malformed = BuilderDataType::IfThenElse(vec![
        BuilderDataType::Boolean(true),
        BuilderDataType::Boolean(true),
    ]);
    assert_eq!(truth(&yes), Some(true));
    assert_eq!(truth(&no), Some(false));
    assert_eq!(truth(&other), Some(true));
    assert_eq!(truth(&malformed), Some(false));
}

#[test]
fn readings_run_out_of_depth() {
    let mut arena = Arena::new();
    let mut cells = Cells::new();
    let own = arena.reserve();
    assert!(arena.fill(own, BuilderDataType::SelfReference(own)));
    let knot = BuilderDataType::Reference(own);

    assert_eq!(knot.check_true(&arena, &mut cells, 50), None);
    assert_eq!(knot.to_unsigned(&arena, &mut cells, 50), None);
    assert_eq!(knot.to_signed(&arena, &mut cells, 50), None);
    assert_eq!(knot.to_float(&arena, &mut cells, 50), None);
    assert_eq!(knot.to_string(&arena, &mut cells, 50), None);
    assert_eq!(BuilderDataType::Integer(5).check_true(&arena, &mut cells, 0), Some(true));
    assert_eq!(BuilderDataType::Integer(5).to_unsigned(&arena, &mut cells, 0), Some(5));
    assert_eq!(
        BuilderDataType::List(vec![]).to_string(&arena, &mut cells, 0),
        None
    );
}

#[test]
fn depth_counts_the_hops_of_a_reading() {
    let mut arena = Arena::new();
    let mut cells = Cells::new();
    let first = arena.insert(BuilderDataType::Integer(9));
    let second = arena.insert(BuilderDataType::Reference(first));
    let node = BuilderDataType::Reference(second);

    assert_eq!(node.to_signed(&arena, &mut cells, 1), None);
    assert_eq!(node.to_signed(&arena, &mut cells, 2), Some(9));
    assert_eq!(node.check_true(&arena, &mut cells, 1), None);
    assert_eq!(node.check_true(&arena, &mut cells, 2), Some(true));
}

#[test]
fn unsigned_of_scalars() {
    assert_eq!(unsigned(&BuilderDataType::Empty), Some(0));
    assert_eq!(unsigned(&BuilderDataType::Boolean(true)), Some(1));
    assert_eq!(unsigned(&BuilderDataType::Boolean(false)), Some(0));
    assert_eq!(unsigned(&BuilderDataType::Integer(17)), Some(17));
    assert_eq!(unsigned(&BuilderDataType::Integer(-17)), Some(0));
    assert_eq!(unsigned(&BuilderDataType::Integer(i64::MIN)), Some(0));
    assert_eq!(unsigned(&BuilderDataType::Integer(i64::MAX)), Some(9_223_372_036_854_775_807));
    assert_eq!(unsigned(&BuilderDataType::Unsigned(u64::MAX)), Some(u64::MAX));
    assert_eq!(unsigned(&BuilderDataType::Index), Some(0));
    assert_eq!(unsigned(&BuilderDataType::Argument(3)), Some(0));
    assert_eq!(
        unsigned(&BuilderDataType::IfThenElse(vec![
            BuilderDataType::Boolean(true),
            BuilderDataType::Unsigned(5),
            BuilderDataType::Unsigned(6),
        ])),
        Some(0)
    );
}

#[test]
fn unsigned_of_containers_is_their_length() {
    assert_eq!(unsigned(&BuilderDataType::List(vec![text("a"), text("b"), text("c")])), Some(3));
    assert_eq!(unsigned(&BuilderDataType::List(vec![])), Some(0));
    assert_eq!(
        unsigned(&BuilderDataType::Mapping(vec![(text("a"), text("b")), (text("c"), text("d"))])),
        Some(2)
    );
}

#[test]
fn unsigned_of_text_is_parsed() {
    assert_eq!(unsigned(&text("42")), Some(42));
    assert_eq!(unsigned(&owned("42")), Some(42));
    assert_eq!(unsigned(&text("+42")), Some(42));
    assert_eq!(unsigned(&text("007")), Some(7));
    assert_eq!(unsigned(&text("0")), Some(0));
    assert_eq!(unsigned(&text("18446744073709551615")), Some(u64::MAX));
    assert_eq!(unsigned(&text("18446744073709551616")), Some(0));
    assert_eq!(unsigned(&text("-1")), Some(0));
    assert_eq!(unsigned(&text("-0")), Some(0));
    assert_eq!(unsigned(&text("")), Some(0));
    assert_eq!(unsigned(&text("+")), Some(0));
    assert_eq!(unsigned(&text(" 42")), Some(0));
    assert_eq!(unsigned(&text("42 ")), Some(0));
    assert_eq!(unsigned(&text("4_2")), Some(0));
    assert_eq!(unsigned(&text("forty")), Some(0));
    assert_eq!(unsigned(&text("1.5")), Some(0));
}

#[test]
fn unsigned_of_numbers_matches_the_cast() {
    for v in sample_floats() {
        let expected = if v.is_sign_positive() && v.is_normal() { v as u64 } else { 0 };
        assert_eq!(float_to_unsigned(v.to_bits()), expected, "{}", v);
        assert_eq!(unsigned(&number(v)), Some(expected), "{}", v);
    }
    assert_eq!(unsigned(&number(2.75)), Some(2));
    assert_eq!(unsigned(&number(-2.75)), Some(0));
    assert_eq!(unsigned(&number(1e30)), Some(u64::MAX));
}

#[test]
fn signed_of_scalars() {
    assert_eq!(signed(&BuilderDataType::Empty), Some(0));
    assert_eq!(signed(&BuilderDataType::Boolean(true)), Some(1));
    assert_eq!(signed(&BuilderDataType::Boolean(false)), Some(0));
    assert_eq!(signed(&BuilderDataType::Integer(-17)), Some(-17));
    assert_eq!(signed(&BuilderDataType::Unsigned(17)), Some(17));
    assert_eq!(signed(&BuilderDataType::Unsigned(u64::MAX)), Some(i64::MAX));
    assert_eq!(signed(&BuilderDataType::Unsigned(9_223_372_036_854_775_807)), Some(i64::MAX));
    assert_eq!(signed(&BuilderDataType::Unsigned(9_223_372_036_854_775_808)), Some(i64::MAX));
    assert_eq!(signed(&BuilderDataType::List(vec![text("a"), text("b")])), Some(2));
    assert_eq!(signed(&BuilderDataType::Mapping(vec![(text("a"), text("b"))])), Some(1));
    assert_eq!(signed(&BuilderDataType::PopArgument), Some(0));
}

#[test]
fn signed_of_text_is_parsed() {
    assert_eq!(signed(&text("42")), Some(42));
    assert_eq!(signed(&text("+42")), Some(42));
    assert_eq!(signed(&text("-42")), Some(-42));
    assert_eq!(signed(&text("-0")), Some(0));
    assert_eq!(signed(&text("9223372036854775807")), Some(i64::MAX));
    assert_eq!(signed(&text("9223372036854775808")), Some(0));
    assert_eq!(signed(&text("-9223372036854775808")), Some(i64::MIN));
    assert_eq!(signed(&text("-9223372036854775809")), Some(0));
    assert_eq!(signed(&text("")), Some(0));
    assert_eq!(signed(&text("-")), Some(0));
    assert_eq!(signed(&text("+")), Some(0));
    assert_eq!(signed(&text("--1")), Some(0));
    assert_eq!(signed(&text("+-1")), Some(0));
    assert_eq!(signed(&text(" 1")), Some(0));
    assert_eq!(signed(&text("1e3")), Some(0));
}

#[test]
fn signed_of_numbers_matches_the_cast() {
    for v in sample_floats() {
        let expected = if v.is_normal() { v as i64 } else { 0 };
        assert_eq!(float_to_signed(v.to_bits()), expected, "{}", v);
        assert_eq!(signed(&number(v)), Some(expected), "{}", v);
    }
    assert_eq!(signed(&number(-2.75)), Some(-2));
    assert_eq!(signed(&number(1e30)), Some(i64::MAX));
    assert_eq!(signed(&number(-1e30)), Some(i64::MIN));
}

#[test]
fn numeric_readings_go_through_handles_and_repeat() {
    let mut arena = Arena::new();
    let mut cells = Cells::new();
    let shared = arena.insert(text("12"));
    let vacant = arena.reserve();
    let cell = cells.insert(BuilderDataType::Integer(3));

    assert_eq!(BuilderDataType::Reference(shared).to_unsigned(&arena, &mut cells, DEPTH), Some(12));
    assert_eq!(BuilderDataType::SelfReference(shared).to_signed(&arena, &mut cells, DEPTH), Some(12));
    assert_eq!(BuilderDataType::SelfReference(vacant).to_unsigned(&arena, &mut cells, DEPTH), Some(0));
    assert_eq!(BuilderDataType::Store(cell).to_signed(&arena, &mut cells, DEPTH), Some(3));
    assert_eq!(cells.get(cell), Some(&BuilderDataType::Integer(3)));
    assert_eq!(BuilderDataType::Take(cell).to_unsigned(&arena, &mut cells, DEPTH), Some(3));
    assert_eq!(cells.get(cell), Some(&BuilderDataType::Integer(2)));
    assert_eq!(BuilderDataType::Take(cell).to_signed(&arena, &mut cells, DEPTH), Some(2));
    assert_eq!(cells.get(cell), Some(&BuilderDataType::Integer(1)));
    let repeat = BuilderDataType::Repeat(vec![BuilderDataType::Reference(shared), text("x")]);
    assert_eq!(repeat.to_unsigned(&arena, &mut cells, DEPTH), Some(12));
    assert_eq!(repeat.to_signed(&arena, &mut cells, DEPTH), Some(12));
    assert_eq!(BuilderDataType::Repeat(vec![]).to_unsigned(&arena, &mut cells, DEPTH), Some(0));
}

#[test]
fn float_reading_hands_out_its_source() {
    let arena = Arena::new();
    let mut cells = Cells::new();
    let float = |node: BuilderDataType<'static>, cells: &mut Cells<'static>| {
        node.to_float(&arena, cells, DEPTH)
    };
    assert_eq!(float(BuilderDataType::Empty, &mut cells), Some(BuilderDataType::Unsigned(0)));
    assert_eq!(float(BuilderDataType::Boolean(true), &mut cells), Some(BuilderDataType::Unsigned(1)));
    assert_eq!(float(BuilderDataType::Boolean(false), &mut cells), Some(BuilderDataType::Unsigned(0)));
    assert_eq!(float(BuilderDataType::Integer(-3), &mut cells), Some(BuilderDataType::Integer(-3)));
    assert_eq!(float(BuilderDataType::Unsigned(3), &mut cells), Some(BuilderDataType::Unsigned(3)));
    assert_eq!(float(number(2.5), &mut cells), Some(number(2.5)));
    assert_eq!(float(text("2.5"), &mut cells), Some(text("2.5")));
    assert_eq!(
        float(BuilderDataType::List(vec![text("a"), text("b")]), &mut cells),
        Some(BuilderDataType::Unsigned(2))
    );
    assert_eq!(
        float(BuilderDataType::Mapping(vec![(text("a"), text("b"))]), &mut cells),
        Some(BuilderDataType::Unsigned(1))
    );
    assert_eq!(float(BuilderDataType::Index, &mut cells), Some(BuilderDataType::Unsigned(0)));
    assert_eq!(
        float(BuilderDataType::Repeat(vec![number(7.0), text("x")]), &mut cells),
        Some(number(7.0))
    );
    let cell = cells.insert(BuilderDataType::Integer(3));
    assert_eq!(float(BuilderDataType::Take(cell), &mut cells), Some(BuilderDataType::Integer(3)));
    assert_eq!(cells.get(cell), Some(&BuilderDataType::Integer(2)));
}

#[test]
fn text_of_scalars() {
    assert_eq!(rendered(&BuilderDataType::Empty), vec![owned("")]);
    assert_eq!(rendered(&BuilderDataType::Boolean(true)), vec![text("true")]);
    assert_eq!(rendered(&BuilderDataType::Boolean(false)), vec![text("false")]);
    assert_eq!(rendered(&BuilderDataType::Integer(0)), vec![owned("0")]);
    assert_eq!(rendered(&BuilderDataType::Integer(-45)), vec![owned("-45")]);
    assert_eq!(rendered(&BuilderDataType::Integer(1234567890)), vec![owned("1234567890")]);
    assert_eq!(
        rendered(&BuilderDataType::Integer(i64::MIN)),
        vec![owned("-9223372036854775808")]
    );
    assert_eq!(rendered(&BuilderDataType::Unsigned(0)), vec![owned("0")]);
    assert_eq!(rendered(&BuilderDataType::Unsigned(10)), vec![owned("10")]);
    assert_eq!(
        rendered(&BuilderDataType::Unsigned(u64::MAX)),
        vec![owned("18446744073709551615")]
    );
    assert_eq!(rendered(&number(1.5)), vec![number(1.5)]);
    assert_eq!(rendered(&text("abc")), vec![text("abc")]);
    assert_eq!(rendered(&BuilderDataType::Index), vec![owned("")]);
    assert_eq!(rendered(&BuilderDataType::Repeat(vec![text("a")])), vec![owned("")]);
}

#[test]
fn text_keeps_borrowed_text_borrowed() {
    let borrowed = rendered(&text("abc"));
    assert!(matches!(&borrowed[0], BuilderDataType::String(Cow::Borrowed("abc"))));
    let kept = rendered(&owned("abc"));
    assert!(matches!(&kept[0], BuilderDataType::String(Cow::Owned(_))));
    let truth = rendered(&BuilderDataType::Boolean(true));
    assert!(matches!(&truth[0], BuilderDataType::String(Cow::Borrowed("true"))));
    let count = rendered(&BuilderDataType::Unsigned(3));
    assert!(matches!(&count[0], BuilderDataType::String(Cow::Owned(_))));
}

#[test]
fn text_of_a_list_joins_with_commas() {
    let list = BuilderDataType::List(vec![
        BuilderDataType::Integer(1),
        text("two"),
        BuilderDataType::Boolean(true),
    ]);
    assert_eq!(
        rendered(&list),
        vec![owned("1"), text(","), text("two"), text(","), text("true")]
    );
    assert_eq!(rendered(&BuilderDataType::List(vec![])), vec![owned("")]);
}

#[test]
fn text_of_a_list_skips_what_renders_empty() {
    let list = BuilderDataType::List(vec![
        BuilderDataType::Empty,
        text(""),
        text("a"),
        BuilderDataType::Empty,
        text("b"),
        text(""),
    ]);
    assert_eq!(rendered(&list), vec![text("a"), text(","), text("b")]);
    let single = BuilderDataType::List(vec![text(""), text("only")]);
    let out = rendered(&single);
    assert_eq!(out, vec![text("only")]);
    assert!(matches!(&out[0], BuilderDataType::String(Cow::Borrowed("only"))));
    assert_eq!(rendered(&BuilderDataType::List(vec![text(""), text("")])), vec![text("")]);
}

#[test]
fn text_of_a_mapping_joins_entries() {
    let mapping = BuilderDataType::Mapping(vec![
        (text("a"), BuilderDataType::Integer(1)),
        (text("b"), number(2.5)),
    ]);
    assert_eq!(
        rendered(&mapping),
        vec![text("a"), text(":"), owned("1"), text(","), text("b"), text(":"), number(2.5)]
    );
    assert_eq!(rendered(&BuilderDataType::Mapping(vec![])), vec![owned("")]);
}

#[test]
fn text_of_a_mapping_skips_empty_keys_and_values() {
    let mapping = BuilderDataType::Mapping(vec![
        (text(""), text("lost")),
        (text("k"), text("")),
        (text("x"), text("y")),
        (BuilderDataType::Empty, text("lost")),
    ]);
    assert_eq!(rendered(&mapping), vec![text("x"), text(":"), text("y")]);
}

#[test]
fn text_of_a_mapping_does_not_read_the_value_of_an_empty_key() {
    let arena = Arena::new();
    let mut cells = Cells::new();
    let cell = cells.insert(BuilderDataType::Unsigned(5));
    let mapping = BuilderDataType::Mapping(vec![
        (text(""), BuilderDataType::Take(cell)),
        (text("k"), BuilderDataType::Take(cell)),
    ]);
    let out = mapping.to_string(&arena, &mut cells, DEPTH).unwrap();
    assert_eq!(out, vec![text("k"), text(":"), owned("5")]);
    assert_eq!(cells.get(cell), Some(&BuilderDataType::Unsigned(4)));
}

#[test]
fn text_of_nested_containers() {
    let nested = BuilderDataType::List(vec![
        BuilderDataType::List(vec![text("a"), text("b")]),
        BuilderDataType::Mapping(vec![(text("k"), text("v"))]),
    ]);
    assert_eq!(
        rendered(&nested),
        vec![text("a"), text(","), text("b"), text(","), text("k"), text(":"), text("v")]
    );
}

#[test]
fn text_reads_through_handles() {
    let mut arena = Arena::new();
    let mut cells = Cells::new();
    let shared = arena.insert(text("shared"));
    let vacant = arena.reserve();
    let cell = cells.insert(BuilderDataType::List(vec![text("first"), text("last")]));

    assert_eq!(
        BuilderDataType::Reference(shared).to_string(&arena, &mut cells, DEPTH),
        Some(vec![text("shared")])
    );
    assert_eq!(
        BuilderDataType::SelfReference(vacant).to_string(&arena, &mut cells, DEPTH),
        Some(vec![owned("")])
    );
    assert_eq!(
        BuilderDataType::Store(cell).to_string(&arena, &mut cells, DEPTH),
        Some(vec![text("first"), text(","), text("last")])
    );
    assert_eq!(
        BuilderDataType::Take(cell).to_string(&arena, &mut cells, DEPTH),
        Some(vec![text("last")])
    );
    assert_eq!(cells.get(cell), Some(&BuilderDataType::List(vec![text("first")])));
}

#[test]
fn number_readings_match_the_casts_on_many_bit_patterns() {
    let mut state: u64 = 0x9E37_79B9_7F4A_7C15;
    for round in 0..200_000u64 {
        state = state
            .wrapping_mul(6_364_136_223_846_793_005)
            .wrapping_add(1_442_695_040_888_963_407);
        let mut bits = state ^ (state >> 29);
        if round % 4 == 1 {
            // Exponents around the range of the integers.
            let exponent = 1000 + (state >> 52) % 120;
            bits = (bits & 0x800F_FFFF_FFFF_FFFF) | (exponent << 52);
        }
        let v = f64::from_bits(bits);
        let unsigned = if v.is_sign_positive() && v.is_normal() { v as u64 } else { 0 };
        let signed = if v.is_normal() { v as i64 } else { 0 };
        assert_eq!(float_to_unsigned(bits), unsigned, "{:#x}", bits);
        assert_eq!(float_to_signed(bits), signed, "{:#x}", bits);
        assert_eq!(float_nonzero(bits), v != 0.0, "{:#x}", bits);
    }
}

#[test]
fn integers_render_and_parse_back() {
    let arena = Arena::new();
    let mut cells = Cells::new();
    let mut state: u64 = 7;
    for round in 0..2_000u64 {
        state = state
            .wrapping_mul(6_364_136_223_846_793_005)
            .wrapping_add(1_442_695_040_888_963_407);
        let shift = (round % 64) as u32;
        let v = state >> shift;
        let rendered = BuilderDataType::Unsigned(v).to_string(&arena, &mut cells, DEPTH).unwrap();
        assert_eq!(rendered, vec![owned(&v.to_string())]);
        assert_eq!(rendered[0].to_unsigned(&arena, &mut cells, DEPTH), Some(v));
        let i = (state as i64) >> shift;
        let rendered = BuilderDataType::Integer(i).to_string(&arena, &mut cells, DEPTH).unwrap();
        assert_eq!(rendered, vec![owned(&i.to_string())]);
        assert_eq!(rendered[0].to_signed(&arena, &mut cells, DEPTH), Some(i));
    }
}
