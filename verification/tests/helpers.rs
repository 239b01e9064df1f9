use terebinth::terebinth_ast::mut_visit::{visit_clobber, DummyAstNode};
use terebinth::terebinth_data_structures::{outline, FatalErrorMarker};
use terebinth::terebinth_serialize::int_overflow::{DebugStrictAdd, DebugStrictSub};

#[test]
fn strict_add_gives_the_sum() {
    assert_eq!(200u8.debug_strict_add(55), 255);
    assert_eq!((-7i64).debug_strict_add(3), -4);
    assert_eq!(usize::MAX.debug_strict_add(0), usize::MAX);
    assert_eq!(i128::MIN.debug_strict_add(i128::MAX), -1);
}

#[test]
fn strict_sub_gives_the_difference() {
    assert_eq!(10u32.debug_strict_sub(10), 0);
    assert_eq!((-5i32).debug_strict_sub(10), -15);
    assert_eq!(0i8.debug_strict_sub(-127), 127);
    assert_eq!(u128::MAX.debug_strict_sub(1), u128::MAX - 1);
}

#[test]
fn outline_runs_the_closure() {
    let base = 41;
    assert_eq!(outline(|| base + 1), 42);
    let _marker = FatalErrorMarker;
}

#[test]
fn visit_clobber_rewrites_in_place() {
    let mut node: Option<u32> = Some(20);
    visit_clobber(&mut node, |old| old.map(|v| v + 1));
    assert_eq!(node, Some(21));
    let placeholder: Option<u32> = DummyAstNode::dummy();
    assert_eq!(placeholder, None);
}
