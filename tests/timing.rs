use filetests::timers;
use filetests::{
    add_all_to_current, add_to_current, description_of, take_current, Pass, PassTime, PassTimes, Timing,
    NUM_PASSES,
};

#[test]
fn display() {
    assert_eq!(Pass::NoPass.to_string(), "<no pass>");
    assert_eq!(Pass::regalloc.to_string(), "Register allocation");
}

#[test]
fn indices_follow_the_catalogue() {
    assert_eq!(Pass::process_file.idx(), 0);
    assert_eq!(Pass::regalloc.idx(), 20);
    assert_eq!(Pass::layout_renumber.idx(), NUM_PASSES - 1);
    assert_eq!(Pass::NoPass.idx(), NUM_PASSES);
}

#[test]
fn descriptions_by_index() {
    assert_eq!(description_of(0), "Processing test file");
    assert_eq!(description_of(9), "Compilation passes");
    assert_eq!(description_of(NUM_PASSES), "<no pass>");
    assert_eq!(description_of(usize::MAX), "<no pass>");
    assert_eq!(Pass::verify_ir.description(), "Verify Cretonne IR");
}

#[test]
fn nested_passes_split_total_and_child() {
    let mut acc = Timing::new();
    let outer = timers::compile(&mut acc, 1_000);
    assert_eq!(acc.current_pass(), Pass::compile);
    let inner = timers::regalloc(&mut acc, 1_100);
    assert_eq!(acc.current_pass(), Pass::regalloc);
    acc.end_pass(inner, 1_300);
    assert_eq!(acc.current_pass(), Pass::compile);
    acc.end_pass(outer, 2_000);
    assert_eq!(acc.current_pass(), Pass::NoPass);
    let t = take_current(&mut acc);
    assert_eq!(t.get(Pass::compile), PassTime { total: 1_000, child: 200 });
    assert_eq!(t.get(Pass::regalloc), PassTime { total: 200, child: 0 });
    assert_eq!(t.get(Pass::gvn), PassTime { total: 0, child: 0 });
}

#[test]
fn same_pass_nested_in_itself() {
    let mut acc = Timing::new();
    let a = acc.start_pass(Pass::verify_ir, 0);
    let b = acc.start_pass(Pass::verify_ir, 10);
    acc.end_pass(b, 40);
    acc.end_pass(a, 100);
    let t = take_current(&mut acc);
    assert_eq!(t.get(Pass::verify_ir), PassTime { total: 130, child: 30 });
}

#[test]
fn out_of_order_release_is_detected() {
    let mut acc = Timing::new();
    let a = timers::compile(&mut acc, 0);
    let b = timers::legalize(&mut acc, 5);
    assert!(!acc.is_innermost(&a));
    assert!(acc.is_innermost(&b));
    assert_eq!(acc.current_pass(), Pass::legalize);
    acc.end_pass(b, 20);
    assert_eq!(acc.current_pass(), Pass::compile);
    assert!(acc.is_innermost(&a));
    acc.end_pass(a, 30);
    let t = take_current(&mut acc);
    assert_eq!(t.get(Pass::legalize), PassTime { total: 15, child: 0 });
    assert_eq!(t.get(Pass::compile), PassTime { total: 30, child: 15 });
}

#[test]
fn token_of_an_outer_pass_is_not_innermost() {
    let mut acc = Timing::new();
    let a = timers::dce(&mut acc, 0);
    let b = timers::gvn(&mut acc, 1);
    acc.end_pass(b, 2);
    let c = timers::licm(&mut acc, 3);
    assert!(!acc.is_innermost(&a));
    assert_eq!(acc.current_pass(), Pass::licm);
    acc.end_pass(c, 5);
    assert_eq!(acc.current_pass(), Pass::dce);
    assert!(acc.is_innermost(&a));
}

#[test]
fn earlier_timestamps_count_as_the_latest() {
    let mut acc = Timing::new();
    let a = timers::preopt(&mut acc, 500);
    acc.end_pass(a, 100);
    let t = take_current(&mut acc);
    assert_eq!(t.get(Pass::preopt), PassTime { total: 0, child: 0 });
}

#[test]
fn take_twice_gives_zero() {
    let mut acc = Timing::new();
    let a = timers::parse_text(&mut acc, 0);
    acc.end_pass(a, 7);
    let first = take_current(&mut acc);
    assert!(!first.is_zero());
    assert_eq!(first.get(Pass::parse_text).total, 7);
    let second = take_current(&mut acc);
    assert!(second.is_zero());
}

fn table_with(pass: Pass, start: u64, end: u64) -> PassTimes {
    let mut acc = Timing::new();
    let t = acc.start_pass(pass, start);
    acc.end_pass(t, end);
    take_current(&mut acc)
}

#[test]
fn merge_order_does_not_matter() {
    let t1 = table_with(Pass::domtree, 0, 30);
    let t2 = table_with(Pass::domtree, 0, 12);
    let t3 = table_with(Pass::flowgraph, 0, 5);
    let mut x = Timing::new();
    add_to_current(&mut x, &t1);
    add_to_current(&mut x, &t2);
    add_to_current(&mut x, &t3);
    let mut y = Timing::new();
    add_to_current(&mut y, &t3);
    add_to_current(&mut y, &t2);
    add_to_current(&mut y, &t1);
    let a = take_current(&mut x);
    let b = take_current(&mut y);
    for p in [Pass::domtree, Pass::flowgraph, Pass::gvn] {
        assert_eq!(a.get(p), b.get(p));
    }
    assert_eq!(a.get(Pass::domtree).total, 42);
    assert_eq!(a.get(Pass::flowgraph).total, 5);
}

#[test]
fn merge_saturates() {
    let big = table_with(Pass::binemit, 0, u64::MAX);
    let mut acc = Timing::new();
    add_to_current(&mut acc, &big);
    add_to_current(&mut acc, &big);
    let t = take_current(&mut acc);
    assert_eq!(t.get(Pass::binemit).total, u64::MAX);
}

#[test]
fn merge_into_running_accumulator() {
    let mut acc = Timing::new();
    let a = timers::compile(&mut acc, 0);
    add_to_current(&mut acc, &table_with(Pass::compile, 0, 3));
    acc.end_pass(a, 10);
    let t = take_current(&mut acc);
    assert_eq!(t.get(Pass::compile).total, 13);
}

#[test]
fn empty_report_has_only_frame() {
    let t = PassTimes::new();
    let expected = String::from("======== ========  ==================================\n")
        + "   Total     Self  Pass\n"
        + "-------- --------  ----------------------------------\n"
        + "======== ========  ==================================\n";
    assert_eq!(t.render(), expected);
}

#[test]
fn report_rounds_to_milliseconds() {
    let mut acc = Timing::new();
    let outer = timers::compile(&mut acc, 0);
    let inner = timers::regalloc(&mut acc, 1_000);
    acc.end_pass(inner, 234_001_000);
    acc.end_pass(outer, 1_234_567_890);
    let t = take_current(&mut acc);
    let expected = String::from("======== ========  ==================================\n")
        + "   Total     Self  Pass\n"
        + "-------- --------  ----------------------------------\n"
        + "   1.235    1.001  Compilation passes\n"
        + "   0.234    0.234  Register allocation\n"
        + "======== ========  ==================================\n";
    assert_eq!(t.render(), expected);
}

#[test]
fn report_half_millisecond_rounds_up() {
    let t = table_with(Pass::gvn, 0, 12_345_500_000);
    assert!(t.render().contains("  12.346   12.346  Global value numbering\n"));
    let t = table_with(Pass::gvn, 0, 499_999);
    assert!(t.render().contains("   0.000    0.000  Global value numbering\n"));
}

#[test]
fn end_all_closes_every_running_pass() {
    let mut acc = Timing::new();
    let _outer = timers::compile(&mut acc, 0);
    let _inner = timers::regalloc(&mut acc, 40);
    let _innermost = timers::ra_spilling(&mut acc, 50);
    acc.end_all(100);
    assert_eq!(acc.current_pass(), Pass::NoPass);
    let t = take_current(&mut acc);
    assert_eq!(t.get(Pass::ra_spilling), PassTime { total: 50, child: 0 });
    assert_eq!(t.get(Pass::regalloc), PassTime { total: 60, child: 50 });
    assert_eq!(t.get(Pass::compile), PassTime { total: 100, child: 60 });
    acc.end_all(200);
    assert!(take_current(&mut acc).is_zero());
}

#[test]
fn take_then_merge_back_restores() {
    let mut acc = Timing::new();
    let a = timers::gvn(&mut acc, 0);
    acc.end_pass(a, 9);
    let t = take_current(&mut acc);
    add_to_current(&mut acc, &t);
    add_to_current(&mut acc, &PassTimes::new());
    let back = take_current(&mut acc);
    assert_eq!(back.get(Pass::gvn), PassTime { total: 9, child: 0 });
}

#[test]
fn add_all_sums_every_table() {
    let tables = vec![
        table_with(Pass::dce, 0, 4),
        table_with(Pass::dce, 0, 6),
        table_with(Pass::licm, 0, 1),
    ];
    let mut acc = Timing::new();
    add_to_current(&mut acc, &table_with(Pass::dce, 0, 100));
    add_all_to_current(&mut acc, &tables);
    let t = take_current(&mut acc);
    assert_eq!(t.get(Pass::dce).total, 110);
    assert_eq!(t.get(Pass::licm).total, 1);
}
