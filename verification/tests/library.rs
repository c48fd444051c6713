// Tests of the library beyond the frozen witnesses: scope boundaries, exact
// outputs, and the concrete faces of its laws.

use im_etna::adapters::{
    check_eq_single_chunk, check_path_next_backtrack, check_ptr_eq_precedence,
    check_range_off_by_one, check_rrb_debug_pop, check_rrb_density_check, prop_eq_single_chunk,
    prop_path_next_backtrack, prop_ptr_eq_precedence, prop_range_off_by_one, prop_rrb_debug_pop,
    all_properties, run_all, run_bounded, run_seeded, run_status, seeded_elements, seeded_eq_input, seeded_eq_single_chunk,
    seeded_path_next_backtrack, to_err, to_opt, BoundedRun, RunEnd, SeededProperty, LCG_MULTIPLIER,
};
use im_etna::properties::{
    property_eq_single_chunk, property_path_next_backtrack, property_ptr_eq_precedence,
    property_range_off_by_one, property_rrb_debug_pop, PropertyResult,
};
use im_etna::report::{json_line, json_str, Metrics};
use im_etna::text::{push_decimal, push_signed_decimal};

fn is_pass(r: &PropertyResult) -> bool {
    matches!(r, PropertyResult::Pass)
}

fn is_discard(r: &PropertyResult) -> bool {
    matches!(r, PropertyResult::Discard)
}

#[test]
fn range_off_by_one_discards_empty_size() {
    assert!(is_discard(&property_range_off_by_one(0, 5)));
    assert!(is_discard(&property_range_off_by_one(0, u32::MAX)));
}

#[test]
fn range_off_by_one_holds_at_edges() {
    assert!(is_pass(&property_range_off_by_one(1, 0)));
    assert!(is_pass(&property_range_off_by_one(4095, 8191)));
    assert!(is_pass(&property_range_off_by_one(4096, 1)));
    assert!(is_pass(&property_range_off_by_one(u32::MAX, u32::MAX)));
}

#[test]
fn eq_single_chunk_scope() {
    assert!(is_pass(&property_eq_single_chunk(Vec::new())));
    assert!(is_pass(&property_eq_single_chunk((0..32).collect())));
    assert!(is_pass(&property_eq_single_chunk((0..60).map(|i| -i).collect())));
    assert!(is_discard(&property_eq_single_chunk((0..61).collect())));
    assert!(is_discard(&property_eq_single_chunk((0..200).collect())));
}

#[test]
fn ptr_eq_precedence_holds_at_edges() {
    assert!(is_pass(&property_ptr_eq_precedence(0, 0)));
    assert!(is_pass(&property_ptr_eq_precedence(895, 1150)));
    assert!(is_pass(&property_ptr_eq_precedence(u32::MAX, u32::MAX)));
}

#[test]
fn rrb_debug_pop_holds_at_edges() {
    assert!(is_pass(&property_rrb_debug_pop(0)));
    assert!(is_pass(&property_rrb_debug_pop(2047)));
}

#[test]
fn path_next_backtrack_holds_for_other_windows() {
    assert!(is_pass(&property_path_next_backtrack(0, 0, 0)));
    assert!(is_pass(&property_path_next_backtrack(7, 319, 255)));
}

#[test]
fn to_opt_maps_each_outcome() {
    assert_eq!(to_opt(PropertyResult::Pass), Some(true));
    assert_eq!(to_opt(PropertyResult::Fail("broken".to_string())), Some(false));
    assert_eq!(to_opt(PropertyResult::Discard), None);
}

#[test]
fn to_err_keeps_the_failure_message() {
    assert_eq!(to_err(PropertyResult::Pass), Ok(()));
    assert_eq!(to_err(PropertyResult::Discard), Ok(()));
    assert_eq!(to_err(PropertyResult::Fail("broken".to_string())), Err("broken".to_string()));
}

#[test]
fn frozen_witnesses_hold() {
    assert_eq!(check_path_next_backtrack(), Ok(()));
    assert_eq!(check_range_off_by_one(), Ok(()));
    assert_eq!(check_rrb_debug_pop(), Ok(()));
    assert_eq!(check_rrb_density_check(), Ok(()));
    assert_eq!(check_ptr_eq_precedence(), Ok(()));
    assert_eq!(check_eq_single_chunk(), Ok(()));
}

#[test]
fn seeded_elements_follow_the_generator() {
    let xs = seeded_elements(4, 1);
    let mut x: u64 = 1;
    let mut expected = Vec::new();
    for _ in 0..4 {
        expected.push(x as i32);
        x = x.wrapping_mul(LCG_MULTIPLIER).wrapping_add(1);
    }
    assert_eq!(xs, expected);
    assert_eq!(xs[0], 1);
    assert_eq!(xs[1], 6364136223846793006u64 as i32);
    assert_eq!(seeded_elements(0, 99), Vec::<i32>::new());
}

#[test]
fn seeded_eq_input_lengths() {
    assert_eq!(seeded_eq_input(0, 5).len(), 32);
    assert_eq!(seeded_eq_input(28, 5).len(), 60);
    assert_eq!(seeded_eq_input(29, 5).len(), 32);
    assert_eq!(seeded_eq_input(0, 5)[0], 5);
}

#[test]
fn seed_projections() {
    assert_eq!(prop_range_off_by_one((0, 5)), None);
    assert_eq!(prop_range_off_by_one((1, 5)), Some(true));
    assert_eq!(prop_ptr_eq_precedence((3, 9)), Some(true));
    assert_eq!(prop_rrb_debug_pop(77), Some(true));
    assert_eq!(prop_eq_single_chunk(12345), Some(true));
    assert_eq!(prop_path_next_backtrack(3), Some(true));
    assert_eq!(seeded_path_next_backtrack(2), Some(true));
    assert_eq!(seeded_eq_single_chunk(40), Some(true));
}

#[test]
fn bounded_sweep_counts_every_seed() {
    let run: BoundedRun = run_bounded(6, |s| run_seeded(&SeededProperty::EqSingleChunk, s));
    assert_eq!(run.passed, 6);
    assert_eq!(run.discarded, 0);
    assert_eq!(run.failed_at, None);
    let none: BoundedRun = run_bounded(0, |s| run_seeded(&SeededProperty::PathNextBacktrack, s));
    assert_eq!(none.passed, 0);
    assert_eq!(run_seeded(&SeededProperty::EqSingleChunk, 1), Some(true));
}

#[test]
fn bounded_sweep_stops_at_the_first_failure() {
    let calls = std::cell::RefCell::new(Vec::new());
    let answers = [Some(true), None, Some(false), Some(true), Some(false)];
    let run = run_bounded(5, |s| {
        calls.borrow_mut().push(s);
        answers[s as usize]
    });
    assert_eq!(run.passed, 1);
    assert_eq!(run.discarded, 1);
    assert_eq!(run.failed_at, Some(2));
    assert_eq!(*calls.borrow(), vec![0, 1, 2]);
    let all_discarded = run_bounded(4, |_| None);
    assert_eq!(all_discarded.passed, 0);
    assert_eq!(all_discarded.discarded, 4);
    assert_eq!(all_discarded.failed_at, None);
}

#[test]
fn decimal_rendering() {
    let mut s = String::new();
    push_decimal(&mut s, 0);
    assert_eq!(s, "0");
    let mut s = String::from("n=");
    push_decimal(&mut s, 1234567890);
    assert_eq!(s, "n=1234567890");
    let mut s = String::new();
    push_decimal(&mut s, u128::MAX);
    assert_eq!(s, u128::MAX.to_string());
    let mut s = String::new();
    push_signed_decimal(&mut s, -42);
    assert_eq!(s, "-42");
    let mut s = String::new();
    push_signed_decimal(&mut s, i64::MIN);
    assert_eq!(s, "-9223372036854775808");
}

#[test]
fn json_str_escapes() {
    assert_eq!(json_str("plain"), "\"plain\"");
    assert_eq!(json_str(""), "\"\"");
    assert_eq!(json_str("a\"b\\c"), "\"a\\\"b\\\\c\"");
    assert_eq!(json_str("x\ny\rz\t"), "\"x\\ny\\rz\\t\"");
    assert_eq!(json_str("\u{1}\u{1f}\u{7f}"), "\"\\u0001\\u001f\u{7f}\"");
    assert_eq!(json_str("é✓"), "\"é✓\"");
}

#[test]
fn metrics_combine_and_default() {
    let zero = Metrics::default();
    assert_eq!(zero.inputs, 0);
    assert_eq!(zero.elapsed_us, 0);
    let a = Metrics { inputs: 3, elapsed_us: 1000 };
    let b = Metrics { inputs: 4, elapsed_us: 25 };
    let c = a.combine(b);
    assert_eq!(c.inputs, 7);
    assert_eq!(c.elapsed_us, 1025);
}

#[test]
fn json_line_shape() {
    let m = Metrics { inputs: 64, elapsed_us: 1234 };
    assert_eq!(
        json_line("proptest", "RangeOffByOne", "passed", m, None, None),
        "{\"status\":\"passed\",\"tests\":64,\"discards\":0,\"time\":\"1234us\",\"counterexample\":null,\"error\":null,\"tool\":\"proptest\",\"property\":\"RangeOffByOne\"}"
    );
    assert_eq!(
        json_line("etna", "All", "failed", Metrics::default(), Some("bad \"x\""), Some("e")),
        "{\"status\":\"failed\",\"tests\":0,\"discards\":0,\"time\":\"0us\",\"counterexample\":\"bad \\\"x\\\"\",\"error\":\"e\",\"tool\":\"etna\",\"property\":\"All\"}"
    );
}

#[test]
fn json_line_is_one_line() {
    let line = json_line(
        "t\nool",
        "p\r\nq",
        "fa\u{0}iled",
        Metrics { inputs: u64::MAX, elapsed_us: u128::MAX },
        Some("line one\nline two"),
        Some("\t"),
    );
    assert!(!line.contains('\n'));
    assert!(line.chars().all(|c| (c as u32) >= 0x20));
    assert_eq!(line.lines().count(), 1);
}

#[test]
fn run_endings_as_results() {
    assert_eq!(run_status("crabcheck", RunEnd::Passed), Ok(()));
    assert_eq!(
        run_status("crabcheck", RunEnd::Failed("7".to_string())),
        Err("crabcheck failed with counterexample: (7)".to_string())
    );
    assert_eq!(
        run_status("crabcheck", RunEnd::TimedOut),
        Err("crabcheck timed out".to_string())
    );
    assert_eq!(
        run_status("crabcheck", RunEnd::GaveUp(12, 340)),
        Err("crabcheck gave up: passed=12, discarded=340".to_string())
    );
    assert_eq!(
        run_status("quickcheck", RunEnd::Aborted("boom".to_string())),
        Err("quickcheck aborted: boom".to_string())
    );
}

// A small JSON string decoder, to check that json_str's output decodes back.
fn decode_json_literal(lit: &str) -> String {
    let chars: Vec<char> = lit.chars().collect();
    assert_eq!(chars.first(), Some(&'"'));
    assert_eq!(chars.last(), Some(&'"'));
    let inner = &chars[1..chars.len() - 1];
    let mut out = String::new();
    let mut i = 0;
    while i < inner.len() {
        if inner[i] == '\\' {
            match inner[i + 1] {
                'n' => { out.push('\n'); i += 2; }
                'r' => { out.push('\r'); i += 2; }
                't' => { out.push('\t'); i += 2; }
                'u' => {
                    let hex: String = inner[i + 2..i + 6].iter().collect();
                    out.push(char::from_u32(u32::from_str_radix(&hex, 16).unwrap()).unwrap());
                    i += 6;
                }
                c => { out.push(c); i += 2; }
            }
        } else {
            assert!(inner[i] != '"' && (inner[i] as u32) >= 0x20);
            out.push(inner[i]);
            i += 1;
        }
    }
    out
}

#[test]
fn json_str_decodes_back() {
    for s in ["", "plain", "a\"b\\c", "x\ny\rz\t", "\u{0}\u{1}\u{1f} \u{7f}", "é✓\"\\u0041"] {
        assert_eq!(decode_json_literal(&json_str(s)), s);
    }
    assert_eq!(json_str("no specials here"), "\"no specials here\"");
}

fn one_input_each(p: &str) -> (Result<(), String>, Metrics) {
    (Ok(()), Metrics { inputs: p.len() as u64, elapsed_us: 1 })
}

fn fails_at_pop(p: &str) -> (Result<(), String>, Metrics) {
    let r = if p == "RrbDebugPop" { Err(format!("failed: {p}")) } else { Ok(()) };
    (r, Metrics { inputs: 2, elapsed_us: 10 })
}

#[test]
fn run_all_visits_every_property_in_order() {
    assert_eq!(
        all_properties(),
        vec![
            "PathNextBacktrack",
            "RangeOffByOne",
            "RrbDebugPop",
            "RrbDensityCheck",
            "PtrEqPrecedence",
            "EqSingleChunk"
        ]
    );
    let (r, m) = run_all(one_input_each);
    assert_eq!(r, Ok(()));
    // 17 + 13 + 11 + 15 + 15 + 13 characters in the six names.
    assert_eq!(m.inputs, 84);
    assert_eq!(m.elapsed_us, 6);
}

#[test]
fn run_all_stops_at_first_failure_and_sums_what_ran() {
    let (r, m) = run_all(fails_at_pop);
    assert_eq!(r, Err("failed: RrbDebugPop".to_string()));
    assert_eq!(m.inputs, 6);
    assert_eq!(m.elapsed_us, 30);
}
