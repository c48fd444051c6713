// Frozen-input witnesses: each calls a property function directly and expects it to hold.

use im_etna::properties::{
    property_eq_single_chunk, property_path_next_backtrack, property_ptr_eq_precedence,
    property_range_off_by_one, property_rrb_debug_pop, property_rrb_density_check, PropertyResult,
};

fn expect_pass(r: PropertyResult, what: &str) {
    match r {
        PropertyResult::Pass => {}
        PropertyResult::Fail(m) => panic!("{}: property failed: {}", what, m),
        PropertyResult::Discard => panic!("{}: unexpected discard", what),
    }
}

// A 20480-key OrdMap swept with ranges of width 101 from 100 on, near both ends.
#[test]
fn witness_path_next_backtrack_case_ordmap_1000() {
    expect_pass(
        property_path_next_backtrack(1000, 100, 100),
        "OrdMap range(100..200)",
    );
}

// Keys are {0, 2, 4, ..., 1998, ...}. 501 is absent; no key past it may leak.
#[test]
fn witness_range_off_by_one_case_odd_upper_bound() {
    expect_pass(
        property_range_off_by_one(1000, 501),
        "OrdMap range(..501) on even-keyed map",
    );
}

// A long run of pop_front calls must leave iteration and indexing in agreement.
#[test]
fn witness_rrb_debug_pop_case_release_pop_front() {
    expect_pass(
        property_rrb_debug_pop(5000),
        "5000 pop_front calls in release mode",
    );
}

// remove / split_at / append on a level-2 RRB tree with sparse leaves.
#[test]
fn witness_rrb_density_check_case_level2_rrb() {
    expect_pass(
        property_rrb_density_check(0),
        "262k-element RRB with sparse leaves",
    );
}

// After a set on a clone, ptr_eq must see the diverged outer chunk.
#[test]
fn witness_ptr_eq_precedence_case_diverged_outer() {
    expect_pass(
        property_ptr_eq_precedence(200, 0),
        "ptr_eq after set on shared-middle vector",
    );
}

// Two vectors collected separately from the same elements compare equal.
#[test]
fn witness_eq_single_chunk_case_small_vec() {
    expect_pass(
        property_eq_single_chunk(vec![1, 2, 3]),
        "Single/Single eq via different build paths",
    );
}
