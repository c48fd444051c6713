//! What the property-testing front ends share: how a property's outcome is
//! reported to each framework, the frozen witness inputs, the projections of
//! a framework's seed onto a property's arguments, and a bounded seed sweep.

use vstd::prelude::*;
use crate::properties::{
    eq_single_chunk_holds, path_next_backtrack_holds, property_eq_single_chunk,
    property_path_next_backtrack, property_ptr_eq_precedence, property_range_off_by_one,
    property_rrb_debug_pop, property_rrb_density_check, ptr_eq_precedence_holds,
    range_off_by_one_holds, rrb_debug_pop_holds, rrb_density_check_holds, PropertyResult,
};
use vstd::wrapping::u32_specs::{wrapping_add, wrapping_mul};
use crate::text::{decimal, push_decimal};
use crate::report::Metrics;

verus! {

/// Multiplier of the linear congruential generator that expands a seed into elements.
pub const LCG_MULTIPLIER: u64 = 6364136223846793005;

/// An outcome as an optional answer: `Some(true)` for a pass, `Some(false)`
/// for a failure, `None` for an input out of scope.
pub open spec fn opt_of(r: PropertyResult) -> Option<bool> {
    match r {
        PropertyResult::Pass => Some(true),
        PropertyResult::Fail(_) => Some(false),
        PropertyResult::Discard => None,
    }
}

/// An outcome as a result: only a failure is an error, with the failure's message.
pub open spec fn err_of(r: PropertyResult) -> Result<(), String> {
    match r {
        PropertyResult::Fail(m) => Err(m),
        _ => Ok(()),
    }
}

/// Outcome as an optional answer: `Some(true)` for a pass, `Some(false)` for a
/// failure, `None` for an input out of scope.
pub fn to_opt(r: PropertyResult) -> (o: Option<bool>)
    ensures
        o == opt_of(r),
{
    match r {
        PropertyResult::Pass => Some(true),
        PropertyResult::Fail(_) => Some(false),
        PropertyResult::Discard => None,
    }
}

/// Outcome as a result: only a failure is an error, and it carries the failure's message.
pub fn to_err(r: PropertyResult) -> (e: Result<(), String>)
    ensures
        e == err_of(r),
{
    match r {
        PropertyResult::Pass | PropertyResult::Discard => Ok(()),
        PropertyResult::Fail(m) => Err(m),
    }
}

// ---------------------------------------------------------------- frozen witnesses

/// The frozen witness of the range-backtracking property.
pub fn check_path_next_backtrack() -> (e: Result<(), String>)
    ensures
        exists|r: PropertyResult| #[trigger] path_next_backtrack_holds(100, 100, r) && e == err_of(r),
{
    let r = property_path_next_backtrack(1000, 100, 100);
    let ghost kept = r;
    let e = to_err(r);
    assert(path_next_backtrack_holds(100, 100, kept));
    e
}

/// The frozen witness of the range upper-bound property.
pub fn check_range_off_by_one() -> (e: Result<(), String>)
    ensures
        exists|r: PropertyResult| #[trigger] range_off_by_one_holds(1000, 501, r) && e == err_of(r),
{
    let r = property_range_off_by_one(1000, 501);
    let ghost kept = r;
    let e = to_err(r);
    assert(range_off_by_one_holds(1000, 501, kept));
    e
}

/// The frozen witness of the pop-front property.
pub fn check_rrb_debug_pop() -> (e: Result<(), String>)
    ensures
        exists|r: PropertyResult| #[trigger] rrb_debug_pop_holds(5000, r) && e == err_of(r),
{
    let r = property_rrb_debug_pop(5000);
    let ghost kept = r;
    let e = to_err(r);
    assert(rrb_debug_pop_holds(5000, kept));
    e
}

/// The frozen witness of the remove/split/append property.
pub fn check_rrb_density_check() -> (e: Result<(), String>)
    ensures
        exists|r: PropertyResult| #[trigger] rrb_density_check_holds(0, r) && e == err_of(r),
{
    let r = property_rrb_density_check(0);
    let ghost kept = r;
    let e = to_err(r);
    assert(rrb_density_check_holds(0, kept));
    e
}

/// The frozen witness of the `ptr_eq` property.
pub fn check_ptr_eq_precedence() -> (e: Result<(), String>)
    ensures
        exists|r: PropertyResult| #[trigger] ptr_eq_precedence_holds(200, 0, r) && e == err_of(r),
{
    let r = property_ptr_eq_precedence(200, 0);
    let ghost kept = r;
    let e = to_err(r);
    assert(ptr_eq_precedence_holds(200, 0, kept));
    e
}

/// The elements `0, 1, ..., 39`.
pub open spec fn first_forty() -> Seq<i32> {
    Seq::new(40, |i: int| i as i32)
}

/// The frozen witness of the equality property: the elements `0, 1, ..., 39`.
pub fn check_eq_single_chunk() -> (e: Result<(), String>)
    ensures
        exists|r: PropertyResult| #[trigger] eq_single_chunk_holds(first_forty(), r) && e == err_of(r),
{
    let mut xs: Vec<i32> = Vec::new();
    let mut i: i32 = 0;
    while i < 40
        invariant
            0 <= i <= 40,
            xs@.len() == i,
            forall|j: int| 0 <= j < i ==> #[trigger] xs@[j] == j,
        decreases 40 - i,
    {
        xs.push(i);
        i = i + 1;
    }
    assert(xs@ =~= first_forty());
    let r = property_eq_single_chunk(xs);
    let ghost kept = r;
    let e = to_err(r);
    assert(eq_single_chunk_holds(first_forty(), kept));
    e
}

// ---------------------------------------------------------------- seeded elements

/// One step of the generator: `x * LCG_MULTIPLIER + 1`, wrapping at 64 bits.
pub open spec fn lcg_step(x: u64) -> u64 {
    vstd::wrapping::u64_specs::wrapping_add(
        vstd::wrapping::u64_specs::wrapping_mul(x, LCG_MULTIPLIER),
        1,
    )
}

/// The generator's state after `i` steps from `seed`.
pub open spec fn lcg_state(seed: u64, i: nat) -> u64
    decreases i,
{
    if i == 0 {
        seed
    } else {
        lcg_step(lcg_state(seed, (i - 1) as nat))
    }
}

/// `len` elements expanded from `seed`: element `i` is the generator's state
/// after `i` steps, truncated to its low 32 bits.
pub fn seeded_elements(len: usize, seed: u64) -> (xs: Vec<i32>)
    ensures
        xs@.len() == len,
        forall|i: int| 0 <= i < len ==> #[trigger] xs@[i] == lcg_state(seed, i as nat) as i32,
{
    let mut xs: Vec<i32> = Vec::new();
    let mut x: u64 = seed;
    let mut i: usize = 0;
    while i < len
        invariant
            i <= len,
            xs@.len() == i,
            x == lcg_state(seed, i as nat),
            forall|j: int| 0 <= j < i ==> #[trigger] xs@[j] == lcg_state(seed, j as nat) as i32,
        decreases len - i,
    {
        xs.push(x as i32);
        x = x.wrapping_mul(LCG_MULTIPLIER).wrapping_add(1);
        i = i + 1;
    }
    xs
}

/// The element count that a length seed selects: from 32 to 60.
pub open spec fn seeded_len(len_seed: nat) -> nat {
    len_seed % 29 + 32
}

/// The elements that the equality property gets from a length seed and an
/// element seed.
pub open spec fn seeded_input(len_seed: nat, seed: u64) -> Seq<i32> {
    Seq::new(seeded_len(len_seed), |i: int| lcg_state(seed, i as nat) as i32)
}

/// The elements that the equality property gets from a length seed and an
/// element seed.
pub fn seeded_eq_input(len_seed: usize, seed: u64) -> (xs: Vec<i32>)
    ensures
        xs@ == seeded_input(len_seed as nat, seed),
{
    let xs = seeded_elements(len_seed % 29 + 32, seed);
    assert(xs@ =~= seeded_input(len_seed as nat, seed));
    xs
}

// ---------------------------------------------------------------- seed projections

/// The range-backtracking property on the arguments `(s, 13 s, 11 s + 1)`,
/// wrapping at 32 bits, where `s` is the seed's low 32 bits.
pub fn prop_path_next_backtrack(seed: usize) -> (o: Option<bool>)
    ensures
        exists|r: PropertyResult|
            #[trigger] path_next_backtrack_holds(
                wrapping_mul(seed as u32, 13),
                wrapping_add(wrapping_mul(seed as u32, 11), 1),
                r,
            ) && o == opt_of(r),
{
    let s = seed as u32;
    let r = property_path_next_backtrack(s, s.wrapping_mul(13), s.wrapping_mul(11).wrapping_add(1));
    let ghost kept = r;
    let o = to_opt(r);
    assert(path_next_backtrack_holds(
        wrapping_mul(seed as u32, 13),
        wrapping_add(wrapping_mul(seed as u32, 11), 1),
        kept,
    ));
    o
}

/// The range upper-bound property on `(17 n, 13 hi)`, wrapping at 32 bits.
pub fn prop_range_off_by_one(args: (usize, usize)) -> (o: Option<bool>)
    ensures
        exists|r: PropertyResult|
            #[trigger] range_off_by_one_holds(
                wrapping_mul(args.0 as u32, 17),
                wrapping_mul(args.1 as u32, 13),
                r,
            ) && o == opt_of(r),
{
    let r = property_range_off_by_one((args.0 as u32).wrapping_mul(17), (args.1 as u32).wrapping_mul(13));
    let ghost kept = r;
    let o = to_opt(r);
    assert(range_off_by_one_holds(
        wrapping_mul(args.0 as u32, 17),
        wrapping_mul(args.1 as u32, 13),
        kept,
    ));
    o
}

/// The pop-front property on `31 n`, wrapping at 32 bits.
pub fn prop_rrb_debug_pop(n: usize) -> (o: Option<bool>)
    ensures
        exists|r: PropertyResult| #[trigger] rrb_debug_pop_holds(wrapping_mul(n as u32, 31), r) && o
            == opt_of(r),
{
    let r = property_rrb_debug_pop((n as u32).wrapping_mul(31));
    let ghost kept = r;
    let o = to_opt(r);
    assert(rrb_debug_pop_holds(wrapping_mul(n as u32, 31), kept));
    o
}

/// The remove/split/append property on the seed's low 32 bits.
pub fn prop_rrb_density_check(seed: usize) -> (o: Option<bool>)
    ensures
        exists|r: PropertyResult| #[trigger] rrb_density_check_holds(seed as u32, r) && o == opt_of(
            r,
        ),
{
    let r = property_rrb_density_check(seed as u32);
    let ghost kept = r;
    let o = to_opt(r);
    assert(rrb_density_check_holds(seed as u32, kept));
    o
}

/// The `ptr_eq` property on `(17 n, 7 slot)`, wrapping at 32 bits.
pub fn prop_ptr_eq_precedence(args: (usize, usize)) -> (o: Option<bool>)
    ensures
        exists|r: PropertyResult|
            #[trigger] ptr_eq_precedence_holds(
                wrapping_mul(args.0 as u32, 17),
                wrapping_mul(args.1 as u32, 7),
                r,
            ) && o == opt_of(r),
{
    let r = property_ptr_eq_precedence((args.0 as u32).wrapping_mul(17), (args.1 as u32).wrapping_mul(7));
    let ghost kept = r;
    let o = to_opt(r);
    assert(ptr_eq_precedence_holds(
        wrapping_mul(args.0 as u32, 17),
        wrapping_mul(args.1 as u32, 7),
        kept,
    ));
    o
}

/// The equality property on the elements expanded from the seed's low 32
/// bits, as both the length seed and the element seed.
pub fn prop_eq_single_chunk(seed: usize) -> (o: Option<bool>)
    ensures
        exists|r: PropertyResult|
            #[trigger] eq_single_chunk_holds(
                seeded_input((seed as u32) as nat, (seed as u32) as u64),
                r,
            ) && o == opt_of(r),
{
    let seed = seed as u32;
    let xs = seeded_eq_input(seed as usize, seed as u64);
    let ghost input = xs@;
    let r = property_eq_single_chunk(xs);
    let ghost kept = r;
    let o = to_opt(r);
    assert(eq_single_chunk_holds(input, kept));
    o
}

/// The range-backtracking property on `(s, 13 s, 11 s + 1)`, the product
/// wrapping at 32 bits; the final `+ 1` does not wrap, so the seeds whose
/// product is `u32::MAX` are excluded.
pub fn seeded_path_next_backtrack(seed: u32) -> (o: Option<bool>)
    requires
        wrapping_mul(seed, 11) < u32::MAX,
    ensures
        exists|r: PropertyResult|
            #[trigger] path_next_backtrack_holds(
                wrapping_mul(seed, 13),
                (wrapping_mul(seed, 11) + 1) as u32,
                r,
            ) && o == opt_of(r),
{
    let r = property_path_next_backtrack(seed, seed.wrapping_mul(13), seed.wrapping_mul(11) + 1);
    let ghost kept = r;
    let o = to_opt(r);
    assert(path_next_backtrack_holds(wrapping_mul(seed, 13), (wrapping_mul(seed, 11) + 1) as u32, kept));
    o
}

/// The remove/split/append property on the seed.
pub fn seeded_rrb_density_check(seed: u32) -> (o: Option<bool>)
    ensures
        exists|r: PropertyResult| #[trigger] rrb_density_check_holds(seed, r) && o == opt_of(r),
{
    let r = property_rrb_density_check(seed);
    let ghost kept = r;
    let o = to_opt(r);
    assert(rrb_density_check_holds(seed, kept));
    o
}

/// The equality property on the elements expanded from the seed.
pub fn seeded_eq_single_chunk(seed: u32) -> (o: Option<bool>)
    ensures
        exists|r: PropertyResult|
            #[trigger] eq_single_chunk_holds(seeded_input(seed as nat, seed as u64), r) && o == opt_of(
                r,
            ),
{
    let xs = seeded_eq_input(seed as usize, seed as u64);
    let r = property_eq_single_chunk(xs);
    let ghost kept = r;
    let o = to_opt(r);
    assert(eq_single_chunk_holds(seeded_input(seed as nat, seed as u64), kept));
    o
}

// ---------------------------------------------------------------- bounded sweep

/// The properties that a bounded sweep of seeds can drive.
pub enum SeededProperty {
    PathNextBacktrack,
    RrbDensityCheck,
    EqSingleChunk,
}

/// What the property of `which` answers on one seed.
pub open spec fn seeded_answer(which: SeededProperty, seed: u32, o: Option<bool>) -> bool {
    match which {
        SeededProperty::PathNextBacktrack => exists|r: PropertyResult|
            #[trigger] path_next_backtrack_holds(
                wrapping_mul(seed, 13),
                (wrapping_mul(seed, 11) + 1) as u32,
                r,
            ) && o == opt_of(r),
        SeededProperty::RrbDensityCheck => exists|r: PropertyResult|
            #[trigger] rrb_density_check_holds(seed, r) && o == opt_of(r),
        SeededProperty::EqSingleChunk => exists|r: PropertyResult|
            #[trigger] eq_single_chunk_holds(seeded_input(seed as nat, seed as u64), r) && o
                == opt_of(r),
    }
}

/// The property of `which` on one seed.
pub fn run_seeded(which: &SeededProperty, seed: u32) -> (o: Option<bool>)
    requires
        *which is PathNextBacktrack ==> wrapping_mul(seed, 11) < u32::MAX,
    ensures
        seeded_answer(*which, seed, o),
{
    match which {
        SeededProperty::PathNextBacktrack => seeded_path_next_backtrack(seed),
        SeededProperty::RrbDensityCheck => seeded_rrb_density_check(seed),
        SeededProperty::EqSingleChunk => seeded_eq_single_chunk(seed),
    }
}

/// The tally of a bounded sweep.
pub struct BoundedRun {
    /// Seeds on which the property passed.
    pub passed: u64,
    /// Seeds that were out of the property's scope.
    pub discarded: u64,
    /// The seed on which the property failed, where one did; the sweep stops there.
    pub failed_at: Option<u32>,
}

/// How many of the answers are `answer`.
pub open spec fn count_answers(answers: Seq<Option<bool>>, answer: Option<bool>) -> nat
    decreases answers.len(),
{
    if answers.len() == 0 {
        0
    } else {
        count_answers(answers.drop_last(), answer) + if answers.last() == answer {
            1nat
        } else {
            0nat
        }
    }
}

/// `answers[s]` is an answer that `f` may give on seed `s`, for every `s` they cover.
pub open spec fn answered_by<F: Fn(u32) -> Option<bool>>(f: F, answers: Seq<Option<bool>>) -> bool {
    forall|s: int| 0 <= s < answers.len() ==> call_ensures(f, (s as u32,), #[trigger] answers[s])
}

/// The tally of a sweep over `n` seeds that got `answers` from seeds `0, 1, ...`
/// in turn: it tried seeds until the first failure, or all `n`; it counts the
/// passes and the out-of-scope seeds among those it tried, and names the
/// failing seed.
pub open spec fn tallies(answers: Seq<Option<bool>>, n: u32, r: BoundedRun) -> bool {
    &&& answers.len() <= n
    &&& forall|s: int| 0 <= s < answers.len() - 1 ==> #[trigger] answers[s] != Some(false)
    &&& r.passed == count_answers(answers, Some(true))
    &&& r.discarded == count_answers(answers, None)
    &&& match r.failed_at {
        Some(s) => answers.len() > 0 && s == answers.len() - 1 && answers.last() == Some(false),
        None => answers.len() == n && forall|s: int|
            0 <= s < answers.len() ==> #[trigger] answers[s] != Some(false),
    }
}

/// Runs `f` on the seeds `0, 1, ..., n - 1` in turn, counting passes and
/// out-of-scope seeds, and stops at the first failure.
pub fn run_bounded<F: Fn(u32) -> Option<bool>>(n: u32, f: F) -> (r: BoundedRun)
    requires
        forall|s: u32| s < n ==> #[trigger] f.requires((s,)),
    ensures
        exists|answers: Seq<Option<bool>>| #[trigger] answered_by(f, answers) && tallies(answers, n, r),
{
    let mut passed: u64 = 0;
    let mut discarded: u64 = 0;
    let mut seed: u32 = 0;
    let ghost mut answers: Seq<Option<bool>> = Seq::empty();
    while seed < n
        invariant
            seed <= n,
            answers.len() == seed,
            forall|s: u32| s < n ==> #[trigger] f.requires((s,)),
            answered_by(f, answers),
            forall|s: int| 0 <= s < answers.len() ==> #[trigger] answers[s] != Some(false),
            passed == count_answers(answers, Some(true)),
            discarded == count_answers(answers, None),
            passed + discarded == seed,
        decreases n - seed,
    {
        let o = f(seed);
        proof {
            let prev = answers;
            answers = answers.push(o);
            assert(answers.drop_last() =~= prev);
            assert forall|s: int| 0 <= s < answers.len() implies call_ensures(
                f,
                (s as u32,),
                #[trigger] answers[s],
            ) by {
                if s < prev.len() {
                    assert(answers[s] == prev[s]);
                }
            }
        }
        match o {
            Some(true) => passed = passed + 1,
            Some(false) => {
                let r = BoundedRun { passed, discarded, failed_at: Some(seed) };
                assert(answered_by(f, answers) && tallies(answers, n, r));
                return r;
            },
            None => discarded = discarded + 1,
        }
        seed = seed + 1;
    }
    BoundedRun { passed, discarded, failed_at: None }
}

// ---------------------------------------------------------------- run endings

/// How a property-testing run ended, as the front end reports it.
pub enum RunEnd {
    /// Every test passed.
    Passed,
    /// A counterexample was found; its rendering.
    Failed(String),
    /// The run exceeded its time limit.
    TimedOut,
    /// Too many inputs were discarded: the passed and the discarded counts.
    GaveUp(u64, u64),
    /// The run itself broke down; the reason.
    Aborted(String),
}

/// The error text of a run that ended as `end`, for the named tool; none for a pass.
pub open spec fn run_end_text(tool: Seq<char>, end: RunEnd) -> Option<Seq<char>> {
    match end {
        RunEnd::Passed => None,
        RunEnd::Failed(c) => Some(tool + " failed with counterexample: ("@ + c@ + ")"@),
        RunEnd::TimedOut => Some(tool + " timed out"@),
        RunEnd::GaveUp(passed, discarded) => Some(
            tool + " gave up: passed="@ + decimal(passed as nat) + ", discarded="@ + decimal(
                discarded as nat,
            ),
        ),
        RunEnd::Aborted(e) => Some(tool + " aborted: "@ + e@),
    }
}

/// A run's ending as a result: `Ok` for a pass, else the error that names the tool.
pub fn run_status(tool: &str, end: RunEnd) -> (r: Result<(), String>)
    ensures
        match r {
            Ok(()) => run_end_text(tool@, end) is None,
            Err(m) => run_end_text(tool@, end) == Some(m@),
        },
{
    match end {
        RunEnd::Passed => Ok(()),
        RunEnd::Failed(c) => {
            let mut m = String::new();
            m.append(tool);
            m.append(" failed with counterexample: (");
            m.append(c.as_str());
            m.append(")");
            Err(m)
        },
        RunEnd::TimedOut => {
            let mut m = String::new();
            m.append(tool);
            m.append(" timed out");
            Err(m)
        },
        RunEnd::GaveUp(passed, discarded) => {
            let mut m = String::new();
            m.append(tool);
            m.append(" gave up: passed=");
            push_decimal(&mut m, passed as u128);
            m.append(", discarded=");
            push_decimal(&mut m, discarded as u128);
            Err(m)
        },
        RunEnd::Aborted(e) => {
            let mut m = String::new();
            m.append(tool);
            m.append(" aborted: ");
            m.append(e.as_str());
            Err(m)
        },
    }
}

/// The properties that `run_all` runs, by name, in the order in which it runs them.
pub open spec fn property_names() -> Seq<Seq<char>> {
    seq![
        "PathNextBacktrack"@,
        "RangeOffByOne"@,
        "RrbDebugPop"@,
        "RrbDensityCheck"@,
        "PtrEqPrecedence"@,
        "EqSingleChunk"@,
    ]
}

/// The names of the properties, in the order of `property_names`.
pub fn all_properties() -> (v: Vec<&'static str>)
    ensures
        v@.len() == property_names().len(),
        forall|i: int| 0 <= i < v@.len() ==> #[trigger] v@[i]@ == property_names()[i],
{
    proof {
        reveal_strlit("PathNextBacktrack");
        reveal_strlit("RangeOffByOne");
        reveal_strlit("RrbDebugPop");
        reveal_strlit("RrbDensityCheck");
        reveal_strlit("PtrEqPrecedence");
        reveal_strlit("EqSingleChunk");
    }
    let v: Vec<&'static str> = vec![
        "PathNextBacktrack",
        "RangeOffByOne",
        "RrbDebugPop",
        "RrbDensityCheck",
        "PtrEqPrecedence",
        "EqSingleChunk",
    ];
    assert(v@.len() == 6);
    v
}

/// The sum of the `inputs` counts of the first `k` outcomes.
pub open spec fn inputs_total(outs: Seq<(Result<(), String>, Metrics)>, k: int) -> int
    decreases k,
{
    if k <= 0 {
        0
    } else {
        inputs_total(outs, k - 1) + outs[k - 1].1.inputs
    }
}

/// The sum of the `elapsed_us` times of the first `k` outcomes.
pub open spec fn elapsed_total(outs: Seq<(Result<(), String>, Metrics)>, k: int) -> int
    decreases k,
{
    if k <= 0 {
        0
    } else {
        elapsed_total(outs, k - 1) + outs[k - 1].1.elapsed_us
    }
}

/// `outs` are outcomes that `f` gave for the properties in the order of
/// `property_names`, one call each, from the first on.
pub open spec fn ran_in_order<F: Fn(&str) -> (Result<(), String>, Metrics)>(
    f: F,
    args: Seq<&str>,
    outs: Seq<(Result<(), String>, Metrics)>,
) -> bool {
    &&& args.len() == outs.len()
    &&& outs.len() <= property_names().len()
    &&& forall|i: int| 0 <= i < args.len() ==> #[trigger] args[i]@ == property_names()[i]
    &&& forall|i: int| 0 <= i < outs.len() ==> call_ensures(f, (args[i],), #[trigger] outs[i])
}

/// What `run_all` returns after the outcomes `outs`: it went on while each
/// property passed and stopped at the first failure, whose error it reports;
/// it succeeds only when every property passed; its metrics add up those of
/// every run it made.
pub open spec fn runs_summed(outs: Seq<(Result<(), String>, Metrics)>, r: (Result<(), String>, Metrics)) -> bool {
    &&& forall|i: int| 0 <= i < outs.len() - 1 ==> (#[trigger] outs[i]).0 is Ok
    &&& r.1.inputs == inputs_total(outs, outs.len() as int)
    &&& r.1.elapsed_us == elapsed_total(outs, outs.len() as int)
    &&& match r.0 {
        Err(e) => outs.len() > 0 && outs.last().0 == Err::<(), String>(e),
        Ok(_) => outs.len() == property_names().len() && forall|i: int|
            0 <= i < outs.len() ==> (#[trigger] outs[i]).0 is Ok,
    }
}

/// The sums of a prefix of outcomes whose metrics are each at most a sixth
/// of their type's range stay within that range.
proof fn lemma_totals_bounded(outs: Seq<(Result<(), String>, Metrics)>, k: int)
    requires
        0 <= k <= outs.len(),
        forall|i: int| 0 <= i < k ==> (#[trigger] outs[i]).1.inputs <= u64::MAX / 6,
        forall|i: int| 0 <= i < k ==> (#[trigger] outs[i]).1.elapsed_us <= u128::MAX / 6,
    ensures
        0 <= inputs_total(outs, k) <= k * (u64::MAX / 6),
        0 <= elapsed_total(outs, k) <= k * (u128::MAX / 6),
    decreases k,
{
    if k > 0 {
        lemma_totals_bounded(outs, k - 1);
    }
}

/// Runs every property through `f` in the order of `property_names`, adding
/// up the metrics, and stops at the first failure.
pub fn run_all<F: Fn(&str) -> (Result<(), String>, Metrics)>(f: F) -> (r: (Result<(), String>, Metrics))
    requires
        forall|p: &str| #[trigger] f.requires((p,)),
        forall|p: &str, out: (Result<(), String>, Metrics)|
            #[trigger] call_ensures(f, (p,), out) ==> out.1.inputs <= u64::MAX / 6
                && out.1.elapsed_us <= u128::MAX / 6,
    ensures
        exists|args: Seq<&str>, outs: Seq<(Result<(), String>, Metrics)>|
            #[trigger] ran_in_order(f, args, outs) && runs_summed(outs, r),
{
    let names = all_properties();
    let mut total = Metrics { inputs: 0, elapsed_us: 0 };
    let mut k: usize = 0;
    let ghost mut args: Seq<&str> = Seq::empty();
    let ghost mut outs: Seq<(Result<(), String>, Metrics)> = Seq::empty();
    while k < names.len()
        invariant
            names@.len() == property_names().len(),
            forall|i: int| 0 <= i < names@.len() ==> #[trigger] names@[i]@ == property_names()[i],
            forall|p: &str| #[trigger] f.requires((p,)),
            forall|p: &str, out: (Result<(), String>, Metrics)|
                #[trigger] call_ensures(f, (p,), out) ==> out.1.inputs <= u64::MAX / 6
                    && out.1.elapsed_us <= u128::MAX / 6,
            k <= names.len(),
            outs.len() == k,
            ran_in_order(f, args, outs),
            forall|i: int| 0 <= i < outs.len() ==> (#[trigger] outs[i]).0 is Ok,
            total.inputs == inputs_total(outs, k as int),
            total.elapsed_us == elapsed_total(outs, k as int),
        decreases names.len() - k,
    {
        let p: &str = names[k];
        let (res, m) = f(p);
        proof {
            let prev_args = args;
            let prev = outs;
            args = args.push(p);
            outs = outs.push((res, m));
            assert forall|i: int| 0 <= i < outs.len() implies call_ensures(
                f,
                (args[i],),
                #[trigger] outs[i],
            ) by {
                if i < prev.len() {
                    assert(outs[i] == prev[i] && args[i] == prev_args[i]);
                }
            }
            assert forall|i: int| 0 <= i < outs.len() implies (#[trigger] outs[i]).1.inputs
                <= u64::MAX / 6 && outs[i].1.elapsed_us <= u128::MAX / 6 by {
                assert(call_ensures(f, (args[i],), outs[i]));
            }
            lemma_totals_bounded(outs, k + 1);
            assert(inputs_total(outs, k as int) == inputs_total(prev, k as int)) by {
                lemma_totals_prefix(prev, outs, k as int);
            }
            assert(elapsed_total(outs, k as int) == elapsed_total(prev, k as int)) by {
                lemma_totals_prefix(prev, outs, k as int);
            }
        }
        total = total.combine(m);
        match res {
            Err(e) => {
                let r = (Err(e), total);
                assert(ran_in_order(f, args, outs) && runs_summed(outs, r));
                return r;
            },
            Ok(()) => {},
        }
        k = k + 1;
    }
    let r = (Ok(()), total);
    assert(ran_in_order(f, args, outs) && runs_summed(outs, r));
    r
}

/// The sums over the first `k` outcomes depend on those outcomes alone.
proof fn lemma_totals_prefix(
    a: Seq<(Result<(), String>, Metrics)>,
    b: Seq<(Result<(), String>, Metrics)>,
    k: int,
)
    requires
        0 <= k <= a.len(),
        k <= b.len(),
        forall|i: int| 0 <= i < k ==> #[trigger] a[i] == b[i],
    ensures
        inputs_total(a, k) == inputs_total(b, k),
        elapsed_total(a, k) == elapsed_total(b, k),
    decreases k,
{
    if k > 0 {
        lemma_totals_prefix(a, b, k - 1);
    }
}

} // verus!
