//! Property functions over `im`'s `OrdMap` and `Vector`. Each takes concrete,
//! owned inputs and reports whether the collection kept its promise.

use vstd::prelude::*;
use im::{OrdMap, Vector};
use crate::keys::{count_within, keys_within};
use crate::persistent::{
    entries_inserted, ordmap_entries, ordmap_from_pairs, ordmap_from_unit_pairs,
    ordmap_i32_keys_below, ordmap_i32_prefix_keys, ordmap_key_set, ordmap_keys_below,
    ordmap_keys_between, ordmap_prefix_keys, ordmap_range_keys, vector_append, vector_clone,
    vector_eq, vector_eq_answer, vector_from_slice, vector_get, vector_get_answer, vector_items,
    vector_len, vector_len_answer, vector_pop_front, vector_ptr_eq, vector_collected,
    vector_popped, vector_removed, vector_split, vector_appended, vector_cloned, vector_set_from,
    vector_remove, vector_set, vector_split_at, vector_to_vec,
};
use crate::text::{decimal, push_decimal, push_signed_decimal, signed_decimal};

verus! {

/// The outcome of one property check.
pub enum PropertyResult {
    /// The property held on this input.
    Pass,
    /// The property failed; the message says how.
    Fail(String),
    /// The input is outside the property's scope.
    Discard,
}

/// `r` reports `failure`: `Pass` when there is none, else `Fail` with its text.
pub open spec fn outcome_is(r: PropertyResult, failure: Option<Seq<char>>) -> bool {
    match failure {
        None => r is Pass,
        Some(t) => match r {
            PropertyResult::Fail(m) => m@ == t,
            _ => false,
        },
    }
}

/// The text of an optional message.
pub open spec fn text_of(message: Option<String>) -> Option<Seq<char>> {
    match message {
        Some(m) => Some(m@),
        None => None,
    }
}

/// Side length of a B-tree node in `im`'s `OrdMap`.
const NODE_SIZE: usize = 64;

/// The message for a range query whose key count differs from the reference.
pub open spec fn range_mismatch_text(lo: nat, hi: nat, got: nat, want: nat) -> Seq<char> {
    "range("@ + decimal(lo) + ".."@ + decimal(hi) + "): got "@ + decimal(got) + " keys, expected "@
        + decimal(want)
}

/// The message for an upper-bounded range query whose key count differs from the reference.
pub open spec fn upper_mismatch_text(hi: nat, got: nat, want: nat) -> Seq<char> {
    "range(.."@ + decimal(hi) + "): got "@ + decimal(got) + " keys, expected "@ + decimal(want)
}

fn range_mismatch(lo: usize, hi: usize, got: usize, want: usize) -> (m: String)
    ensures
        m@ == range_mismatch_text(lo as nat, hi as nat, got as nat, want as nat),
{
    let mut m = String::new();
    m.append("range(");
    push_decimal(&mut m, lo as u128);
    m.append("..");
    push_decimal(&mut m, hi as u128);
    m.append("): got ");
    push_decimal(&mut m, got as u128);
    m.append(" keys, expected ");
    push_decimal(&mut m, want as u128);
    m
}

fn upper_mismatch(hi: usize, got: usize, want: usize) -> (m: String)
    ensures
        m@ == upper_mismatch_text(hi as nat, got as nat, want as nat),
{
    let mut m = String::new();
    m.append("range(..");
    push_decimal(&mut m, hi as u128);
    m.append("): got ");
    push_decimal(&mut m, got as u128);
    m.append(" keys, expected ");
    push_decimal(&mut m, want as u128);
    m
}

/// The keys of the swept map: the even numbers from 2 below `64 * 64 * 5`.
pub open spec fn sweep_keys() -> Seq<usize> {
    Seq::new(10239, |i: int| (2 * i + 2) as usize)
}

/// The first disagreement, from `step` on, between what the map answers and the
/// reference count in the sweep window starting at `base`: for `lo = base + step`
/// and `hi = lo + span`, first `range(lo..hi)` and then `range(..lo)`.
pub open spec fn window_failure(m: OrdMap<usize, ()>, base: nat, span: nat, step: nat) -> Option<
    Seq<char>,
>
    decreases 320 - step,
{
    if step >= 320 {
        None
    } else {
        let lo = base + step;
        let hi = lo + span;
        let got = ordmap_range_keys(m, lo as usize, hi as usize).len();
        let want = keys_within(sweep_keys(), lo as int, hi as int).len();
        if got != want {
            Some(range_mismatch_text(lo, hi, got, want))
        } else {
            let got_upper = ordmap_prefix_keys(m, lo as usize).len();
            let want_upper = keys_within(sweep_keys(), 0, lo as int).len();
            if got_upper != want_upper {
                Some(upper_mismatch_text(lo, got_upper, want_upper))
            } else {
                window_failure(m, base, span, step + 1)
            }
        }
    }
}

/// The first disagreement of the two sweep windows: near the first key, then near the last.
pub open spec fn sweep_failure(m: OrdMap<usize, ()>, lo_hint: u32, span_hint: u32) -> Option<
    Seq<char>,
> {
    let span = (span_hint % 256 + 1) as nat;
    let lo_start = (lo_hint % 320) as nat;
    match window_failure(m, lo_start, span, 0) {
        Some(t) => Some(t),
        None => window_failure(m, 20160 + lo_start, span, 0),
    }
}

/// What `property_path_next_backtrack` reports: on a map built from the sweep
/// keys, `Pass` exactly when every range query of both windows counts as many
/// keys as the reference, else `Fail` with the text of the first disagreement.
pub open spec fn path_next_backtrack_holds(lo_hint: u32, span_hint: u32, r: PropertyResult) -> bool {
    exists|m: OrdMap<usize, ()>|
        #[trigger] ordmap_key_set(m) == sweep_keys().to_set() && outcome_is(
            r,
            sweep_failure(m, lo_hint, span_hint),
        )
}

/// The sweep keys, once as keys and once as `(key, ())` entries.
fn sweep_map_keys() -> (r: (Vec<usize>, Vec<(usize, ())>))
    ensures
        r.0@ == sweep_keys(),
        r.0@.len() == r.1@.len(),
        forall|i: int| 0 <= i < r.0@.len() ==> r.1@[i].0 == #[trigger] r.0@[i],
{
    let n: usize = NODE_SIZE * NODE_SIZE * 5;
    let mut keys: Vec<usize> = Vec::new();
    let mut pairs: Vec<(usize, ())> = Vec::new();
    let mut i: usize = 1;
    while i < n
        invariant
            n == 20480,
            1 <= i <= n,
            keys@.len() == (i - 1) / 2,
            forall|j: int| 0 <= j < keys@.len() ==> #[trigger] keys@[j] == 2 * j + 2,
            keys@.len() == pairs@.len(),
            forall|j: int| 0 <= j < keys@.len() ==> pairs@[j].0 == #[trigger] keys@[j],
        decreases n - i,
    {
        if i % 2 == 0 {
            keys.push(i);
            pairs.push((i, ()));
        }
        i = i + 1;
    }
    assert(keys@ =~= sweep_keys());
    (keys, pairs)
}

/// Runs the range queries of one sweep window and returns the text of the
/// first disagreement with the reference count, if any.
fn sweep_window(omap: &OrdMap<usize, ()>, keys: &Vec<usize>, base: usize, span: usize) -> (failure:
    Option<String>)
    requires
        keys@ == sweep_keys(),
        base <= 20160 + 320,
        1 <= span <= 256,
    ensures
        text_of(failure) == window_failure(*omap, base as nat, span as nat, 0),
{
    let mut step: usize = 0;
    while step < NODE_SIZE * 5
        invariant
            keys@ == sweep_keys(),
            base <= 20160 + 320,
            1 <= span <= 256,
            step <= 320,
            window_failure(*omap, base as nat, span as nat, 0) == window_failure(
                *omap,
                base as nat,
                span as nat,
                step as nat,
            ),
        decreases NODE_SIZE * 5 - step,
    {
        let lo = base + step;
        let hi = lo + span;
        let within = ordmap_keys_between(omap, lo, hi);
        let got = within.len();
        let want = count_within(keys, lo, hi);
        if got != want {
            return Some(range_mismatch(lo, hi, got, want));
        }
        let below = ordmap_keys_below(omap, lo);
        let got_upper = below.len();
        let want_upper = count_within(keys, 0, lo);
        if got_upper != want_upper {
            return Some(upper_mismatch(lo, got_upper, want_upper));
        }
        step = step + 1;
    }
    None
}

/// Range iteration over an `OrdMap` returns exactly the keys in `[lo, hi)`,
/// however many internal B-tree boundaries the range crosses: on a map of the
/// even keys below `64 * 64 * 5`, every query `range(lo..lo + span)` and
/// `range(..lo)` of two sweep windows (near the first and near the last key)
/// must count as many keys as the reference listing of the same keys does.
/// `size_hint` is not used.
pub fn property_path_next_backtrack(size_hint: u32, lo_hint: u32, span_hint: u32) -> (r:
    PropertyResult)
    ensures
        path_next_backtrack_holds(lo_hint, span_hint, r),
{
    let n: usize = NODE_SIZE * NODE_SIZE * 5;
    let span: usize = (span_hint % 256 + 1) as usize;
    let lo_start: usize = (lo_hint as usize) % (NODE_SIZE * 5);
    let (keys, pairs) = sweep_map_keys();
    let omap = ordmap_from_unit_pairs(pairs.as_slice());
    proof {
        assert forall|k: usize| ordmap_key_set(omap).contains(k) <==> sweep_keys().to_set().contains(
            k,
        ) by {
            if ordmap_key_set(omap).contains(k) {
                let i = choose|i: int| 0 <= i < pairs@.len() && pairs@[i].0 == k;
                assert(keys@[i] == k);
            }
            if keys@.contains(k) {
                let i = choose|i: int| 0 <= i < keys@.len() && keys@[i] == k;
                assert(pairs@[i].0 == k);
            }
        }
        assert(ordmap_key_set(omap) =~= sweep_keys().to_set());
    }
    // Two sweep windows: near the start of the key space and near its end.
    let first = sweep_window(&omap, &keys, lo_start, span);
    let r = match first {
        Some(m) => PropertyResult::Fail(m),
        None => match sweep_window(&omap, &keys, n.saturating_sub(NODE_SIZE * 5) + lo_start, span) {
            Some(m) => PropertyResult::Fail(m),
            None => PropertyResult::Pass,
        },
    };
    assert(outcome_is(r, sweep_failure(omap, lo_hint, span_hint)));
    r
}


/// `0, 1, ..., count - 1`.
pub open spec fn counting(count: nat) -> Seq<i32> {
    Seq::new(count, |i: int| i as i32)
}

/// `0, 1, ..., count - 1`.
fn ascending_values(count: usize) -> (v: Vec<i32>)
    requires
        count <= i32::MAX,
    ensures
        v@ == counting(count as nat),
{
    let mut v: Vec<i32> = Vec::new();
    let mut i: usize = 0;
    while i < count
        invariant
            i <= count <= i32::MAX,
            v@.len() == i,
            forall|j: int| 0 <= j < i ==> v@[j] == j,
        decreases count - i,
    {
        v.push(i as i32);
        i = i + 1;
    }
    assert(v@ =~= counting(count as nat));
    v
}

/// `(0, 0), (2, 1), (4, 2), ...`: the key `2 * i` with the value `i`, for `i < count`.
pub open spec fn doubled_seq(count: i32) -> Seq<(i32, i32)> {
    Seq::new(count as nat, |i: int| ((2 * i) as i32, i as i32))
}

/// `(0, 0), (2, 1), (4, 2), ...`: the key `2 * i` with the value `i`, for `i < count`.
fn doubled_pairs(count: i32) -> (v: Vec<(i32, i32)>)
    requires
        0 <= count <= 8192,
    ensures
        v@ == doubled_seq(count),
{
    let mut v: Vec<(i32, i32)> = Vec::new();
    let mut i: i32 = 0;
    while i < count
        invariant
            0 <= i <= count <= 8192,
            v@.len() == i,
            forall|j: int| 0 <= j < i ==> v@[j].0 == 2 * j && v@[j].1 == j,
        decreases count - i,
    {
        v.push((i * 2, i));
        i = i + 1;
    }
    assert(v@ =~= doubled_seq(count));
    v
}

/// The message for a key that a range query yielded past its upper bound.
pub open spec fn leak_text(hi: int, last: int) -> Seq<char> {
    "range(.."@ + signed_decimal(hi) + ") leaked key "@ + signed_decimal(last)
        + " past upper bound"@
}

fn leak_message(hi: i32, last: i32) -> (m: String)
    ensures
        m@ == leak_text(hi as int, last as int),
{
    let mut m = String::new();
    m.append("range(..");
    push_signed_decimal(&mut m, hi as i64);
    m.append(") leaked key ");
    push_signed_decimal(&mut m, last as i64);
    m.append(" past upper bound");
    m
}

/// The map size that `property_range_off_by_one` builds for a `size` input.
pub open spec fn bound_size(size: u32) -> i32 {
    ((size % 4096) + 2) as i32
}

/// The odd upper bound that `property_range_off_by_one` queries.
pub open spec fn odd_bound(size: u32, hi_factor: u32) -> i32 {
    ((hi_factor % (((bound_size(size) as u32) * 2) as u32)) as i32) | 1i32
}

/// The leak that a query answer shows, if any: its last key reaching `hi`.
pub open spec fn leak_failure(keys: Seq<i32>, hi: i32) -> Option<Seq<char>> {
    if keys.len() > 0 && keys.last() >= hi {
        Some(leak_text(hi as int, keys.last() as int))
    } else {
        None
    }
}

/// What `property_range_off_by_one` reports: `Discard` for a zero `size`; else,
/// on the map `2 * i => i` for `i < bound_size(size)`, `Pass` exactly when the
/// last key that `range(..hi)` yields, if any, lies below `hi`, and otherwise
/// `Fail` naming that key.
pub open spec fn range_off_by_one_holds(size: u32, hi_factor: u32, r: PropertyResult) -> bool {
    if size == 0 {
        r is Discard
    } else {
        exists|m: OrdMap<i32, i32>|
            #[trigger] ordmap_entries(m) == entries_inserted(doubled_seq(bound_size(size)))
                && outcome_is(
                r,
                leak_failure(
                    ordmap_i32_prefix_keys(m, odd_bound(size, hi_factor)),
                    odd_bound(size, hi_factor),
                ),
            )
    }
}

/// The upper bound of `OrdMap::range(..hi)` excludes every key outside the
/// range, also when `hi` is not itself a key: on the map `2 * i => i` for
/// `i < size % 4096 + 2`, with an odd `hi` below twice that size, no key that
/// the query yields may reach `hi`. A `size` of zero is out of scope.
pub fn property_range_off_by_one(size: u32, hi_factor: u32) -> (r: PropertyResult)
    ensures
        range_off_by_one_holds(size, hi_factor, r),
{
    if size == 0 {
        return PropertyResult::Discard;
    }
    let ghost size_in = size;
    let size: i32 = (size % 4096) as i32 + 2;
    assert(size == bound_size(size_in));
    let pairs = doubled_pairs(size);
    let map = ordmap_from_pairs(pairs.as_slice());
    // Forced odd, so that it is not a key.
    let hi: i32 = ((hi_factor % (size as u32 * 2)) as i32) | 1;
    assert(hi == odd_bound(size_in, hi_factor));
    let collected = ordmap_i32_keys_below(&map, hi);
    let mut r = PropertyResult::Pass;
    if collected.len() > 0 {
        let last = collected[collected.len() - 1];
        if last >= hi {
            r = PropertyResult::Fail(leak_message(hi, last));
        }
    }
    assert(outcome_is(r, leak_failure(ordmap_i32_prefix_keys(map, hi), hi)));
    r
}

/// The message for an iteration whose length differs from `len`.
pub open spec fn length_mismatch_text(by_iter: nat, len: nat) -> Seq<char> {
    "iter length "@ + decimal(by_iter) + " disagrees with Vector::len "@ + decimal(len)
}

/// The message for an index where iteration and `get` disagree.
pub open spec fn iter_get_text(i: nat, expected: int, got: int) -> Seq<char> {
    "index "@ + decimal(i) + ": iter says "@ + signed_decimal(expected) + ", get says "@
        + signed_decimal(got)
}

/// The message for an index that iteration reaches but `get` does not.
pub open spec fn get_none_text(i: nat, len: nat) -> Seq<char> {
    "index "@ + decimal(i) + ": iter has value but get returned None (len="@ + decimal(len) + ")"@
}

fn length_mismatch(by_iter: usize, len: usize) -> (m: String)
    ensures
        m@ == length_mismatch_text(by_iter as nat, len as nat),
{
    let mut m = String::new();
    m.append("iter length ");
    push_decimal(&mut m, by_iter as u128);
    m.append(" disagrees with Vector::len ");
    push_decimal(&mut m, len as u128);
    m
}

fn iter_get_mismatch(i: usize, expected: i32, got: i32) -> (m: String)
    ensures
        m@ == iter_get_text(i as nat, expected as int, got as int),
{
    let mut m = String::new();
    m.append("index ");
    push_decimal(&mut m, i as u128);
    m.append(": iter says ");
    push_signed_decimal(&mut m, expected as i64);
    m.append(", get says ");
    push_signed_decimal(&mut m, got as i64);
    m
}

fn get_none(i: usize, len: usize) -> (m: String)
    ensures
        m@ == get_none_text(i as nat, len as nat),
{
    let mut m = String::new();
    m.append("index ");
    push_decimal(&mut m, i as u128);
    m.append(": iter has value but get returned None (len=");
    push_decimal(&mut m, len as u128);
    m.append(")");
    m
}

/// The text of a check's error, if any.
pub open spec fn error_text(r: Result<(), String>) -> Option<Seq<char>> {
    match r {
        Ok(()) => None,
        Err(m) => Some(m@),
    }
}

/// The first index from `i` on where `get` does not answer the element that
/// iteration yields, as its message (`len` is what `len` answered).
pub open spec fn get_failure(v: Vector<i32>, items: Seq<i32>, len: nat, i: nat) -> Option<Seq<char>>
    decreases items.len() - i,
{
    if i >= items.len() {
        None
    } else {
        match vector_get_answer(v, i as usize) {
            Some(g) => if g != items[i as int] {
                Some(iter_get_text(i, items[i as int] as int, g as int))
            } else {
                get_failure(v, items, len, i + 1)
            },
            None => Some(get_none_text(i, len)),
        }
    }
}

/// The first disagreement between iteration and `len`/`get` on `v`: the
/// lengths first, then the indices in order.
pub open spec fn iteration_failure(v: Vector<i32>) -> Option<Seq<char>> {
    let items = vector_items(v);
    let len = vector_len_answer(v);
    if items.len() != len {
        Some(length_mismatch_text(items.len(), len as nat))
    } else {
        get_failure(v, items, len as nat, 0)
    }
}

/// Checks that iteration and random access agree on `v`: the same length, and
/// `get(i)` gives the `i`-th element that iteration yields.
fn iteration_matches_indexing(v: &Vector<i32>) -> (r: Result<(), String>)
    ensures
        error_text(r) == iteration_failure(*v),
{
    let by_iter = vector_to_vec(v);
    let len = vector_len(v);
    if by_iter.len() != len {
        return Err(length_mismatch(by_iter.len(), len));
    }
    let mut i: usize = 0;
    while i < by_iter.len()
        invariant
            by_iter@ == vector_items(*v),
            len == vector_len_answer(*v),
            by_iter@.len() == len,
            i <= len,
            iteration_failure(*v) == get_failure(*v, by_iter@, len as nat, i as nat),
        decreases by_iter.len() - i,
    {
        let expected = by_iter[i];
        match vector_get(v, i) {
            Some(got) => {
                if got != expected {
                    return Err(iter_get_mismatch(i, expected, got));
                }
            },
            None => {
                return Err(get_none(i, len));
            },
        }
        i = i + 1;
    }
    Ok(())
}

/// `b` is what one `pop_front` left of `a`: unchanged when `len` answered
/// zero, else without its first element.
pub open spec fn pop_link(a: Vector<i32>, b: Vector<i32>) -> bool {
    vector_popped(a, b) && if vector_len_answer(a) == 0 {
        b == a
    } else {
        vector_items(a).len() > 0 ==> vector_items(b) == vector_items(a).drop_first()
    }
}

/// The `k`-th pop of a run of vectors.
pub open spec fn pop_link_at(vs: Seq<Vector<i32>>, k: int) -> bool {
    pop_link(vs[k], vs[k + 1])
}

/// `vs` is a run of `count` pops from the vector collected from `0, 1, ..., 3 count - 1`.
pub open spec fn pop_chain(vs: Seq<Vector<i32>>, count: nat) -> bool {
    &&& vs.len() == count + 1
    &&& vector_collected(counting(3 * count), vs[0])
    &&& vector_items(vs[0]) == counting(3 * count)
    &&& vector_len_answer(vs[0]) == 3 * count
    &&& forall|k: int| 0 <= k < count ==> #[trigger] pop_link_at(vs, k)
}

/// How many elements `property_rrb_debug_pop` pops for an input `n`.
pub open spec fn pop_count(n: u32) -> nat {
    (n % 2048 + 512) as nat
}

/// What `property_rrb_debug_pop` reports: after the pops, `Pass` exactly when
/// iteration, `len` and `get` agree on the vector, else `Fail` with the first
/// disagreement.
pub open spec fn rrb_debug_pop_holds(n: u32, r: PropertyResult) -> bool {
    exists|vs: Seq<Vector<i32>>|
        #[trigger] pop_chain(vs, pop_count(n)) && outcome_is(
            r,
            iteration_failure(vs[pop_count(n) as int]),
        )
}

/// A run of `Vector::pop_front` calls must leave the vector consistent: after
/// building `0, 1, ..., 3m - 1` with `m = n % 2048 + 512` and popping `m`
/// elements from the front, iteration, `len` and `get` must agree.
pub fn property_rrb_debug_pop(n: u32) -> (r: PropertyResult)
    ensures
        rrb_debug_pop_holds(n, r),
{
    let n_in = n;
    let n: usize = (n % 2048).saturating_add(512) as usize;
    assert(n == pop_count(n_in));
    let values = ascending_values(n * 3);
    let mut v = vector_from_slice(values.as_slice());
    let ghost mut vs: Seq<Vector<i32>> = seq![v];
    let mut popped: usize = 0;
    while popped < n
        invariant
            popped <= n,
            n == pop_count(n_in),
            vs.len() == popped + 1,
            vs[popped as int] == v,
            vector_collected(counting(3 * n as nat), vs[0]),
            vector_items(vs[0]) == counting(3 * n as nat),
            vector_len_answer(vs[0]) == 3 * n,
            forall|k: int| 0 <= k < popped ==> #[trigger] pop_link_at(vs, k),
        decreases n - popped,
    {
        vector_pop_front(&mut v);
        proof {
            let prev = vs;
            vs = vs.push(v);
            assert(pop_link_at(vs, popped as int));
            assert forall|k: int| 0 <= k < popped + 1 implies #[trigger] pop_link_at(vs, k) by {
                if k < popped {
                    assert(pop_link_at(prev, k));
                }
            }
        }
        popped = popped + 1;
    }
    let r = match iteration_matches_indexing(&v) {
        Ok(()) => PropertyResult::Pass,
        Err(m) => PropertyResult::Fail(m),
    };
    assert(pop_chain(vs, pop_count(n_in)));
    assert(outcome_is(r, iteration_failure(vs[pop_count(n_in) as int])));
    r
}

/// The message for an index where iteration and `get` disagree after an append.
pub open spec fn index_mismatch_text(i: nat, want: int, got: int) -> Seq<char> {
    "index "@ + decimal(i) + " mismatch: iter says "@ + signed_decimal(want) + ", get says "@
        + signed_decimal(got)
}

/// The message for an index that `get` misses after an append.
pub open spec fn index_missing_text(i: nat, len: nat) -> Seq<char> {
    "index "@ + decimal(i) + " missing; len = "@ + decimal(len)
}

fn index_mismatch(i: usize, want: i32, got: i32) -> (m: String)
    ensures
        m@ == index_mismatch_text(i as nat, want as int, got as int),
{
    let mut m = String::new();
    m.append("index ");
    push_decimal(&mut m, i as u128);
    m.append(" mismatch: iter says ");
    push_signed_decimal(&mut m, want as i64);
    m.append(", get says ");
    push_signed_decimal(&mut m, got as i64);
    m
}

fn index_missing(i: usize, len: usize) -> (m: String)
    ensures
        m@ == index_missing_text(i as nat, len as nat),
{
    let mut m = String::new();
    m.append("index ");
    push_decimal(&mut m, i as u128);
    m.append(" missing; len = ");
    push_decimal(&mut m, len as u128);
    m
}

/// The first index from `i` on where `get` does not answer the element that
/// iteration yields, as its message.
pub open spec fn lookup_failure(v: Vector<i32>, items: Seq<i32>, i: nat) -> Option<Seq<char>>
    decreases items.len() - i,
{
    if i >= items.len() {
        None
    } else {
        match vector_get_answer(v, i as usize) {
            Some(g) => if g != items[i as int] {
                Some(index_mismatch_text(i, items[i as int] as int, g as int))
            } else {
                lookup_failure(v, items, i + 1)
            },
            None => Some(index_missing_text(i, vector_len_answer(v) as nat)),
        }
    }
}

/// Checks that `get(i)` gives the `i`-th element that iteration yields, for
/// every `i` that iteration reaches.
fn indexing_follows_iteration(v: &Vector<i32>) -> (r: Result<(), String>)
    ensures
        error_text(r) == lookup_failure(*v, vector_items(*v), 0),
{
    let expected = vector_to_vec(v);
    let mut i: usize = 0;
    while i < expected.len()
        invariant
            expected@ == vector_items(*v),
            i <= expected@.len(),
            lookup_failure(*v, vector_items(*v), 0) == lookup_failure(*v, expected@, i as nat),
        decreases expected.len() - i,
    {
        let want = expected[i];
        match vector_get(v, i) {
            Some(got) => {
                if got != want {
                    return Err(index_mismatch(i, want, got));
                }
            },
            None => {
                return Err(index_missing(i, vector_len(v)));
            },
        }
        i = i + 1;
    }
    Ok(())
}

/// The position that the `k`-th removal targets (`k` from 0 to 199).
pub open spec fn removal_index(keep_every: nat, k: nat) -> nat {
    ((199 - k) * 1313 + 7 + keep_every) as nat
}

/// One removal step from `a` leaves `b`: what `remove(idx)` left of `a` when
/// `idx` is below what `len` answers, else the vector unchanged.
pub open spec fn remove_link(a: Vector<i32>, b: Vector<i32>, idx: nat) -> bool {
    if idx < vector_len_answer(a) {
        &&& vector_removed(a, idx as usize, b)
        &&& idx < vector_items(a).len() ==> vector_items(b) == vector_items(a).remove(idx as int)
    } else {
        b == a
    }
}

/// The `k`-th removal step of a run of vectors.
pub open spec fn removal_link_at(vs: Seq<Vector<i32>>, keep_every: nat, k: int) -> bool {
    remove_link(vs[k], vs[k + 1], removal_index(keep_every, k as nat))
}

/// `vs` is the run of 200 removal steps from the vector collected from
/// `0, 1, ..., 64^3 + 639`, and `w` is its last vector split at a third of
/// what `len` answers into `left` and `right`, and `right` appended to `left`.
pub open spec fn density_run(
    vs: Seq<Vector<i32>>,
    left: Vector<i32>,
    right: Vector<i32>,
    w: Vector<i32>,
    keep_every: nat,
) -> bool {
    &&& vs.len() == 201
    &&& vector_collected(counting(262784), vs[0])
    &&& vector_items(vs[0]) == counting(262784)
    &&& vector_split(vs[200], (vector_len_answer(vs[200]) / 3) as usize, left, right)
    &&& vector_appended(left, right, w)
    &&& forall|k: int| 0 <= k < 200 ==> #[trigger] removal_link_at(vs, keep_every, k)
    &&& (vector_len_answer(vs[200]) / 3 <= vector_items(vs[200]).len() ==> vector_items(w)
        == vector_items(vs[200]))
}

/// What `property_rrb_density_check` reports: after the removals, the split
/// and the append, `Pass` exactly when `get` agrees with iteration at every
/// index, else `Fail` with the first disagreement.
pub open spec fn rrb_density_check_holds(n_removed: u32, r: PropertyResult) -> bool {
    exists|vs: Seq<Vector<i32>>, left: Vector<i32>, right: Vector<i32>, w: Vector<i32>|
        #[trigger] density_run(vs, left, right, w, (n_removed % 16 + 1) as nat) && outcome_is(
            r,
            lookup_failure(w, vector_items(w), 0),
        )
}

/// After `remove`, `split_at` and `append` on a vector deep enough for a
/// level-2 RRB tree, random access must still agree with iteration: the vector
/// `0, 1, ..., 64^3 + 639` loses up to 200 elements at positions spaced
/// `(64^3 + 640) / 200` apart (offset by `n_removed % 16 + 8`), is split at a
/// third of its length and joined again.
pub fn property_rrb_density_check(n_removed: u32) -> (r: PropertyResult)
    ensures
        rrb_density_check_holds(n_removed, r),
{
    let total: usize = 64 * 64 * 64 + 640;
    let keep_every: usize = (n_removed % 16 + 1) as usize;
    let values = ascending_values(total);
    let mut v = vector_from_slice(values.as_slice());
    let ghost mut vs: Seq<Vector<i32>> = seq![v];
    let mut i: usize = 200;
    while i > 0
        invariant
            i <= 200,
            total == 64 * 64 * 64 + 640,
            keep_every == n_removed % 16 + 1,
            vs.len() == 201 - i,
            vs[200 - i] == v,
            vector_collected(counting(262784), vs[0]),
            vector_items(vs[0]) == counting(262784),
            forall|k: int| 0 <= k < 200 - i ==> #[trigger] removal_link_at(vs, keep_every as nat, k),
        decreases i,
    {
        i = i - 1;
        let stride = total / 200;
        assert(i * stride <= 200 * 1313) by (nonlinear_arith)
            requires
                i <= 200,
                stride == 1313,
        ;
        let idx = i * stride + 7 + keep_every;
        if idx < vector_len(&v) {
            vector_remove(&mut v, idx);
        }
        proof {
            let prev = vs;
            vs = vs.push(v);
            assert(idx == removal_index(keep_every as nat, (199 - i) as nat));
            assert(removal_link_at(vs, keep_every as nat, 199 - i));
            assert forall|k: int| 0 <= k < 200 - i implies #[trigger] removal_link_at(
                vs,
                keep_every as nat,
                k,
            ) by {
                if k < 199 - i {
                    assert(removal_link_at(prev, keep_every as nat, k));
                }
            }
        }
    }
    let split_at = vector_len(&v) / 3;
    let ghost last = v;
    let (left, right) = vector_split_at(v, split_at);
    let ghost left_half = left;
    let ghost right_half = right;
    let mut result = left;
    vector_append(&mut result, right);
    proof {
        if split_at <= vector_items(last).len() {
            assert(vector_items(result) =~= vector_items(last));
        }
    }
    let r = match indexing_follows_iteration(&result) {
        Ok(()) => PropertyResult::Pass,
        Err(m) => PropertyResult::Fail(m),
    };
    assert((n_removed % 16 + 1) as nat == keep_every as nat);
    assert(density_run(vs, left_half, right_half, result, (n_removed % 16 + 1) as nat));
    assert(outcome_is(r, lookup_failure(result, vector_items(result), 0)));
    r
}

/// The message for a `ptr_eq` that ignored a diverged element.
pub open spec fn ptr_eq_text(slot: nat) -> Seq<char> {
    "ptr_eq returned true after set(slot="@ + decimal(slot) + ") diverged the vectors"@
}

fn ptr_eq_message(slot: usize) -> (m: String)
    ensures
        m@ == ptr_eq_text(slot as nat),
{
    let mut m = String::new();
    m.append("ptr_eq returned true after set(slot=");
    push_decimal(&mut m, slot as u128);
    m.append(") diverged the vectors");
    m
}

/// The vector length that `property_ptr_eq_precedence` builds for a `size` input.
pub open spec fn ptr_eq_size(size: u32) -> nat {
    (size % 1024 + 128) as nat
}

/// The outcome of the `ptr_eq` check for a given answer: `Fail` naming the
/// slot when the two vectors were reported to share their content, else `Pass`.
pub fn ptr_eq_outcome(shared: bool, slot: usize) -> (r: PropertyResult)
    ensures
        outcome_is(
            r,
            if shared {
                Some(ptr_eq_text(slot as nat))
            } else {
                None
            },
        ),
{
    if shared {
        PropertyResult::Fail(ptr_eq_message(slot))
    } else {
        PropertyResult::Pass
    }
}

/// `a0` was collected from `0, 1, ..., s - 1`, `b` is its clone and `a` is
/// what `set(k, -999)` made of `a0`.
pub open spec fn diverged_pair(
    a0: Vector<i32>,
    a: Vector<i32>,
    b: Vector<i32>,
    s: nat,
    k: nat,
) -> bool {
    &&& vector_collected(counting(s), a0)
    &&& vector_cloned(a0, b)
    &&& vector_set_from(a0, k as usize, -999i32, a)
    &&& vector_items(b) == counting(s)
    &&& vector_items(a) == counting(s).update(k as int, -999i32)
}

/// What `property_ptr_eq_precedence` reports: on the vector collected from
/// `0, 1, ..., s - 1`, its clone `b`, and `a` made from it by `set` at the
/// slot, `ptr_eq(a, b)` cannot answer `true`, since `a` and `b` no longer hold
/// the same elements; so the report is `Pass`.
pub open spec fn ptr_eq_precedence_holds(size: u32, slot: u32, r: PropertyResult) -> bool {
    let s = ptr_eq_size(size);
    let k = (slot % (s as u32)) as nat;
    exists|a0: Vector<i32>, a: Vector<i32>, b: Vector<i32>|
        #[trigger] diverged_pair(a0, a, b, s, k) && outcome_is(r, None)
}

/// `Vector::ptr_eq` must answer `false` once two sibling vectors have diverged:
/// `a` is `0, 1, ..., s - 1` with `s = size % 1024 + 128`, `b` its clone, and
/// after `a.set(slot % s, -999)` the two no longer share their content.
pub fn property_ptr_eq_precedence(size: u32, slot: u32) -> (r: PropertyResult)
    ensures
        ptr_eq_precedence_holds(size, slot, r),
{
    let size_in = size;
    let slot_in = slot;
    let size: i32 = (size % 1024 + 128) as i32;
    let slot: usize = (slot % size as u32) as usize;
    assert(size == ptr_eq_size(size_in));
    assert(slot == (slot_in % (ptr_eq_size(size_in) as u32)) as nat);
    let values = ascending_values(size as usize);
    let mut a = vector_from_slice(values.as_slice());
    let ghost original = a;
    let b = vector_clone(&a);
    vector_set(&mut a, slot, -999);
    // After a single `set`, `a` has diverged at index `slot`.
    assert(vector_items(a)[slot as int] != vector_items(b)[slot as int]);
    let r = ptr_eq_outcome(vector_ptr_eq(&a, &b), slot);
    assert(diverged_pair(original, a, b, ptr_eq_size(size_in), slot as nat));
    r
}

/// The message for two vectors of the same elements that compared unequal.
pub open spec fn unequal_text(a_len: nat, b_len: nat) -> Seq<char> {
    "vectors with identical elements compared unequal (len="@ + decimal(a_len) + " vs "@ + decimal(
        b_len,
    ) + ")"@
}

fn unequal_message(a_len: usize, b_len: usize) -> (m: String)
    ensures
        m@ == unequal_text(a_len as nat, b_len as nat),
{
    let mut m = String::new();
    m.append("vectors with identical elements compared unequal (len=");
    push_decimal(&mut m, a_len as u128);
    m.append(" vs ");
    push_decimal(&mut m, b_len as u128);
    m.append(")");
    m
}

/// `a` and `b` were each collected from `xs`.
pub open spec fn collected_twice(xs: Seq<i32>, a: Vector<i32>, b: Vector<i32>) -> bool {
    &&& vector_collected(xs, a)
    &&& vector_collected(xs, b)
    &&& vector_items(a) == xs
    &&& vector_items(b) == xs
    &&& vector_len_answer(a) == xs.len()
    &&& vector_len_answer(b) == xs.len()
}

/// What `property_eq_single_chunk` reports: `Discard` for more than 60
/// elements; else, for two vectors each collected from `xs`, `Pass` exactly
/// when `==` answers `true`, otherwise `Fail` with the input's length twice.
pub open spec fn eq_single_chunk_holds(xs: Seq<i32>, r: PropertyResult) -> bool {
    if xs.len() > 60 {
        r is Discard
    } else {
        exists|a: Vector<i32>, b: Vector<i32>|
            #[trigger] collected_twice(xs, a, b) && outcome_is(
                r,
                if vector_eq_answer(a, b) {
                    None
                } else {
                    Some(unequal_text(xs.len(), xs.len()))
                },
            )
    }
}

/// `PartialEq` on `Vector` must report equality by element sequence whatever
/// the internal layout: two vectors collected separately from `xs` compare
/// equal. Inputs of more than 60 elements, past the single-chunk layout, are
/// out of scope.
pub fn property_eq_single_chunk(xs: Vec<i32>) -> (r: PropertyResult)
    ensures
        eq_single_chunk_holds(xs@, r),
{
    if xs.len() > 60 {
        return PropertyResult::Discard;
    }
    // Two independent collections: the same elements in distinct chunks.
    let a = vector_from_slice(xs.as_slice());
    let b = vector_from_slice(xs.as_slice());
    let r = if vector_eq(&a, &b) {
        PropertyResult::Pass
    } else {
        PropertyResult::Fail(unequal_message(vector_len(&a), vector_len(&b)))
    };
    assert(collected_twice(xs@, a, b));
    assert(outcome_is(
        r,
        if vector_eq_answer(a, b) {
            None
        } else {
            Some(unequal_text(xs@.len(), xs@.len()))
        },
    ));
    r
}

/// The range-backtracking property reads `lo_hint` only modulo 320 and
/// `span_hint` only modulo 256: the reports admitted for the shifted inputs
/// are exactly those admitted for the original ones.
pub proof fn lemma_path_next_backtrack_reduces(lo_hint: u32, span_hint: u32, r: PropertyResult)
    requires
        lo_hint <= u32::MAX - 320,
        span_hint <= u32::MAX - 256,
    ensures
        path_next_backtrack_holds((lo_hint + 320) as u32, span_hint, r) == path_next_backtrack_holds(
            lo_hint,
            span_hint,
            r,
        ),
        path_next_backtrack_holds(lo_hint, (span_hint + 256) as u32, r) == path_next_backtrack_holds(
            lo_hint,
            span_hint,
            r,
        ),
{
    assert(((lo_hint + 320) as u32) % 320 == lo_hint % 320);
    assert(((span_hint + 256) as u32) % 256 == span_hint % 256);
    assert forall|m: OrdMap<usize, ()>|
        sweep_failure(m, (lo_hint + 320) as u32, span_hint) == sweep_failure(m, lo_hint, span_hint)
            && sweep_failure(m, lo_hint, (span_hint + 256) as u32) == sweep_failure(
            m,
            lo_hint,
            span_hint,
        ) by {}
}

/// The range upper-bound property reads a non-zero `size` only modulo 4096 and
/// `hi_factor` only modulo twice the map size.
pub proof fn lemma_range_off_by_one_reduces(size: u32, hi_factor: u32, r: PropertyResult)
    requires
        1 <= size <= u32::MAX - 4096,
        hi_factor <= u32::MAX - 2 * bound_size(size),
    ensures
        range_off_by_one_holds((size + 4096) as u32, hi_factor, r) == range_off_by_one_holds(
            size,
            hi_factor,
            r,
        ),
        range_off_by_one_holds(size, (hi_factor + 2 * bound_size(size)) as u32, r)
            == range_off_by_one_holds(size, hi_factor, r),
{
    assert(((size + 4096) as u32) % 4096 == size % 4096);
    assert(bound_size((size + 4096) as u32) == bound_size(size));
    let twice = ((bound_size(size) as u32) * 2) as u32;
    assert(twice == 2 * bound_size(size) && twice > 0);
    vstd::arithmetic::div_mod::lemma_mod_add_multiples_vanish(hi_factor as int, twice as int);
    assert(((hi_factor + 2 * bound_size(size)) as u32) % twice == hi_factor % twice);
    assert(odd_bound((size + 4096) as u32, hi_factor) == odd_bound(size, hi_factor));
    assert(odd_bound(size, (hi_factor + 2 * bound_size(size)) as u32) == odd_bound(size, hi_factor));
}

/// The pop-front property reads `n` only modulo 2048.
pub proof fn lemma_rrb_debug_pop_reduces(n: u32, r: PropertyResult)
    requires
        n <= u32::MAX - 2048,
    ensures
        rrb_debug_pop_holds((n + 2048) as u32, r) == rrb_debug_pop_holds(n, r),
{
    assert(pop_count((n + 2048) as u32) == pop_count(n));
}

/// The remove/split/append property reads `n_removed` only modulo 16.
pub proof fn lemma_rrb_density_check_reduces(n_removed: u32, r: PropertyResult)
    requires
        n_removed <= u32::MAX - 16,
    ensures
        rrb_density_check_holds((n_removed + 16) as u32, r) == rrb_density_check_holds(n_removed, r),
{
    assert(((n_removed + 16) as u32) % 16 == n_removed % 16);
}

/// The `ptr_eq` property reads `size` only modulo 1024 and `slot` only modulo
/// the vector length.
pub proof fn lemma_ptr_eq_precedence_reduces(size: u32, slot: u32, r: PropertyResult)
    requires
        size <= u32::MAX - 1024,
        slot <= u32::MAX - ptr_eq_size(size),
    ensures
        ptr_eq_precedence_holds((size + 1024) as u32, slot, r) == ptr_eq_precedence_holds(
            size,
            slot,
            r,
        ),
        ptr_eq_precedence_holds(size, (slot + ptr_eq_size(size)) as u32, r)
            == ptr_eq_precedence_holds(size, slot, r),
{
    assert(ptr_eq_size((size + 1024) as u32) == ptr_eq_size(size));
    let s = ptr_eq_size(size);
    vstd::arithmetic::div_mod::lemma_mod_add_multiples_vanish(slot as int, s as int);
    assert(((slot + s) as u32) % (s as u32) == slot % (s as u32));
}

/// The range-backtracking property is never out of scope: whatever its
/// inputs, it passes or fails.
pub proof fn lemma_path_next_backtrack_decides(lo_hint: u32, span_hint: u32, r: PropertyResult)
    requires
        path_next_backtrack_holds(lo_hint, span_hint, r),
    ensures
        r is Pass || r is Fail,
{
}

/// The range upper-bound property is out of scope exactly when `size` is
/// zero: for every other size and every `hi_factor` it passes or fails.
pub proof fn lemma_range_off_by_one_scope(size: u32, hi_factor: u32, r: PropertyResult)
    requires
        range_off_by_one_holds(size, hi_factor, r),
    ensures
        r is Discard <==> size == 0,
        size >= 1 ==> (r is Pass || r is Fail),
{
}

/// The pop-front property is never out of scope.
pub proof fn lemma_rrb_debug_pop_decides(n: u32, r: PropertyResult)
    requires
        rrb_debug_pop_holds(n, r),
    ensures
        r is Pass || r is Fail,
{
}

/// The remove/split/append property is never out of scope: for every
/// `n_removed` it runs its check and passes or fails.
pub proof fn lemma_rrb_density_check_decides(n_removed: u32, r: PropertyResult)
    requires
        rrb_density_check_holds(n_removed, r),
    ensures
        r is Pass || r is Fail,
{
}

/// The `ptr_eq` property passes for every size and slot: after `set` has
/// written `-999` into a vector of non-negative elements, the two vectors hold
/// different elements, so `ptr_eq` cannot answer that they share content.
pub proof fn lemma_ptr_eq_precedence_passes(size: u32, slot: u32, r: PropertyResult)
    requires
        ptr_eq_precedence_holds(size, slot, r),
    ensures
        r is Pass,
{
}

/// The equality property is out of scope exactly for inputs of more than 60
/// elements, whatever their values; on any other input it passes or fails,
/// and a failure names the input's length twice.
pub proof fn lemma_eq_single_chunk_scope(xs: Seq<i32>, r: PropertyResult)
    requires
        eq_single_chunk_holds(xs, r),
    ensures
        r is Discard <==> xs.len() > 60,
        xs.len() <= 60 ==> (r is Pass || r is Fail),
        forall|m: String| r == PropertyResult::Fail(m) ==> m@ == unequal_text(xs.len(), xs.len()),
{
}

} // verus!
