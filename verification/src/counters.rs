use vstd::prelude::*;

verus! {

/// A statistics counter after one more event: it wraps around to zero past
/// `usize::MAX`, as an atomic `fetch_add` does.
pub open spec fn wrapped_inc(n: usize) -> usize {
    if n == usize::MAX {
        0
    } else {
        (n + 1) as usize
    }
}

/// Counting one event adds one modulo `usize::MAX + 1`, as a wrapping
/// atomic `fetch_add(1)` does: past `usize::MAX` the counter restarts at 0.
pub proof fn lemma_wrapped_inc_is_modular(n: usize)
    ensures
        wrapped_inc(n) as int == (n + 1) % (usize::MAX + 1),
        wrapped_inc(usize::MAX) == 0,
        n < usize::MAX ==> wrapped_inc(n) == n + 1,
{
    let m: int = usize::MAX + 1;
    if n == usize::MAX {
        vstd::arithmetic::div_mod::lemma_mod_self_0(m);
    } else {
        vstd::arithmetic::div_mod::lemma_small_mod((n + 1) as nat, m as nat);
    }
}

/// Adds one to a statistics counter, wrapping around past `usize::MAX`.
pub fn wrapping_inc(n: usize) -> (r: usize)
    ensures
        r == wrapped_inc(n),
{
    if n == usize::MAX {
        0
    } else {
        n + 1
    }
}

/// A statistics counter after `k` more events, wrapping around past
/// `usize::MAX`.
pub open spec fn wrapped_add(n: usize, k: nat) -> usize {
    ((n + k) % (usize::MAX + 1)) as usize
}

/// One more event after `k` events is `k + 1` events.
pub proof fn lemma_wrapped_add_step(n: usize, k: nat)
    ensures
        wrapped_inc(wrapped_add(n, k)) == wrapped_add(n, k + 1),
        wrapped_add(n, 0) == n,
{
    let m: int = usize::MAX + 1;
    assert(m > 0);
    vstd::arithmetic::div_mod::lemma_add_mod_noop(n + k, 1, m);
    vstd::arithmetic::div_mod::lemma_small_mod(1, m as nat);
    vstd::arithmetic::div_mod::lemma_small_mod(n as nat, m as nat);
    let r: int = (n + k) % m;
    assert(0 <= r < m) by {
        vstd::arithmetic::div_mod::lemma_mod_bound(n + k, m);
    }
    if r == usize::MAX {
        vstd::arithmetic::div_mod::lemma_mod_self_0(m);
    } else {
        vstd::arithmetic::div_mod::lemma_small_mod((r + 1) as nat, m as nat);
    }
}

/// Counting one event and then `k` more is counting `k + 1` events.
pub proof fn lemma_wrapped_inc_add(n: usize, k: nat)
    ensures
        wrapped_add(wrapped_inc(n), k) == wrapped_add(n, k + 1),
{
    let m: int = usize::MAX + 1;
    lemma_wrapped_add_step(n, 0);
    lemma_wrapped_add_step(n, 1);
    assert(wrapped_inc(n) == wrapped_add(n, 1));
    assert(wrapped_inc(n) as int == (n + 1) % m);
    vstd::arithmetic::div_mod::lemma_add_mod_noop(n + 1, k as int, m);
    vstd::arithmetic::div_mod::lemma_mod_bound(k as int, m);
    vstd::arithmetic::div_mod::lemma_mod_bound(n + 1, m);
    vstd::arithmetic::div_mod::lemma_mod_twice(k as int, m);
    vstd::arithmetic::div_mod::lemma_add_mod_noop(wrapped_inc(n) as int, k as int, m);
    vstd::arithmetic::div_mod::lemma_mod_twice(n + 1, m);
}

/// Counting `a` events and then `b` more is counting `a + b` events.
pub proof fn lemma_wrapped_add_add(n: usize, a: nat, b: nat)
    ensures
        wrapped_add(wrapped_add(n, a), b) == wrapped_add(n, a + b),
{
    let m: int = usize::MAX + 1;
    vstd::arithmetic::div_mod::lemma_mod_bound(n + a, m);
    vstd::arithmetic::div_mod::lemma_add_mod_noop(n + a, b as int, m);
    vstd::arithmetic::div_mod::lemma_mod_twice(b as int, m);
    vstd::arithmetic::div_mod::lemma_mod_bound(b as int, m);
    vstd::arithmetic::div_mod::lemma_add_mod_noop(wrapped_add(n, a) as int, b as int, m);
    vstd::arithmetic::div_mod::lemma_mod_twice(n + a, m);
}

/// Whether `len` items lie above `percent` percent of `capacity`, the
/// percentage of the capacity rounded down.
pub open spec fn above_percent(len: int, capacity: int, percent: int) -> bool {
    len > (capacity * percent) / 100
}

/// `len` lies above `percent` percent of `capacity`, rounded down, exactly
/// when `100 * len` exceeds `percent * capacity`.
pub proof fn lemma_above_percent_exact(len: nat, capacity: nat, percent: nat)
    ensures
        above_percent(len as int, capacity as int, percent as int) <==> 100 * len > percent
            * capacity,
{
    let x: int = (capacity * percent) as int;
    let q: int = x / 100;
    assert(100 * q <= x < 100 * q + 100);
    assert(capacity * percent == percent * capacity) by (nonlinear_arith);
}

/// Tests `above_percent` without overflow, for any capacity.
pub fn is_above_percent(len: usize, capacity: usize, percent: usize) -> (r: bool)
    requires
        percent <= 100,
    ensures
        r == above_percent(len as int, capacity as int, percent as int),
{
    let wide_cap: u128 = capacity as u128;
    let wide_pct: u128 = percent as u128;
    assert(wide_cap * wide_pct <= 0xffff_ffff_ffff_ffff * 100) by (nonlinear_arith)
        requires
            wide_cap <= 0xffff_ffff_ffff_ffff,
            wide_pct <= 100,
    ;
    let threshold: u128 = (wide_cap * wide_pct) / 100;
    (len as u128) > threshold
}

} // verus!
