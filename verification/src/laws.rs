//! Laws of the propagation model: what holds of every write, every
//! disconnect, and every sequence of writes, proved once and for all over
//! the spec-level semantics (`sw`, `deliver`, `spec_set`) that the
//! executable entity is verified against.

use vstd::prelude::*;

use crate::entity::{
    bsub_ok, deactivate_bsub, deactivate_usub, deliver, depth_budget, fval, sat_inc, spec_set, sw,
    upd_val, usub_ok, wf_cfg, wf_st, BSub, OpConfig, OpState, USub,
};
use crate::value::PropertyValue;

verus! {

/// Propagation preserves the shape of the state: one value per property
/// slot, one cache per binary subscription.
pub proof fn lemma_sw_wf<F: Fn(i64) -> i64 + Copy, G: Fn(i64, i64) -> i64 + Copy>(
    c: OpConfig<F, G>,
    s: OpState,
    p: int,
    v: PropertyValue,
    fuel: nat,
)
    requires
        wf_cfg(c),
        wf_st(c, s),
        0 <= p < c.nprops,
    ensures
        wf_st(c, sw(c, s, p, v, fuel)),
    decreases fuel, c.usubs.len() + c.bsubs.len() + 1,
{
    lemma_deliver_wf(c, upd_val(s, p, v), p, v, 0, fuel);
}

/// Delivery preserves the shape of the state.
pub proof fn lemma_deliver_wf<F: Fn(i64) -> i64 + Copy, G: Fn(i64, i64) -> i64 + Copy>(
    c: OpConfig<F, G>,
    s: OpState,
    p: int,
    v: PropertyValue,
    i: int,
    fuel: nat,
)
    requires
        wf_cfg(c),
        wf_st(c, s),
    ensures
        wf_st(c, deliver(c, s, p, v, i, fuel)),
    decreases fuel, c.usubs.len() + c.bsubs.len() - i,
{
    if i < 0 || i >= c.usubs.len() + c.bsubs.len() {
    } else if i < c.usubs.len() {
        let u = c.usubs[i];
        assert(usub_ok(u, c.nprops));
        if u.active && u.input as int == p {
            match v {
                PropertyValue::Int(x) => {
                    if fuel == 0 {
                    } else {
                        lemma_sw_wf(
                            c,
                            s,
                            u.target as int,
                            PropertyValue::Int(fval(u.f, x)),
                            (fuel - 1) as nat,
                        );
                        lemma_deliver_wf(
                            c,
                            sw(c, s, u.target as int, PropertyValue::Int(fval(u.f, x)), (fuel - 1) as nat),
                            p,
                            v,
                            i + 1,
                            fuel,
                        );
                    }
                },
                _ => {
                    lemma_deliver_wf(
                        c,
                        OpState { values: s.values, caches: s.caches, invalid: sat_inc(s.invalid) },
                        p,
                        v,
                        i + 1,
                        fuel,
                    );
                },
            }
        } else {
            lemma_deliver_wf(c, s, p, v, i + 1, fuel);
        }
    } else {
        let j = i - c.usubs.len();
        let b = c.bsubs[j];
        assert(bsub_ok(b, c.nprops));
        if b.active && (b.lhs as int == p || b.rhs as int == p) {
            match v {
                PropertyValue::Int(x) => {
                    let c0 = s.caches[j];
                    let c1 = crate::entity::Cache {
                        lhs_seen: c0.lhs_seen || b.lhs as int == p,
                        rhs_seen: c0.rhs_seen || b.rhs as int == p,
                        lhs_last: if b.lhs as int == p { x } else { c0.lhs_last },
                        rhs_last: if b.rhs as int == p { x } else { c0.rhs_last },
                    };
                    let s1 = OpState { values: s.values, caches: s.caches.update(j, c1), invalid: s.invalid };
                    if c1.lhs_seen && c1.rhs_seen {
                        if fuel == 0 {
                        } else {
                            lemma_sw_wf(
                                c,
                                s1,
                                b.target as int,
                                PropertyValue::Int(crate::entity::gval(b.g, c1.lhs_last, c1.rhs_last)),
                                (fuel - 1) as nat,
                            );
                            lemma_deliver_wf(
                                c,
                                sw(
                                    c,
                                    s1,
                                    b.target as int,
                                    PropertyValue::Int(crate::entity::gval(b.g, c1.lhs_last, c1.rhs_last)),
                                    (fuel - 1) as nat,
                                ),
                                p,
                                v,
                                i + 1,
                                fuel,
                            );
                        }
                    } else {
                        lemma_deliver_wf(c, s1, p, v, i + 1, fuel);
                    }
                },
                _ => {
                    lemma_deliver_wf(
                        c,
                        OpState { values: s.values, caches: s.caches, invalid: sat_inc(s.invalid) },
                        p,
                        v,
                        i + 1,
                        fuel,
                    );
                },
            }
        } else {
            lemma_deliver_wf(c, s, p, v, i + 1, fuel);
        }
    }
}

/// Delivery to a property that no active subscription observes leaves the
/// state untouched.
pub proof fn lemma_deliver_inert<F: Fn(i64) -> i64 + Copy, G: Fn(i64, i64) -> i64 + Copy>(
    c: OpConfig<F, G>,
    s: OpState,
    p: int,
    v: PropertyValue,
    i: int,
    fuel: nat,
)
    requires
        forall|k: int|
            0 <= k < c.usubs.len() && (#[trigger] c.usubs[k]).active ==> c.usubs[k].input as int
                != p,
        forall|k: int|
            0 <= k < c.bsubs.len() && (#[trigger] c.bsubs[k]).active ==> c.bsubs[k].lhs as int != p
                && c.bsubs[k].rhs as int != p,
    ensures
        deliver(c, s, p, v, i, fuel) == s,
    decreases c.usubs.len() + c.bsubs.len() - i,
{
    if i < 0 || i >= c.usubs.len() + c.bsubs.len() {
    } else {
        lemma_deliver_inert(c, s, p, v, i + 1, fuel);
    }
}

/// Law (no propagation without an observer, in particular after
/// disconnect): a write to a property that no active subscription observes
/// changes that property's value and nothing else — no other property, no
/// cache, no diagnostics.  Once a binding is disconnected, its subscription
/// is inactive, so a write to an input watched by nothing else falls under
/// this law: the target property keeps its value forever after.
pub proof fn lemma_write_without_observers<F: Fn(i64) -> i64 + Copy, G: Fn(i64, i64) -> i64 + Copy>(
    c: OpConfig<F, G>,
    s: OpState,
    p: int,
    v: PropertyValue,
    fuel: nat,
)
    requires
        forall|k: int|
            0 <= k < c.usubs.len() && (#[trigger] c.usubs[k]).active ==> c.usubs[k].input as int
                != p,
        forall|k: int|
            0 <= k < c.bsubs.len() && (#[trigger] c.bsubs[k]).active ==> c.bsubs[k].lhs as int != p
                && c.bsubs[k].rhs as int != p,
    ensures
        sw(c, s, p, v, fuel) == upd_val(s, p, v),
{
    lemma_deliver_inert(c, upd_val(s, p, v), p, v, 0, fuel);
}

/// Law (disconnect is idempotent): removing the same unary observer twice
/// leaves exactly the registry that removing it once leaves; the second
/// removal is a no-op, not an error.
pub proof fn lemma_disconnect_idempotent_unary<F>(subs: Seq<USub<F>>, slot: int, handle: usize)
    ensures
        deactivate_usub(deactivate_usub(subs, slot, handle), slot, handle) == deactivate_usub(
            subs,
            slot,
            handle,
        ),
{
    let d1 = deactivate_usub(subs, slot, handle);
    if 0 <= slot < subs.len() && subs[slot].handle == handle {
        assert(deactivate_usub(d1, slot, handle) =~= d1);
    }
}

/// Law (disconnect is idempotent), for binary observers.
pub proof fn lemma_disconnect_idempotent_binary<G>(subs: Seq<BSub<G>>, slot: int, handle: usize)
    ensures
        deactivate_bsub(deactivate_bsub(subs, slot, handle), slot, handle) == deactivate_bsub(
            subs,
            slot,
            handle,
        ),
{
    let d1 = deactivate_bsub(subs, slot, handle);
    if 0 <= slot < subs.len() && subs[slot].handle == handle {
        assert(deactivate_bsub(d1, slot, handle) =~= d1);
    }
}

/// What one write does when exactly one unary binding is attached and
/// active: an integer value lands in the input property and `f` of it in
/// the target property; anything else lands in the input property alone and
/// is counted as a dropped invalid update.  Caches are untouched either
/// way.
pub proof fn lemma_single_unary_write<F: Fn(i64) -> i64 + Copy, G: Fn(i64, i64) -> i64 + Copy>(
    c: OpConfig<F, G>,
    s: OpState,
    v: PropertyValue,
)
    requires
        wf_cfg(c),
        wf_st(c, s),
        c.usubs.len() == 1,
        c.bsubs.len() == 0,
        c.usubs[0].active,
        c.usubs[0].input != c.usubs[0].target,
    ensures
        spec_set(c, s, c.usubs[0].input as int, v).caches == s.caches,
        match v {
            PropertyValue::Int(x) => spec_set(c, s, c.usubs[0].input as int, v).values
                == s.values.update(c.usubs[0].input as int, v).update(
                c.usubs[0].target as int,
                PropertyValue::Int(fval(c.usubs[0].f, x)),
            ) && spec_set(c, s, c.usubs[0].input as int, v).invalid == s.invalid,
            _ => spec_set(c, s, c.usubs[0].input as int, v).values == s.values.update(
                c.usubs[0].input as int,
                v,
            ) && spec_set(c, s, c.usubs[0].input as int, v).invalid == sat_inc(s.invalid),
        },
{
    let u = c.usubs[0];
    assert(usub_ok(u, c.nprops));
    let a = u.input as int;
    let b = u.target as int;
    let fuel = depth_budget(c);
    assert(fuel == 2);
    let s_a = upd_val(s, a, v);
    assert(spec_set(c, s, a, v) == deliver(c, s_a, a, v, 0, fuel));
    match v {
        PropertyValue::Int(x) => {
            let y = PropertyValue::Int(fval(u.f, x));
            let inner = sw(c, s_a, b, y, (fuel - 1) as nat);
            assert(deliver(c, s_a, a, v, 0, fuel) == deliver(c, inner, a, v, 1, fuel));
            assert(deliver(c, inner, a, v, 1, fuel) == inner);
            let s_ab = upd_val(s_a, b, y);
            assert(inner == deliver(c, s_ab, b, y, 0, (fuel - 1) as nat));
            assert(deliver(c, s_ab, b, y, 0, (fuel - 1) as nat) == deliver(
                c,
                s_ab,
                b,
                y,
                1,
                (fuel - 1) as nat,
            ));
            assert(deliver(c, s_ab, b, y, 1, (fuel - 1) as nat) == s_ab);
        },
        _ => {
            let s_bump = OpState { values: s_a.values, caches: s_a.caches, invalid: sat_inc(s_a.invalid) };
            assert(deliver(c, s_a, a, v, 0, fuel) == deliver(c, s_bump, a, v, 1, fuel));
            assert(deliver(c, s_bump, a, v, 1, fuel) == s_bump);
        },
    }
}

/// The state after a whole sequence of writes to property `p`, each one
/// fully propagated before the next.
pub open spec fn run_sets<F: Fn(i64) -> i64 + Copy, G: Fn(i64, i64) -> i64 + Copy>(
    c: OpConfig<F, G>,
    s: OpState,
    p: int,
    xs: Seq<PropertyValue>,
) -> OpState
    decreases xs.len(),
{
    if xs.len() <= 0 {
        s
    } else {
        run_sets(c, spec_set(c, s, p, xs[0]), p, xs.subrange(1, xs.len() as int))
    }
}

/// The last integer in a sequence of written values: the most recent valid
/// input.
pub open spec fn last_valid(xs: Seq<PropertyValue>) -> Option<i64>
    decreases xs.len(),
{
    if xs.len() <= 0 {
        None
    } else {
        match xs.last() {
            PropertyValue::Int(x) => Some(x),
            _ => last_valid(xs.drop_last()),
        }
    }
}

/// Running one more write equals writing into the state the previous run
/// produced.
pub proof fn lemma_run_push<F: Fn(i64) -> i64 + Copy, G: Fn(i64, i64) -> i64 + Copy>(
    c: OpConfig<F, G>,
    s: OpState,
    p: int,
    xs: Seq<PropertyValue>,
    v: PropertyValue,
)
    ensures
        run_sets(c, s, p, xs.push(v)) == spec_set(c, run_sets(c, s, p, xs), p, v),
    decreases xs.len(),
{
    if xs.len() == 0 {
        assert(xs.push(v)[0] == v);
        assert(xs.push(v).subrange(1, 1) =~= Seq::<PropertyValue>::empty());
        assert(run_sets(c, spec_set(c, s, p, v), p, xs.push(v).subrange(1, 1)) == spec_set(
            c,
            s,
            p,
            v,
        ));
    } else {
        assert(xs.push(v)[0] == xs[0]);
        assert(xs.push(v).subrange(1, xs.push(v).len() as int) =~= xs.subrange(
            1,
            xs.len() as int,
        ).push(v));
        lemma_run_push(c, spec_set(c, s, p, xs[0]), p, xs.subrange(1, xs.len() as int), v);
    }
}

/// Running writes preserves the shape of the state.
pub proof fn lemma_run_wf<F: Fn(i64) -> i64 + Copy, G: Fn(i64, i64) -> i64 + Copy>(
    c: OpConfig<F, G>,
    s: OpState,
    p: int,
    xs: Seq<PropertyValue>,
)
    requires
        wf_cfg(c),
        wf_st(c, s),
        0 <= p < c.nprops,
    ensures
        wf_st(c, run_sets(c, s, p, xs)),
    decreases xs.len(),
{
    if xs.len() == 0 {
    } else {
        lemma_sw_wf(c, s, p, xs[0], depth_budget(c));
        lemma_run_wf(c, spec_set(c, s, p, xs[0]), p, xs.subrange(1, xs.len() as int));
    }
}

/// Law (the latest valid input wins): with one active unary binding, after
/// any sequence of writes to its input property the target property holds
/// `f` of the most recent integer written, and keeps its prior value if no
/// integer was written at all.  Invalid values in between change nothing
/// about the target.
pub proof fn lemma_latest_input_wins<F: Fn(i64) -> i64 + Copy, G: Fn(i64, i64) -> i64 + Copy>(
    c: OpConfig<F, G>,
    s: OpState,
    xs: Seq<PropertyValue>,
)
    requires
        wf_cfg(c),
        wf_st(c, s),
        c.usubs.len() == 1,
        c.bsubs.len() == 0,
        c.usubs[0].active,
        c.usubs[0].input != c.usubs[0].target,
    ensures
        run_sets(c, s, c.usubs[0].input as int, xs).values[c.usubs[0].target as int] == (match last_valid(
            xs,
        ) {
            Some(x) => PropertyValue::Int(fval(c.usubs[0].f, x)),
            None => s.values[c.usubs[0].target as int],
        }),
    decreases xs.len(),
{
    let u = c.usubs[0];
    assert(usub_ok(u, c.nprops));
    let a = u.input as int;
    let b = u.target as int;
    if xs.len() == 0 {
    } else {
        let ys = xs.drop_last();
        let v = xs.last();
        assert(xs =~= ys.push(v));
        lemma_run_push(c, s, a, ys, v);
        lemma_latest_input_wins(c, s, ys);
        lemma_run_wf(c, s, a, ys);
        lemma_single_unary_write(c, run_sets(c, s, a, ys), v);
        match v {
            PropertyValue::Int(x) => {
                assert(last_valid(xs) == Some(x));
            },
            _ => {
                assert(last_valid(xs) == last_valid(ys));
            },
        }
    }
}

/// Law (chained bindings propagate causally): with two active unary
/// bindings, the second computing from the first one's target, a single
/// integer write `x` to the first input settles the whole chain before the
/// write returns: the middle property holds `f1(x)` and the final property
/// holds `f2(f1(x))`, with no other change.
pub proof fn lemma_chain<F: Fn(i64) -> i64 + Copy, G: Fn(i64, i64) -> i64 + Copy>(
    c: OpConfig<F, G>,
    s: OpState,
    x: i64,
)
    requires
        wf_cfg(c),
        wf_st(c, s),
        c.usubs.len() == 2,
        c.bsubs.len() == 0,
        c.usubs[0].active,
        c.usubs[1].active,
        c.usubs[1].input == c.usubs[0].target,
        c.usubs[0].input != c.usubs[0].target,
        c.usubs[1].input != c.usubs[1].target,
        c.usubs[0].input != c.usubs[1].target,
    ensures
        ({
            let a = c.usubs[0].input as int;
            let b = c.usubs[0].target as int;
            let d = c.usubs[1].target as int;
            let y = fval(c.usubs[0].f, x);
            let z = fval(c.usubs[1].f, y);
            &&& spec_set(c, s, a, PropertyValue::Int(x)).values == s.values.update(
                a,
                PropertyValue::Int(x),
            ).update(b, PropertyValue::Int(y)).update(d, PropertyValue::Int(z))
            &&& spec_set(c, s, a, PropertyValue::Int(x)).caches == s.caches
            &&& spec_set(c, s, a, PropertyValue::Int(x)).invalid == s.invalid
        }),
{
    let u0 = c.usubs[0];
    let u1 = c.usubs[1];
    assert(usub_ok(u0, c.nprops));
    assert(usub_ok(u1, c.nprops));
    let a = u0.input as int;
    let b = u0.target as int;
    let d = u1.target as int;
    let vx = PropertyValue::Int(x);
    let vy = PropertyValue::Int(fval(u0.f, x));
    let vz = PropertyValue::Int(fval(u1.f, fval(u0.f, x)));
    let fuel = depth_budget(c);
    assert(fuel == 3);
    let s_a = upd_val(s, a, vx);
    let s_ab = upd_val(s_a, b, vy);
    let s_abd = upd_val(s_ab, d, vz);
    // the innermost write, to d, triggers nothing: both inputs lie below d
    assert(sw(c, s_ab, d, vz, (fuel - 2) as nat) == deliver(c, s_abd, d, vz, 0, (fuel - 2) as nat));
    assert(deliver(c, s_abd, d, vz, 0, (fuel - 2) as nat) == deliver(
        c,
        s_abd,
        d,
        vz,
        1,
        (fuel - 2) as nat,
    ));
    assert(deliver(c, s_abd, d, vz, 1, (fuel - 2) as nat) == deliver(
        c,
        s_abd,
        d,
        vz,
        2,
        (fuel - 2) as nat,
    ));
    assert(deliver(c, s_abd, d, vz, 2, (fuel - 2) as nat) == s_abd);
    // the middle write, to b, fires the second binding and then settles
    assert(sw(c, s_a, b, vy, (fuel - 1) as nat) == deliver(c, s_ab, b, vy, 0, (fuel - 1) as nat));
    assert(deliver(c, s_ab, b, vy, 0, (fuel - 1) as nat) == deliver(
        c,
        s_ab,
        b,
        vy,
        1,
        (fuel - 1) as nat,
    ));
    assert(deliver(c, s_ab, b, vy, 1, (fuel - 1) as nat) == deliver(
        c,
        sw(c, s_ab, d, vz, (fuel - 2) as nat),
        b,
        vy,
        2,
        (fuel - 1) as nat,
    ));
    assert(deliver(c, s_abd, b, vy, 2, (fuel - 1) as nat) == s_abd);
    // the outer write, to a, fires the first binding and then settles
    assert(spec_set(c, s, a, vx) == deliver(c, s_a, a, vx, 0, fuel));
    assert(deliver(c, s_a, a, vx, 0, fuel) == deliver(
        c,
        sw(c, s_a, b, vy, (fuel - 1) as nat),
        a,
        vx,
        1,
        fuel,
    ));
    assert(deliver(c, s_abd, a, vx, 1, fuel) == deliver(c, s_abd, a, vx, 2, fuel));
    assert(deliver(c, s_abd, a, vx, 2, fuel) == s_abd);
}

/// Law (a binary binding waits for both sides): while one side has never
/// received a value, an integer write to the other side only records it in
/// the latest-value cache — the target property is not written.  Once both
/// sides have been seen, a write to either side recomputes the target from
/// the current pair.
pub proof fn lemma_binary_write<F: Fn(i64) -> i64 + Copy, G: Fn(i64, i64) -> i64 + Copy>(
    c: OpConfig<F, G>,
    s: OpState,
    x: i64,
    to_lhs: bool,
)
    requires
        wf_cfg(c),
        wf_st(c, s),
        c.usubs.len() == 0,
        c.bsubs.len() == 1,
        c.bsubs[0].active,
        c.bsubs[0].lhs != c.bsubs[0].rhs,
        c.bsubs[0].lhs != c.bsubs[0].target,
        c.bsubs[0].rhs != c.bsubs[0].target,
    ensures
        ({
            let b = c.bsubs[0];
            let p = if to_lhs { b.lhs as int } else { b.rhs as int };
            let c0 = s.caches[0];
            let c1 = crate::entity::Cache {
                lhs_seen: c0.lhs_seen || to_lhs,
                rhs_seen: c0.rhs_seen || !to_lhs,
                lhs_last: if to_lhs { x } else { c0.lhs_last },
                rhs_last: if to_lhs { c0.rhs_last } else { x },
            };
            let fired = PropertyValue::Int(crate::entity::gval(b.g, c1.lhs_last, c1.rhs_last));
            &&& spec_set(c, s, p, PropertyValue::Int(x)).caches == s.caches.update(0, c1)
            &&& spec_set(c, s, p, PropertyValue::Int(x)).invalid == s.invalid
            &&& (c1.lhs_seen && c1.rhs_seen) ==> spec_set(c, s, p, PropertyValue::Int(x)).values
                == s.values.update(p, PropertyValue::Int(x)).update(b.target as int, fired)
            &&& !(c1.lhs_seen && c1.rhs_seen) ==> spec_set(c, s, p, PropertyValue::Int(x)).values
                == s.values.update(p, PropertyValue::Int(x))
        }),
{
    let b = c.bsubs[0];
    assert(bsub_ok(b, c.nprops));
    let p = if to_lhs {
        b.lhs as int
    } else {
        b.rhs as int
    };
    let t = b.target as int;
    let vx = PropertyValue::Int(x);
    let fuel = depth_budget(c);
    assert(fuel == 2);
    let s_p = upd_val(s, p, vx);
    let c0 = s.caches[0];
    let c1 = crate::entity::Cache {
        lhs_seen: c0.lhs_seen || to_lhs,
        rhs_seen: c0.rhs_seen || !to_lhs,
        lhs_last: if to_lhs { x } else { c0.lhs_last },
        rhs_last: if to_lhs { c0.rhs_last } else { x },
    };
    let s_pc = OpState { values: s_p.values, caches: s_p.caches.update(0, c1), invalid: s_p.invalid };
    let vt = PropertyValue::Int(crate::entity::gval(b.g, c1.lhs_last, c1.rhs_last));
    assert(spec_set(c, s, p, vx) == deliver(c, s_p, p, vx, 0, fuel));
    if c1.lhs_seen && c1.rhs_seen {
        let s_pct = upd_val(s_pc, t, vt);
        assert(deliver(c, s_p, p, vx, 0, fuel) == deliver(
            c,
            sw(c, s_pc, t, vt, (fuel - 1) as nat),
            p,
            vx,
            1,
            fuel,
        ));
        assert(sw(c, s_pc, t, vt, (fuel - 1) as nat) == deliver(c, s_pct, t, vt, 0, (fuel - 1) as nat));
        assert(deliver(c, s_pct, t, vt, 0, (fuel - 1) as nat) == deliver(
            c,
            s_pct,
            t,
            vt,
            1,
            (fuel - 1) as nat,
        ));
        assert(deliver(c, s_pct, t, vt, 1, (fuel - 1) as nat) == s_pct);
        assert(deliver(c, s_pct, p, vx, 1, fuel) == s_pct);
    } else {
        assert(deliver(c, s_p, p, vx, 0, fuel) == deliver(c, s_pc, p, vx, 1, fuel));
        assert(deliver(c, s_pc, p, vx, 1, fuel) == s_pc);
    }
}


} // verus!
