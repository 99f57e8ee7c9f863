//! A reactive entity: named properties, each acting as a value stream, plus
//! the registry of operation subscriptions attached to those streams.
//!
//! Writing a property delivers the new value to every active subscription
//! observing that property, in registration order.  A unary subscription
//! applies its transform to the value and writes the result to its target
//! property; a binary subscription caches the latest value of each of its
//! two input sides and, once both sides have received at least one value,
//! recomputes from the current pair.  Each such write in turn triggers the
//! target property's own observers, so chains of bindings propagate
//! depth-first: an observer completes its whole side effect (including
//! downstream propagation) before the next observer of the same stream runs.
//!
//! A property's identity is its slot index, which is stable and unique for
//! the property's lifetime; a subscription's handle is the identity of its
//! target property.  Any wiring between existing properties may be
//! registered.  Re-entrant cascades are bounded by a depth budget of one
//! more than the number of subscriptions: a cascade that never revisits a
//! subscription — any cascade of a cycle-free wiring — fits in it, and a
//! looping cascade, possible only when a wiring feeds a property back into
//! its own inputs, is cut off there, so a write always settles.

use vstd::prelude::*;
use vstd::pervasive::VecAdditionalExecFns;

use crate::value::PropertyValue;

verus! {

/// A unary subscription: applies `f` to every value emitted by the `input`
/// property and writes the result to the `target` property.  `handle` is the
/// key under which the observer was registered (the target's identity);
/// disconnecting clears `active` and leaves the slot in place, so handles of
/// other subscriptions never shift.
#[derive(Clone, Copy)]
pub struct USub<F> {
    pub input: usize,
    pub target: usize,
    pub handle: usize,
    pub active: bool,
    pub f: F,
}

/// A binary subscription: observes the `lhs` and `rhs` properties and, once
/// both have emitted at least one value, writes `g(lhs, rhs)` to `target`
/// whenever either side changes.
#[derive(Clone, Copy)]
pub struct BSub<G> {
    pub lhs: usize,
    pub rhs: usize,
    pub target: usize,
    pub handle: usize,
    pub active: bool,
    pub g: G,
}

/// The latest-value cache of a binary subscription: the last value seen on
/// each side, and whether that side has emitted at all yet.
#[derive(Clone, Copy, PartialEq, Eq, Structural, Debug)]
pub struct Cache {
    pub lhs_seen: bool,
    pub rhs_seen: bool,
    pub lhs_last: i64,
    pub rhs_last: i64,
}

/// The wiring of an entity: how many property slots it has and which
/// subscriptions observe them.  A single write never changes the wiring,
/// only property values, caches and the diagnostics counter.
pub struct OpConfig<F, G> {
    pub nprops: nat,
    pub usubs: Seq<USub<F>>,
    pub bsubs: Seq<BSub<G>>,
}

/// The mutable part of an entity during propagation: current property
/// values, binary latest-value caches (parallel to the binary subscription
/// list), and the count of invalid updates dropped so far.
pub struct OpState {
    pub values: Seq<PropertyValue>,
    pub caches: Seq<Cache>,
    pub invalid: nat,
}

/// The value a deterministic transform returns on `x`.
pub open spec fn fval<F: Fn(i64) -> i64>(f: F, x: i64) -> i64 {
    choose|y: i64| call_ensures(f, (x,), y)
}

/// The value a deterministic binary transform returns on `(a, b)`.
pub open spec fn gval<G: Fn(i64, i64) -> i64>(g: G, a: i64, b: i64) -> i64 {
    choose|y: i64| call_ensures(g, (a, b), y)
}

/// A transform usable by a unary subscription: callable on every integer,
/// and deterministic, so that the propagation model can speak of "the"
/// result `fval(f, x)`.
pub open spec fn fn_ok<F: Fn(i64) -> i64>(f: F) -> bool {
    &&& forall|x: i64| call_requires(f, (x,))
    &&& forall|x: i64, y1: i64, y2: i64|
        call_ensures(f, (x,), y1) && call_ensures(f, (x,), y2) ==> y1 == y2
}

/// A transform usable by a binary subscription: callable on every pair of
/// integers, and deterministic.
pub open spec fn gn_ok<G: Fn(i64, i64) -> i64>(g: G) -> bool {
    &&& forall|a: i64, b: i64| call_requires(g, (a, b))
    &&& forall|a: i64, b: i64, y1: i64, y2: i64|
        call_ensures(g, (a, b), y1) && call_ensures(g, (a, b), y2) ==> y1 == y2
}

/// An actual return value of a deterministic transform is `fval(f, x)`.
pub proof fn lemma_fval<F: Fn(i64) -> i64>(f: F, x: i64, y: i64)
    requires
        fn_ok(f),
        call_ensures(f, (x,), y),
    ensures
        y == fval(f, x),
{
    assert(call_ensures(f, (x,), fval(f, x)));
}

/// An actual return value of a deterministic binary transform is `gval`.
pub proof fn lemma_gval<G: Fn(i64, i64) -> i64>(g: G, a: i64, b: i64, y: i64)
    requires
        gn_ok(g),
        call_ensures(g, (a, b), y),
    ensures
        y == gval(g, a, b),
{
    assert(call_ensures(g, (a, b), gval(g, a, b)));
}

/// A unary subscription whose properties exist among `nprops` slots and
/// whose transform is total and deterministic.
pub open spec fn usub_ok<F: Fn(i64) -> i64>(u: USub<F>, nprops: nat) -> bool {
    &&& (u.input as int) < (nprops as int)
    &&& (u.target as int) < (nprops as int)
    &&& fn_ok(u.f)
}

/// A binary subscription whose properties exist among `nprops` slots and
/// whose transform is total and deterministic.
pub open spec fn bsub_ok<G: Fn(i64, i64) -> i64>(b: BSub<G>, nprops: nat) -> bool {
    &&& (b.lhs as int) < (nprops as int)
    &&& (b.rhs as int) < (nprops as int)
    &&& (b.target as int) < (nprops as int)
    &&& gn_ok(b.g)
}

/// Well-formed wiring: every subscription connects existing property slots
/// and carries a total, deterministic transform.
pub open spec fn wf_cfg<F: Fn(i64) -> i64, G: Fn(i64, i64) -> i64>(c: OpConfig<F, G>) -> bool {
    &&& forall|k: int| 0 <= k < c.usubs.len() ==> usub_ok(#[trigger] c.usubs[k], c.nprops)
    &&& forall|k: int| 0 <= k < c.bsubs.len() ==> bsub_ok(#[trigger] c.bsubs[k], c.nprops)
}

/// Well-formed state for a given wiring: one value per property slot and
/// one latest-value cache per binary subscription.
pub open spec fn wf_st<F, G>(c: OpConfig<F, G>, s: OpState) -> bool {
    &&& s.values.len() == c.nprops
    &&& s.caches.len() == c.bsubs.len()
}

/// The state with property `p` set to `v`, before any observer has run.
pub open spec fn upd_val(s: OpState, p: int, v: PropertyValue) -> OpState {
    OpState { values: s.values.update(p, v), caches: s.caches, invalid: s.invalid }
}

/// The diagnostics counter after one more invalid update was dropped; the
/// counter saturates at the width of the executable counter.
pub open spec fn sat_inc(n: nat) -> nat {
    if n < u64::MAX as nat {
        n + 1
    } else {
        n
    }
}

/// One write of `v` into property `p`, including all propagation it
/// triggers, up to a cascade depth of `fuel`: each nested fire spends one
/// unit, and a fire due with none left stops the delivery there.  The
/// canonical budget is `depth_budget` (see `spec_set`), which any cascade
/// that does not revisit a subscription stays within.
pub open spec fn sw<F: Fn(i64) -> i64, G: Fn(i64, i64) -> i64>(
    c: OpConfig<F, G>,
    s: OpState,
    p: int,
    v: PropertyValue,
    fuel: nat,
) -> OpState
    decreases fuel, c.usubs.len() + c.bsubs.len() + 1,
{
    deliver(c, upd_val(s, p, v), p, v, 0, fuel)
}

/// Delivery of the emission `(p, v)` to the subscriptions from index `i`
/// on (unary subscriptions first, then binary ones), in registration
/// order.  Each matching observer completes its entire side effect — the
/// write to its target and everything that write triggers — before the
/// next observer runs, which is what keeps chained propagation causal.
/// A non-integer value arriving at an observer is an invalid update: it is
/// dropped and counted, and the transform is never applied to it.
pub open spec fn deliver<F: Fn(i64) -> i64, G: Fn(i64, i64) -> i64>(
    c: OpConfig<F, G>,
    s: OpState,
    p: int,
    v: PropertyValue,
    i: int,
    fuel: nat,
) -> OpState
    decreases fuel, c.usubs.len() + c.bsubs.len() - i,
{
    if i < 0 || i >= c.usubs.len() + c.bsubs.len() {
        s
    } else if i < c.usubs.len() {
        let u = c.usubs[i];
        if u.active && u.input as int == p {
            match v {
                PropertyValue::Int(x) => {
                    if fuel == 0 {
                        s
                    } else {
                        deliver(
                            c,
                            sw(c, s, u.target as int, PropertyValue::Int(fval(u.f, x)), (fuel - 1) as nat),
                            p,
                            v,
                            i + 1,
                            fuel,
                        )
                    }
                },
                _ => deliver(
                    c,
                    OpState { values: s.values, caches: s.caches, invalid: sat_inc(s.invalid) },
                    p,
                    v,
                    i + 1,
                    fuel,
                ),
            }
        } else {
            deliver(c, s, p, v, i + 1, fuel)
        }
    } else {
        let j = i - c.usubs.len();
        let b = c.bsubs[j];
        if b.active && (b.lhs as int == p || b.rhs as int == p) {
            match v {
                PropertyValue::Int(x) => {
                    let c0 = s.caches[j];
                    let c1 = Cache {
                        lhs_seen: c0.lhs_seen || b.lhs as int == p,
                        rhs_seen: c0.rhs_seen || b.rhs as int == p,
                        lhs_last: if b.lhs as int == p { x } else { c0.lhs_last },
                        rhs_last: if b.rhs as int == p { x } else { c0.rhs_last },
                    };
                    let s1 = OpState { values: s.values, caches: s.caches.update(j, c1), invalid: s.invalid };
                    if c1.lhs_seen && c1.rhs_seen {
                        if fuel == 0 {
                            s1
                        } else {
                            deliver(
                                c,
                                sw(
                                    c,
                                    s1,
                                    b.target as int,
                                    PropertyValue::Int(gval(b.g, c1.lhs_last, c1.rhs_last)),
                                    (fuel - 1) as nat,
                                ),
                                p,
                                v,
                                i + 1,
                                fuel,
                            )
                        }
                    } else {
                        deliver(c, s1, p, v, i + 1, fuel)
                    }
                },
                _ => deliver(
                    c,
                    OpState { values: s.values, caches: s.caches, invalid: sat_inc(s.invalid) },
                    p,
                    v,
                    i + 1,
                    fuel,
                ),
            }
        } else {
            deliver(c, s, p, v, i + 1, fuel)
        }
    }
}

/// The cascade depth budget of a wiring: one more than the number of
/// subscriptions, saturating at the width of the executable depth counter.
/// A cascade that never revisits a subscription — any cascade of a
/// cycle-free wiring — stays within it; a looping cascade, under which the
/// underlying reactive runtime would recurse without bound, is cut off at
/// the budget instead.
pub open spec fn depth_budget<F, G>(c: OpConfig<F, G>) -> nat {
    if c.usubs.len() + c.bsubs.len() + 1 < u64::MAX as nat {
        (c.usubs.len() + c.bsubs.len() + 1) as nat
    } else {
        u64::MAX as nat
    }
}

/// The canonical result of writing `v` into property `p`: `sw` with the
/// wiring's depth budget.
pub open spec fn spec_set<F: Fn(i64) -> i64, G: Fn(i64, i64) -> i64>(
    c: OpConfig<F, G>,
    s: OpState,
    p: int,
    v: PropertyValue,
) -> OpState {
    sw(c, s, p, v, depth_budget(c))
}

/// The first property slot named `name`, searching from index `i` on.
pub open spec fn find_from(names: Seq<String>, name: Seq<char>, i: int) -> Option<int>
    decreases names.len() - i,
{
    if i < 0 || i >= names.len() {
        None
    } else if names[i]@ == name {
        Some(i)
    } else {
        find_from(names, name, i + 1)
    }
}

/// The identity (slot index) of the property named `name`, if any.
pub open spec fn find_prop(names: Seq<String>, name: Seq<char>) -> Option<int> {
    find_from(names, name, 0)
}

/// The subscription list with the observer registered under `handle` in
/// slot `slot` deactivated; removing an unknown handle is a no-op.
pub open spec fn deactivate_usub<F>(subs: Seq<USub<F>>, slot: int, handle: usize) -> Seq<USub<F>> {
    if 0 <= slot < subs.len() && subs[slot].handle == handle {
        subs.update(
            slot,
            USub {
                input: subs[slot].input,
                target: subs[slot].target,
                handle: subs[slot].handle,
                active: false,
                f: subs[slot].f,
            },
        )
    } else {
        subs
    }
}

/// `deactivate_usub` for the binary subscription list.
pub open spec fn deactivate_bsub<G>(subs: Seq<BSub<G>>, slot: int, handle: usize) -> Seq<BSub<G>> {
    if 0 <= slot < subs.len() && subs[slot].handle == handle {
        subs.update(
            slot,
            BSub {
                lhs: subs[slot].lhs,
                rhs: subs[slot].rhs,
                target: subs[slot].target,
                handle: subs[slot].handle,
                active: false,
                g: subs[slot].g,
            },
        )
    } else {
        subs
    }
}

/// An entity: a declared type name for diagnostics, named property slots,
/// and the subscriptions currently observing them.
pub struct ReactiveEntity<F, G> {
    pub declared_type: String,
    pub names: Vec<String>,
    pub values: Vec<PropertyValue>,
    pub usubs: Vec<USub<F>>,
    pub bsubs: Vec<BSub<G>>,
    pub bcaches: Vec<Cache>,
    pub invalid: u64,
}

impl<F: Fn(i64) -> i64 + Copy, G: Fn(i64, i64) -> i64 + Copy> ReactiveEntity<F, G> {
    /// The entity's wiring.
    pub open spec fn cfg(self) -> OpConfig<F, G> {
        OpConfig { nprops: self.values@.len(), usubs: self.usubs@, bsubs: self.bsubs@ }
    }

    /// The entity's mutable propagation state.
    pub open spec fn st(self) -> OpState {
        OpState { values: self.values@, caches: self.bcaches@, invalid: self.invalid as nat }
    }

    /// Entity invariant: well-formed wiring and state, one name per
    /// property slot, and no two slots sharing a name (so a name resolves
    /// to a unique, stable identity).
    pub open spec fn wf(self) -> bool {
        &&& wf_cfg(self.cfg())
        &&& wf_st(self.cfg(), self.st())
        &&& self.names@.len() == self.values@.len()
        &&& forall|k: int, l: int|
            0 <= k < l < self.names@.len() ==> (#[trigger] self.names@[k])@ != (#[trigger] self.names@[l])@
    }

    /// Creates an entity with the given declared type name and no
    /// properties or subscriptions.
    pub fn new(declared_type: String) -> (e: Self)
        ensures
            e.wf(),
            e.declared_type@ == declared_type@,
            e.names@.len() == 0,
            e.usubs@.len() == 0,
            e.bsubs@.len() == 0,
            e.invalid == 0,
    {
        ReactiveEntity {
            declared_type,
            names: Vec::new(),
            values: Vec::new(),
            usubs: Vec::new(),
            bsubs: Vec::new(),
            bcaches: Vec::new(),
            invalid: 0,
        }
    }

    /// Adds a property slot with the given name and initial value.  The new
    /// property's identity is the next slot index.  Fails (returning
    /// `false`, changing nothing) if the name is already taken, which keeps
    /// property identities unambiguous.
    pub fn add_property(&mut self, name: &str, value: PropertyValue) -> (ok: bool)
        requires
            old(self).wf(),
        ensures
            final(self).wf(),
            ok == find_prop(old(self).names@, name@) is None,
            !ok ==> *final(self) == *old(self),
            ok ==> {
                &&& final(self).names@.len() == old(self).names@.len() + 1
                &&& final(self).names@[old(self).names@.len() as int]@ == name@
                &&& forall|k: int|
                    0 <= k < old(self).names@.len() ==> final(self).names@[k] == old(self).names@[k]
                &&& final(self).values@ == old(self).values@.push(value)
                &&& final(self).usubs@ == old(self).usubs@
                &&& final(self).bsubs@ == old(self).bsubs@
                &&& final(self).bcaches@ == old(self).bcaches@
                &&& final(self).invalid == old(self).invalid
                &&& final(self).declared_type == old(self).declared_type
            },
    {
        if self.find_index(name).is_some() {
            return false;
        }
        self.names.push(name.to_owned());
        self.values.push(value);
        proof {
            assert forall|k: int| 0 <= k < self.cfg().usubs.len() implies usub_ok(
                #[trigger] self.cfg().usubs[k],
                self.cfg().nprops,
            ) by {
                assert(usub_ok(old(self).cfg().usubs[k], old(self).cfg().nprops));
            }
            assert forall|k: int| 0 <= k < self.cfg().bsubs.len() implies bsub_ok(
                #[trigger] self.cfg().bsubs[k],
                self.cfg().nprops,
            ) by {
                assert(bsub_ok(old(self).cfg().bsubs[k], old(self).cfg().nprops));
            }
            assert forall|k: int, l: int|
                0 <= k < l < self.names@.len() implies (#[trigger] self.names@[k])@ != (
            #[trigger] self.names@[l])@ by {
                if l < old(self).names@.len() {
                    assert(old(self).names@[k]@ != old(self).names@[l]@);
                } else {
                    assert(self.names@[l]@ == name@);
                    lemma_find_from_none(old(self).names@, name@, 0, k);
                }
            }
        }
        true
    }

    /// The current value of the property named `name`, read directly from
    /// the store, or `None` if the entity has no such property.
    pub fn get(&self, name: &str) -> (r: Option<PropertyValue>)
        requires
            self.wf(),
        ensures
            match find_prop(self.names@, name@) {
                Some(k) => r == Some(self.st().values[k]),
                None => r is None,
            },
    {
        match self.find_index(name) {
            Some(k) => Some(self.values[k]),
            None => None,
        }
    }

    /// The number of invalid updates that were dropped during propagation
    /// so far (the diagnostics counter; it saturates).
    pub fn invalid_count(&self) -> (r: u64)
        ensures
            r as nat == self.st().invalid,
    {
        self.invalid
    }

    /// Writes `v` into the property named `name`, pushing it onto the
    /// property's stream: every active subscription observing that
    /// property runs, and the writes they make propagate in turn.  Returns
    /// whether the property exists; if it does not, nothing changes.
    pub fn set_value(&mut self, name: &str, v: PropertyValue) -> (found: bool)
        requires
            old(self).wf(),
        ensures
            final(self).wf(),
            found == find_prop(old(self).names@, name@) is Some,
            !found ==> *final(self) == *old(self),
            found ==> {
                &&& final(self).cfg() == old(self).cfg()
                &&& final(self).names@ == old(self).names@
                &&& final(self).declared_type == old(self).declared_type
                &&& final(self).st() == spec_set(
                    old(self).cfg(),
                    old(self).st(),
                    find_prop(old(self).names@, name@)->Some_0,
                    v,
                )
            },
    {
        match self.find_index(name) {
            Some(p) => {
                let d = self.cascade_depth();
                self.write_at(p, v, d);
                true
            },
            None => false,
        }
    }

    /// The wiring's cascade depth budget, as the executable counter that
    /// `write_at` spends one unit of per nested fire.
    pub(crate) fn cascade_depth(&self) -> (d: u64)
        ensures
            d as nat == depth_budget(self.cfg()),
    {
        let nu = self.usubs.len() as u64;
        let nb = self.bsubs.len() as u64;
        if nu <= u64::MAX - 1 && nb <= u64::MAX - 1 - nu {
            nu + nb + 1
        } else {
            u64::MAX
        }
    }

    /// Writes `v` into property slot `p` and delivers it, spending one
    /// unit of `depth` per nested fire; a fire due with no depth left cuts
    /// the delivery off there, exactly as the model does.
    pub(crate) fn write_at(&mut self, p: usize, v: PropertyValue, depth: u64)
        requires
            old(self).wf(),
            (p as int) < old(self).cfg().nprops,
        ensures
            final(self).wf(),
            final(self).cfg() == old(self).cfg(),
            final(self).names@ == old(self).names@,
            final(self).declared_type == old(self).declared_type,
            final(self).st() == sw(old(self).cfg(), old(self).st(), p as int, v, depth as nat),
        decreases depth,
    {
        let ghost fuel: nat = depth as nat;
        let ghost c = self.cfg();
        let ghost nm = self.names@;
        let ghost tn = self.declared_type;
        self.values.set(p, v);
        let ghost s1 = self.st();
        proof {
            assert(s1 == upd_val(old(self).st(), p as int, v));
        }
        let n_u = self.usubs.len();
        let mut i: usize = 0;
        while i < n_u
            invariant
                i <= n_u,
                n_u == c.usubs.len(),
                self.wf(),
                self.cfg() == c,
                self.names@ == nm,
                self.declared_type == tn,
                (p as int) < c.nprops,
                fuel == depth as nat,
                c == old(self).cfg(),
                nm == old(self).names@,
                tn == old(self).declared_type,
                s1 == upd_val(old(self).st(), p as int, v),
                deliver(c, self.st(), p as int, v, i as int, fuel) == deliver(c, s1, p as int, v, 0, fuel),
            decreases n_u - i,
        {
            let u = self.usubs[i];
            proof {
                assert(c.usubs[i as int] == u);
            }
            if u.active && u.input == p {
                match v {
                    PropertyValue::Int(x) => {
                        if depth == 0 {
                            proof {
                                assert(deliver(c, self.st(), p as int, v, i as int, fuel) == self.st());
                                assert(self.st() == sw(c, old(self).st(), p as int, v, fuel));
                            }
                            return;
                        }
                        proof {
                            assert(fn_ok(u.f));
                        }
                        let y = (u.f)(x);
                        proof {
                            lemma_fval(u.f, x, y);
                        }
                        let ghost s_prev = self.st();
                        self.write_at(u.target, PropertyValue::Int(y), depth - 1);
                        proof {
                            assert(deliver(c, s_prev, p as int, v, i as int, fuel) == deliver(
                                c,
                                sw(c, s_prev, u.target as int, PropertyValue::Int(fval(u.f, x)), (fuel - 1) as nat),
                                p as int,
                                v,
                                i as int + 1,
                                fuel,
                            ));
                        }
                    },
                    PropertyValue::Bool(_) => {
                        let ghost s_prev = self.st();
                        if self.invalid < u64::MAX {
                            self.invalid = self.invalid + 1;
                        }
                        proof {
                            assert(self.st() == (OpState {
                                values: s_prev.values,
                                caches: s_prev.caches,
                                invalid: sat_inc(s_prev.invalid),
                            }));
                            assert(deliver(c, s_prev, p as int, v, i as int, fuel) == deliver(
                                c,
                                self.st(),
                                p as int,
                                v,
                                i as int + 1,
                                fuel,
                            ));
                        }
                    },
                }
            } else {
                proof {
                    assert(deliver(c, self.st(), p as int, v, i as int, fuel) == deliver(
                        c,
                        self.st(),
                        p as int,
                        v,
                        i as int + 1,
                        fuel,
                    ));
                }
            }
            i = i + 1;
        }
        let n_b = self.bsubs.len();
        let mut j: usize = 0;
        while j < n_b
            invariant
                j <= n_b,
                n_u == c.usubs.len(),
                n_b == c.bsubs.len(),
                self.wf(),
                self.cfg() == c,
                self.names@ == nm,
                self.declared_type == tn,
                (p as int) < c.nprops,
                fuel == depth as nat,
                c == old(self).cfg(),
                nm == old(self).names@,
                tn == old(self).declared_type,
                s1 == upd_val(old(self).st(), p as int, v),
                deliver(c, self.st(), p as int, v, n_u + j as int, fuel) == deliver(c, s1, p as int, v, 0, fuel),
            decreases n_b - j,
        {
            let b = self.bsubs[j];
            proof {
                assert(c.bsubs[j as int] == b);
            }
            if b.active && (b.lhs == p || b.rhs == p) {
                match v {
                    PropertyValue::Int(x) => {
                        let c0 = self.bcaches[j];
                        let c1 = Cache {
                            lhs_seen: c0.lhs_seen || b.lhs == p,
                            rhs_seen: c0.rhs_seen || b.rhs == p,
                            lhs_last: if b.lhs == p { x } else { c0.lhs_last },
                            rhs_last: if b.rhs == p { x } else { c0.rhs_last },
                        };
                        let ghost s_prev = self.st();
                        self.bcaches.set(j, c1);
                        let ghost s_mid = self.st();
                        proof {
                            assert(s_mid == (OpState {
                                values: s_prev.values,
                                caches: s_prev.caches.update(j as int, c1),
                                invalid: s_prev.invalid,
                            }));
                        }
                        if c1.lhs_seen && c1.rhs_seen {
                            if depth == 0 {
                                proof {
                                    assert(deliver(c, s_prev, p as int, v, n_u + j as int, fuel) == s_mid);
                                    assert(self.st() == sw(c, old(self).st(), p as int, v, fuel));
                                }
                                return;
                            }
                            proof {
                                assert(gn_ok(b.g));
                            }
                            let y = (b.g)(c1.lhs_last, c1.rhs_last);
                            proof {
                                lemma_gval(b.g, c1.lhs_last, c1.rhs_last, y);
                            }
                            self.write_at(b.target, PropertyValue::Int(y), depth - 1);
                            proof {
                                assert(deliver(c, s_prev, p as int, v, n_u + j as int, fuel) == deliver(
                                    c,
                                    sw(
                                        c,
                                        s_mid,
                                        b.target as int,
                                        PropertyValue::Int(gval(b.g, c1.lhs_last, c1.rhs_last)),
                                        (fuel - 1) as nat,
                                    ),
                                    p as int,
                                    v,
                                    n_u + j as int + 1,
                                    fuel,
                                ));
                            }
                        } else {
                            proof {
                                assert(deliver(c, s_prev, p as int, v, n_u + j as int, fuel) == deliver(
                                    c,
                                    s_mid,
                                    p as int,
                                    v,
                                    n_u + j as int + 1,
                                    fuel,
                                ));
                            }
                        }
                    },
                    PropertyValue::Bool(_) => {
                        let ghost s_prev = self.st();
                        if self.invalid < u64::MAX {
                            self.invalid = self.invalid + 1;
                        }
                        proof {
                            assert(self.st() == (OpState {
                                values: s_prev.values,
                                caches: s_prev.caches,
                                invalid: sat_inc(s_prev.invalid),
                            }));
                            assert(deliver(c, s_prev, p as int, v, n_u + j as int, fuel) == deliver(
                                c,
                                self.st(),
                                p as int,
                                v,
                                n_u + j as int + 1,
                                fuel,
                            ));
                        }
                    },
                }
            } else {
                proof {
                    assert(deliver(c, self.st(), p as int, v, n_u + j as int, fuel) == deliver(
                        c,
                        self.st(),
                        p as int,
                        v,
                        n_u + j as int + 1,
                        fuel,
                    ));
                }
            }
            j = j + 1;
        }
        proof {
            assert(deliver(c, self.st(), p as int, v, n_u + n_b as int, fuel) == self.st());
        }
    }

    /// Deactivates the unary observer registered in `slot` under `handle`.
    /// Removing a handle that is not registered there (or a slot that does
    /// not exist) is a no-op, never an error, so teardown is idempotent.
    pub(crate) fn remove_unary_observer(&mut self, slot: usize, handle: usize)
        requires
            old(self).wf(),
        ensures
            final(self).wf(),
            final(self).usubs@ == deactivate_usub(old(self).usubs@, slot as int, handle),
            final(self).bsubs@ == old(self).bsubs@,
            final(self).st() == old(self).st(),
            final(self).names@ == old(self).names@,
            final(self).declared_type == old(self).declared_type,
    {
        if slot < self.usubs.len() {
            let mut u = self.usubs[slot];
            if u.handle == handle {
                u.active = false;
                self.usubs.set(slot, u);
                proof {
                    assert forall|k: int| 0 <= k < self.cfg().usubs.len() implies usub_ok(
                        #[trigger] self.cfg().usubs[k],
                        self.cfg().nprops,
                    ) by {
                        assert(usub_ok(old(self).cfg().usubs[k], old(self).cfg().nprops));
                    }
                }
            }
        }
    }

    /// Deactivates the binary observer registered in `slot` under `handle`;
    /// a no-op for unknown slots or handles.
    pub(crate) fn remove_binary_observer(&mut self, slot: usize, handle: usize)
        requires
            old(self).wf(),
        ensures
            final(self).wf(),
            final(self).bsubs@ == deactivate_bsub(old(self).bsubs@, slot as int, handle),
            final(self).usubs@ == old(self).usubs@,
            final(self).st() == old(self).st(),
            final(self).names@ == old(self).names@,
            final(self).declared_type == old(self).declared_type,
    {
        if slot < self.bsubs.len() {
            let mut b = self.bsubs[slot];
            if b.handle == handle {
                b.active = false;
                self.bsubs.set(slot, b);
                proof {
                    assert forall|k: int| 0 <= k < self.cfg().bsubs.len() implies bsub_ok(
                        #[trigger] self.cfg().bsubs[k],
                        self.cfg().nprops,
                    ) by {
                        assert(bsub_ok(old(self).cfg().bsubs[k], old(self).cfg().nprops));
                    }
                    assert forall|k: int| 0 <= k < self.cfg().usubs.len() implies usub_ok(
                        #[trigger] self.cfg().usubs[k],
                        self.cfg().nprops,
                    ) by {
                        assert(usub_ok(old(self).cfg().usubs[k], old(self).cfg().nprops));
                    }
                }
            }
        }
    }


    /// Entity teardown: deactivates every observer of every subscription,
    /// unary and binary, so that no binding outlives the entity's reactive
    /// life.  Property values, caches and diagnostics stay as they are;
    /// subsequent writes change only the written property.
    pub fn disconnect_all(&mut self)
        requires
            old(self).wf(),
        ensures
            final(self).wf(),
            final(self).st() == old(self).st(),
            final(self).names@ == old(self).names@,
            final(self).declared_type == old(self).declared_type,
            final(self).usubs@.len() == old(self).usubs@.len(),
            final(self).bsubs@.len() == old(self).bsubs@.len(),
            forall|k: int|
                0 <= k < old(self).usubs@.len() ==> #[trigger] final(self).usubs@[k] == (USub {
                    input: old(self).usubs@[k].input,
                    target: old(self).usubs@[k].target,
                    handle: old(self).usubs@[k].handle,
                    active: false,
                    f: old(self).usubs@[k].f,
                }),
            forall|k: int|
                0 <= k < old(self).bsubs@.len() ==> #[trigger] final(self).bsubs@[k] == (BSub {
                    lhs: old(self).bsubs@[k].lhs,
                    rhs: old(self).bsubs@[k].rhs,
                    target: old(self).bsubs@[k].target,
                    handle: old(self).bsubs@[k].handle,
                    active: false,
                    g: old(self).bsubs@[k].g,
                }),
    {
        let n_u = self.usubs.len();
        let mut i: usize = 0;
        while i < n_u
            invariant
                i <= n_u,
                n_u == self.usubs@.len(),
                n_u == old(self).usubs@.len(),
                self.values@ == old(self).values@,
                self.bcaches@ == old(self).bcaches@,
                self.invalid == old(self).invalid,
                self.names@ == old(self).names@,
                self.declared_type == old(self).declared_type,
                self.bsubs@ == old(self).bsubs@,
                forall|k: int|
                    0 <= k < i ==> #[trigger] self.usubs@[k] == (USub {
                        input: old(self).usubs@[k].input,
                        target: old(self).usubs@[k].target,
                        handle: old(self).usubs@[k].handle,
                        active: false,
                        f: old(self).usubs@[k].f,
                    }),
                forall|k: int| i <= k < n_u ==> #[trigger] self.usubs@[k] == old(self).usubs@[k],
            decreases n_u - i,
        {
            let mut u = self.usubs[i];
            u.active = false;
            self.usubs.set(i, u);
            i = i + 1;
        }
        let n_b = self.bsubs.len();
        let mut j: usize = 0;
        while j < n_b
            invariant
                j <= n_b,
                n_b == self.bsubs@.len(),
                n_b == old(self).bsubs@.len(),
                self.values@ == old(self).values@,
                self.bcaches@ == old(self).bcaches@,
                self.invalid == old(self).invalid,
                self.names@ == old(self).names@,
                self.declared_type == old(self).declared_type,
                self.usubs@.len() == old(self).usubs@.len(),
                forall|k: int|
                    0 <= k < self.usubs@.len() ==> #[trigger] self.usubs@[k] == (USub {
                        input: old(self).usubs@[k].input,
                        target: old(self).usubs@[k].target,
                        handle: old(self).usubs@[k].handle,
                        active: false,
                        f: old(self).usubs@[k].f,
                    }),
                forall|k: int|
                    0 <= k < j ==> #[trigger] self.bsubs@[k] == (BSub {
                        lhs: old(self).bsubs@[k].lhs,
                        rhs: old(self).bsubs@[k].rhs,
                        target: old(self).bsubs@[k].target,
                        handle: old(self).bsubs@[k].handle,
                        active: false,
                        g: old(self).bsubs@[k].g,
                    }),
                forall|k: int| j <= k < n_b ==> #[trigger] self.bsubs@[k] == old(self).bsubs@[k],
            decreases n_b - j,
        {
            let mut b = self.bsubs[j];
            b.active = false;
            self.bsubs.set(j, b);
            j = j + 1;
        }
        proof {
            assert forall|k: int| 0 <= k < self.cfg().usubs.len() implies usub_ok(
                #[trigger] self.cfg().usubs[k],
                self.cfg().nprops,
            ) by {
                assert(usub_ok(old(self).cfg().usubs[k], old(self).cfg().nprops));
            }
            assert forall|k: int| 0 <= k < self.cfg().bsubs.len() implies bsub_ok(
                #[trigger] self.cfg().bsubs[k],
                self.cfg().nprops,
            ) by {
                assert(bsub_ok(old(self).cfg().bsubs[k], old(self).cfg().nprops));
            }
        }
    }

    /// The slot index of the property named `name`, if any.
    pub fn find_index(&self, name: &str) -> (r: Option<usize>)
        ensures
            match r {
                Some(k) => find_prop(self.names@, name@) == Some(k as int) && (k as int)
                    < self.names@.len(),
                None => find_prop(self.names@, name@) is None,
            },
    {
        let key: String = name.to_owned();
        let n = self.names.len();
        let mut i: usize = 0;
        while i < n
            invariant
                i <= n,
                n == self.names@.len(),
                key@ == name@,
                find_from(self.names@, name@, 0) == find_from(self.names@, name@, i as int),
            decreases n - i,
        {
            let nm: &String = &self.names[i];
            if *nm == key {
                return Some(i);
            }
            i = i + 1;
        }
        None
    }
}

/// If the search from `i` found nothing, no slot at or after `i` bears the
/// name.
pub proof fn lemma_find_from_none(names: Seq<String>, name: Seq<char>, i: int, k: int)
    requires
        find_from(names, name, i) is None,
        0 <= i <= k < names.len(),
    ensures
        names[k]@ != name,
    decreases k - i,
{
    if i < k {
        lemma_find_from_none(names, name, i + 1, k);
    }
}

} // verus!
