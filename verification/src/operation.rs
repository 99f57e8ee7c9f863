//! Operation bindings: the lifecycle objects that attach a computed
//! behaviour to an entity.
//!
//! A binding is constructed against an entity, resolves its properties to
//! stable identities, registers an observer on its derived stream under the
//! target property's identity as handle, and owns that subscription until
//! `disconnect` runs.  Construction is atomic: either the binding comes
//! back live and observing, or an error comes back and the entity is left
//! exactly as it was — no partial registration survives a failure.

use vstd::prelude::*;

use crate::entity::{
    bsub_ok, deactivate_bsub, deactivate_usub, find_prop, fn_ok, gn_ok, spec_set, usub_ok, BSub,
    Cache, ReactiveEntity, USub,
};
use crate::value::PropertyValue;

verus! {

/// Why a binding could not be constructed: the named input or target
/// property does not exist on the entity.  This is construction's only
/// failure mode; any wiring between existing properties is accepted.
#[derive(Clone, Copy, PartialEq, Eq, Structural, Debug)]
pub enum BindError {
    MissingProperty,
}

/// The name of this operation kind, used in diagnostics.
pub const NUMERIC_OPERATION: &'static str = "numeric_operation";

/// The default name of a unary operation's input property.
pub const LHS_PROPERTY: &'static str = "lhs";

/// The default name of a binary operation's second input property.
pub const RHS_PROPERTY: &'static str = "rhs";

/// The default name of an operation's result property.
pub const RESULT_PROPERTY: &'static str = "result";

/// A unary operation bound to an entity: one input property, one transform,
/// one target property.  The implementation is realized with the entity's
/// reactive streams: the binding derives a stream that maps the transform
/// over the input property's emissions, and its observer — registered under
/// `handle_id`, the target property's identity — writes each result back
/// into the target property.
#[derive(Clone, Copy, Debug)]
pub struct NumericOperation {
    /// The handle the observer is registered under: the target property's
    /// identity.
    pub handle_id: usize,
    /// The subscription slot holding this binding's observer (the binding's
    /// own derived stream).
    pub slot: usize,
    /// The input property's identity.
    pub input: usize,
    /// The target property's identity.
    pub target: usize,
}

impl NumericOperation {
    /// The binding's subscription, as constructed, still sits in its slot
    /// of the entity's registry (active or not).
    pub open spec fn attached<F: Fn(i64) -> i64 + Copy, G: Fn(i64, i64) -> i64 + Copy>(
        self,
        e: ReactiveEntity<F, G>,
    ) -> bool {
        &&& (self.slot as int) < e.usubs@.len()
        &&& e.usubs@[self.slot as int].handle == self.handle_id
        &&& e.usubs@[self.slot as int].input == self.input
        &&& e.usubs@[self.slot as int].target == self.target
        &&& self.handle_id == self.target
    }

    /// The binding's subscription is in place and still observing.
    pub open spec fn connected<F: Fn(i64) -> i64 + Copy, G: Fn(i64, i64) -> i64 + Copy>(
        self,
        e: ReactiveEntity<F, G>,
    ) -> bool {
        &&& self.attached(e)
        &&& e.usubs@[self.slot as int].active
    }

    /// Binds the transform `f` from the property named `input_name` to the
    /// property named `target_name`.  On success the returned binding is
    /// live: its observer is registered and every subsequent write to the
    /// input property propagates.  Construction fails only when one of the
    /// named properties does not exist, and then the entity is unchanged —
    /// no partial registration is left behind.
    pub fn bind<F: Fn(i64) -> i64 + Copy, G: Fn(i64, i64) -> i64 + Copy>(
        e: &mut ReactiveEntity<F, G>,
        f: F,
        input_name: &str,
        target_name: &str,
    ) -> (r: Result<NumericOperation, BindError>)
        requires
            old(e).wf(),
            fn_ok(f),
        ensures
            final(e).wf(),
            r is Ok <==> {
                &&& find_prop(old(e).names@, input_name@) is Some
                &&& find_prop(old(e).names@, target_name@) is Some
            },
            r is Err ==> *final(e) == *old(e) && r == Err::<NumericOperation, BindError>(
                BindError::MissingProperty,
            ),
            r matches Ok(op) ==> {
                &&& Some(op.input as int) == find_prop(old(e).names@, input_name@)
                &&& Some(op.target as int) == find_prop(old(e).names@, target_name@)
                &&& op.handle_id == op.target
                &&& op.slot == old(e).usubs@.len()
                &&& op.connected(*final(e))
                &&& final(e).usubs@ == old(e).usubs@.push(
                    USub {
                        input: op.input,
                        target: op.target,
                        handle: op.target,
                        active: true,
                        f,
                    },
                )
                &&& final(e).bsubs@ == old(e).bsubs@
                &&& final(e).st() == old(e).st()
                &&& final(e).names@ == old(e).names@
                &&& final(e).declared_type == old(e).declared_type
            },
    {
        let target = match e.find_index(target_name) {
            Some(t) => t,
            None => {
                return Err(BindError::MissingProperty);
            },
        };
        let input = match e.find_index(input_name) {
            Some(t) => t,
            None => {
                return Err(BindError::MissingProperty);
            },
        };
        let slot = e.usubs.len();
        e.usubs.push(USub { input, target, handle: target, active: true, f });
        proof {
            assert forall|k: int| 0 <= k < e.cfg().usubs.len() implies usub_ok(
                #[trigger] e.cfg().usubs[k],
                e.cfg().nprops,
            ) by {
                if k < old(e).usubs@.len() {
                    assert(usub_ok(old(e).cfg().usubs[k], old(e).cfg().nprops));
                }
            }
        }
        Ok(NumericOperation { handle_id: target, slot, input, target })
    }

    /// Binds `f` from the conventional input property `"lhs"` to the
    /// conventional result property `"result"`.
    pub fn new<F: Fn(i64) -> i64 + Copy, G: Fn(i64, i64) -> i64 + Copy>(
        e: &mut ReactiveEntity<F, G>,
        f: F,
    ) -> (r: Result<NumericOperation, BindError>)
        requires
            old(e).wf(),
            fn_ok(f),
        ensures
            final(e).wf(),
            r is Ok <==> {
                &&& find_prop(old(e).names@, LHS_PROPERTY@) is Some
                &&& find_prop(old(e).names@, RESULT_PROPERTY@) is Some
            },
            r is Err ==> *final(e) == *old(e) && r == Err::<NumericOperation, BindError>(
                BindError::MissingProperty,
            ),
            r matches Ok(op) ==> {
                &&& Some(op.input as int) == find_prop(old(e).names@, LHS_PROPERTY@)
                &&& Some(op.target as int) == find_prop(old(e).names@, RESULT_PROPERTY@)
                &&& op.handle_id == op.target
                &&& op.slot == old(e).usubs@.len()
                &&& op.connected(*final(e))
                &&& final(e).usubs@ == old(e).usubs@.push(
                    USub {
                        input: op.input,
                        target: op.target,
                        handle: op.target,
                        active: true,
                        f,
                    },
                )
                &&& final(e).bsubs@ == old(e).bsubs@
                &&& final(e).st() == old(e).st()
                &&& final(e).names@ == old(e).names@
                &&& final(e).declared_type == old(e).declared_type
            },
    {
        Self::bind(e, f, LHS_PROPERTY, RESULT_PROPERTY)
    }

    /// Writes `value` into the binding's input property.  This is the only
    /// sanctioned way to drive the binding: it never invokes the transform
    /// directly — propagation happens through the entity's stream delivery,
    /// so the write triggers this binding's observer (and any other
    /// observers of the same property) exactly as an external write would.
    pub fn lhs<F: Fn(i64) -> i64 + Copy, G: Fn(i64, i64) -> i64 + Copy>(
        &self,
        e: &mut ReactiveEntity<F, G>,
        value: PropertyValue,
    )
        requires
            old(e).wf(),
            self.attached(*old(e)),
        ensures
            final(e).wf(),
            self.attached(*final(e)),
            final(e).cfg() == old(e).cfg(),
            final(e).names@ == old(e).names@,
            final(e).declared_type == old(e).declared_type,
            final(e).st() == spec_set(old(e).cfg(), old(e).st(), self.input as int, value),
    {
        let d = e.cascade_depth();
        e.write_at(self.input, value, d);
    }

    /// Reads the current value of the target property directly from the
    /// store (not from the derived stream), so it is safe to call before
    /// any input has arrived: it returns the property's last-set value.
    pub fn result<F: Fn(i64) -> i64 + Copy, G: Fn(i64, i64) -> i64 + Copy>(
        &self,
        e: &ReactiveEntity<F, G>,
    ) -> (r: PropertyValue)
        requires
            e.wf(),
            self.attached(*e),
        ensures
            r == e.st().values[self.target as int],
    {
        proof {
            assert(crate::entity::usub_ok(e.cfg().usubs[self.slot as int], e.cfg().nprops));
        }
        e.values[self.target]
    }

    /// The owning entity's declared type, for diagnostics only.
    pub fn declared_type<F: Fn(i64) -> i64 + Copy, G: Fn(i64, i64) -> i64 + Copy>(
        &self,
        e: &ReactiveEntity<F, G>,
    ) -> (r: String)
        ensures
            r@ == e.declared_type@,
    {
        e.declared_type.clone()
    }

    /// Removes the observer registered under this binding's handle from its
    /// derived stream.  Idempotent: removal of an already-removed handle is
    /// a no-op, so disconnecting twice equals disconnecting once.  After
    /// disconnect no write propagates through this binding any more; the
    /// binding's fields stay readable, and property values are untouched.
    pub fn disconnect<F: Fn(i64) -> i64 + Copy, G: Fn(i64, i64) -> i64 + Copy>(
        &self,
        e: &mut ReactiveEntity<F, G>,
    )
        requires
            old(e).wf(),
        ensures
            final(e).wf(),
            final(e).usubs@ == deactivate_usub(old(e).usubs@, self.slot as int, self.handle_id),
            final(e).bsubs@ == old(e).bsubs@,
            final(e).st() == old(e).st(),
            final(e).names@ == old(e).names@,
            final(e).declared_type == old(e).declared_type,
            self.attached(*old(e)) ==> self.attached(*final(e))
                && !(final(e).usubs@[self.slot as int].active),
    {
        e.remove_unary_observer(self.slot, self.handle_id);
    }

    /// Consumes the binding, disconnecting first: teardown has completed
    /// before the binding object ceases to exist, so releasing can never
    /// leave an orphaned observer computing against a live stream.  This is
    /// the end-of-life path for owners that drop bindings; the effect on
    /// the entity is exactly that of `disconnect`.
    pub fn release<F: Fn(i64) -> i64 + Copy, G: Fn(i64, i64) -> i64 + Copy>(
        self,
        e: &mut ReactiveEntity<F, G>,
    )
        requires
            old(e).wf(),
        ensures
            final(e).wf(),
            final(e).usubs@ == deactivate_usub(old(e).usubs@, self.slot as int, self.handle_id),
            final(e).bsubs@ == old(e).bsubs@,
            final(e).st() == old(e).st(),
            final(e).names@ == old(e).names@,
            final(e).declared_type == old(e).declared_type,
    {
        self.disconnect(e);
    }
}

/// A binary operation bound to an entity: two input properties, a combining
/// transform, one target property.  The derived stream combines the latest
/// value from each input side; no result is emitted until both sides have
/// received at least one value, after which every change to either side
/// re-triggers evaluation with the current pair.
#[derive(Clone, Copy, Debug)]
pub struct BinaryOperation {
    /// The handle the observer is registered under: the target property's
    /// identity.
    pub handle_id: usize,
    /// The subscription slot holding this binding's observer.
    pub slot: usize,
    /// The first input property's identity.
    pub lhs_input: usize,
    /// The second input property's identity.
    pub rhs_input: usize,
    /// The target property's identity.
    pub target: usize,
}

impl BinaryOperation {
    /// The binding's subscription, as constructed, still sits in its slot
    /// of the entity's registry (active or not).
    pub open spec fn attached<F: Fn(i64) -> i64 + Copy, G: Fn(i64, i64) -> i64 + Copy>(
        self,
        e: ReactiveEntity<F, G>,
    ) -> bool {
        &&& (self.slot as int) < e.bsubs@.len()
        &&& e.bsubs@[self.slot as int].handle == self.handle_id
        &&& e.bsubs@[self.slot as int].lhs == self.lhs_input
        &&& e.bsubs@[self.slot as int].rhs == self.rhs_input
        &&& e.bsubs@[self.slot as int].target == self.target
        &&& self.handle_id == self.target
    }

    /// The binding's subscription is in place and still observing.
    pub open spec fn connected<F: Fn(i64) -> i64 + Copy, G: Fn(i64, i64) -> i64 + Copy>(
        self,
        e: ReactiveEntity<F, G>,
    ) -> bool {
        &&& self.attached(e)
        &&& e.bsubs@[self.slot as int].active
    }

    /// Binds the combining transform `g` from the properties named
    /// `lhs_name` and `rhs_name` to the property named `target_name`.  The
    /// binding starts with both latest-value sides unseen: nothing is
    /// emitted until each input has received a value.  Construction fails
    /// only when a named property does not exist, and then the entity is
    /// unchanged.
    pub fn bind<F: Fn(i64) -> i64 + Copy, G: Fn(i64, i64) -> i64 + Copy>(
        e: &mut ReactiveEntity<F, G>,
        g: G,
        lhs_name: &str,
        rhs_name: &str,
        target_name: &str,
    ) -> (r: Result<BinaryOperation, BindError>)
        requires
            old(e).wf(),
            gn_ok(g),
        ensures
            final(e).wf(),
            r is Ok <==> {
                &&& find_prop(old(e).names@, lhs_name@) is Some
                &&& find_prop(old(e).names@, rhs_name@) is Some
                &&& find_prop(old(e).names@, target_name@) is Some
            },
            r is Err ==> *final(e) == *old(e) && r == Err::<BinaryOperation, BindError>(
                BindError::MissingProperty,
            ),
            r matches Ok(op) ==> {
                &&& Some(op.lhs_input as int) == find_prop(old(e).names@, lhs_name@)
                &&& Some(op.rhs_input as int) == find_prop(old(e).names@, rhs_name@)
                &&& Some(op.target as int) == find_prop(old(e).names@, target_name@)
                &&& op.handle_id == op.target
                &&& op.slot == old(e).bsubs@.len()
                &&& op.connected(*final(e))
                &&& final(e).bsubs@ == old(e).bsubs@.push(
                    BSub {
                        lhs: op.lhs_input,
                        rhs: op.rhs_input,
                        target: op.target,
                        handle: op.target,
                        active: true,
                        g,
                    },
                )
                &&& final(e).usubs@ == old(e).usubs@
                &&& final(e).st().values == old(e).st().values
                &&& final(e).st().invalid == old(e).st().invalid
                &&& final(e).st().caches == old(e).st().caches.push(
                    Cache { lhs_seen: false, rhs_seen: false, lhs_last: 0, rhs_last: 0 },
                )
                &&& final(e).names@ == old(e).names@
                &&& final(e).declared_type == old(e).declared_type
            },
    {
        let target = match e.find_index(target_name) {
            Some(t) => t,
            None => {
                return Err(BindError::MissingProperty);
            },
        };
        let lhs = match e.find_index(lhs_name) {
            Some(t) => t,
            None => {
                return Err(BindError::MissingProperty);
            },
        };
        let rhs = match e.find_index(rhs_name) {
            Some(t) => t,
            None => {
                return Err(BindError::MissingProperty);
            },
        };
        let slot = e.bsubs.len();
        e.bsubs.push(BSub { lhs, rhs, target, handle: target, active: true, g });
        e.bcaches.push(Cache { lhs_seen: false, rhs_seen: false, lhs_last: 0, rhs_last: 0 });
        proof {
            assert forall|k: int| 0 <= k < e.cfg().bsubs.len() implies bsub_ok(
                #[trigger] e.cfg().bsubs[k],
                e.cfg().nprops,
            ) by {
                if k < old(e).bsubs@.len() {
                    assert(bsub_ok(old(e).cfg().bsubs[k], old(e).cfg().nprops));
                }
            }
            assert forall|k: int| 0 <= k < e.cfg().usubs.len() implies usub_ok(
                #[trigger] e.cfg().usubs[k],
                e.cfg().nprops,
            ) by {
                assert(usub_ok(old(e).cfg().usubs[k], old(e).cfg().nprops));
            }
        }
        Ok(BinaryOperation { handle_id: target, slot, lhs_input: lhs, rhs_input: rhs, target })
    }

    /// Binds `g` over the conventional input properties `"lhs"` and
    /// `"rhs"` to the conventional result property `"result"`.
    pub fn new<F: Fn(i64) -> i64 + Copy, G: Fn(i64, i64) -> i64 + Copy>(
        e: &mut ReactiveEntity<F, G>,
        g: G,
    ) -> (r: Result<BinaryOperation, BindError>)
        requires
            old(e).wf(),
            gn_ok(g),
        ensures
            final(e).wf(),
            r is Ok <==> {
                &&& find_prop(old(e).names@, LHS_PROPERTY@) is Some
                &&& find_prop(old(e).names@, RHS_PROPERTY@) is Some
                &&& find_prop(old(e).names@, RESULT_PROPERTY@) is Some
            },
            r is Err ==> *final(e) == *old(e) && r == Err::<BinaryOperation, BindError>(
                BindError::MissingProperty,
            ),
            r matches Ok(op) ==> {
                &&& Some(op.lhs_input as int) == find_prop(old(e).names@, LHS_PROPERTY@)
                &&& Some(op.rhs_input as int) == find_prop(old(e).names@, RHS_PROPERTY@)
                &&& Some(op.target as int) == find_prop(old(e).names@, RESULT_PROPERTY@)
                &&& op.handle_id == op.target
                &&& op.slot == old(e).bsubs@.len()
                &&& op.connected(*final(e))
                &&& final(e).bsubs@ == old(e).bsubs@.push(
                    BSub {
                        lhs: op.lhs_input,
                        rhs: op.rhs_input,
                        target: op.target,
                        handle: op.target,
                        active: true,
                        g,
                    },
                )
                &&& final(e).usubs@ == old(e).usubs@
                &&& final(e).st().values == old(e).st().values
                &&& final(e).st().invalid == old(e).st().invalid
                &&& final(e).st().caches == old(e).st().caches.push(
                    Cache { lhs_seen: false, rhs_seen: false, lhs_last: 0, rhs_last: 0 },
                )
                &&& final(e).names@ == old(e).names@
                &&& final(e).declared_type == old(e).declared_type
            },
    {
        Self::bind(e, g, LHS_PROPERTY, RHS_PROPERTY, RESULT_PROPERTY)
    }

    /// Writes `value` into the binding's first input property.
    pub fn lhs<F: Fn(i64) -> i64 + Copy, G: Fn(i64, i64) -> i64 + Copy>(
        &self,
        e: &mut ReactiveEntity<F, G>,
        value: PropertyValue,
    )
        requires
            old(e).wf(),
            self.attached(*old(e)),
        ensures
            final(e).wf(),
            self.attached(*final(e)),
            final(e).cfg() == old(e).cfg(),
            final(e).names@ == old(e).names@,
            final(e).declared_type == old(e).declared_type,
            final(e).st() == spec_set(old(e).cfg(), old(e).st(), self.lhs_input as int, value),
    {
        let d = e.cascade_depth();
        e.write_at(self.lhs_input, value, d);
    }

    /// Writes `value` into the binding's second input property.
    pub fn rhs<F: Fn(i64) -> i64 + Copy, G: Fn(i64, i64) -> i64 + Copy>(
        &self,
        e: &mut ReactiveEntity<F, G>,
        value: PropertyValue,
    )
        requires
            old(e).wf(),
            self.attached(*old(e)),
        ensures
            final(e).wf(),
            self.attached(*final(e)),
            final(e).cfg() == old(e).cfg(),
            final(e).names@ == old(e).names@,
            final(e).declared_type == old(e).declared_type,
            final(e).st() == spec_set(old(e).cfg(), old(e).st(), self.rhs_input as int, value),
    {
        let d = e.cascade_depth();
        e.write_at(self.rhs_input, value, d);
    }

    /// Reads the current value of the target property directly from the
    /// store.
    pub fn result<F: Fn(i64) -> i64 + Copy, G: Fn(i64, i64) -> i64 + Copy>(
        &self,
        e: &ReactiveEntity<F, G>,
    ) -> (r: PropertyValue)
        requires
            e.wf(),
            self.attached(*e),
        ensures
            r == e.st().values[self.target as int],
    {
        proof {
            assert(crate::entity::bsub_ok(e.cfg().bsubs[self.slot as int], e.cfg().nprops));
        }
        e.values[self.target]
    }

    /// The owning entity's declared type, for diagnostics only.
    pub fn declared_type<F: Fn(i64) -> i64 + Copy, G: Fn(i64, i64) -> i64 + Copy>(
        &self,
        e: &ReactiveEntity<F, G>,
    ) -> (r: String)
        ensures
            r@ == e.declared_type@,
    {
        e.declared_type.clone()
    }

    /// Removes this binding's observer; idempotent, exactly as for the
    /// unary operation.
    pub fn disconnect<F: Fn(i64) -> i64 + Copy, G: Fn(i64, i64) -> i64 + Copy>(
        &self,
        e: &mut ReactiveEntity<F, G>,
    )
        requires
            old(e).wf(),
        ensures
            final(e).wf(),
            final(e).bsubs@ == deactivate_bsub(old(e).bsubs@, self.slot as int, self.handle_id),
            final(e).usubs@ == old(e).usubs@,
            final(e).st() == old(e).st(),
            final(e).names@ == old(e).names@,
            final(e).declared_type == old(e).declared_type,
            self.attached(*old(e)) ==> self.attached(*final(e))
                && !(final(e).bsubs@[self.slot as int].active),
    {
        e.remove_binary_observer(self.slot, self.handle_id);
    }

    /// Consumes the binding, disconnecting first, exactly as for the unary
    /// operation's `release`.
    pub fn release<F: Fn(i64) -> i64 + Copy, G: Fn(i64, i64) -> i64 + Copy>(
        self,
        e: &mut ReactiveEntity<F, G>,
    )
        requires
            old(e).wf(),
        ensures
            final(e).wf(),
            final(e).bsubs@ == deactivate_bsub(old(e).bsubs@, self.slot as int, self.handle_id),
            final(e).usubs@ == old(e).usubs@,
            final(e).st() == old(e).st(),
            final(e).names@ == old(e).names@,
            final(e).declared_type == old(e).declared_type,
    {
        self.disconnect(e);
    }
}

} // verus!
