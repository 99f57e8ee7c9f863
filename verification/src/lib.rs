//! Reactive operation bindings over an entity's named properties.
//!
//! An entity exposes named properties; each property holds a current value
//! and acts as a live stream of successive values.  An operation binding
//! observes one or two input properties, applies a pure function to every
//! value they emit, and republishes the result onto a target property,
//! which in turn may feed further bindings.  The binding owns a handle-keyed
//! subscription and guarantees deterministic, leak-free teardown through an
//! explicit disconnect protocol.
//!
//! Propagation is synchronous and sequential: a write returns only after
//! every observer it triggered — including whole chains of downstream
//! bindings — has completed, and emissions on one property reach its
//! observers in write order.  Exclusive borrows serialize all mutation of
//! an entity, standing where a coarser runtime would put a read/write
//! lock around the subscription registry.

pub mod entity;
pub mod laws;
pub mod operation;
pub mod value;

pub use entity::ReactiveEntity;
pub use operation::{BindError, BinaryOperation, NumericOperation};
pub use value::PropertyValue;
