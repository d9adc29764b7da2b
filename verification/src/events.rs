//! The event data model: raw payload values, runtime type tags, and the
//! shared, immutable event handle.
//!
//! A payload is a tree of plain values (the shape of a decoded wire
//! message). An event carries a runtime type tag, so that a typed stream
//! front end can recognise the events it is bound to; the handle wraps
//! one decoded instance in a reference count so that many queues share
//! it without copying.

use vstd::prelude::*;
use std::sync::Arc;

verus! {

/// A raw payload value: the tree shape of a decoded wire message.
/// Numeric payloads are modelled as integers.
#[derive(Debug, PartialEq, Eq)]
pub enum RawValue {
    Null,
    Bool(bool),
    Int(i64),
    Text(String),
    List(Vec<RawValue>),
    Object(Vec<(String, RawValue)>),
}

/// One event as handed to dispatch: a runtime type tag naming the
/// concrete event type, and its payload.
#[derive(Debug, PartialEq, Eq)]
pub struct EventData {
    pub type_tag: u64,
    pub payload: RawValue,
}

/// One dispatched event instance. The `id` is assigned once per dispatch
/// call, so two queues holding a record with the same `id` hold the very
/// instance that dispatch wrapped once and shared.
#[derive(Debug, PartialEq, Eq)]
pub struct EventRecord {
    pub id: u64,
    pub type_tag: u64,
    pub payload: RawValue,
}

/// The shared, immutable event handle: one decoded instance, reference
/// counted across every queue it is delivered to.
pub type EventHandle = Arc<EventRecord>;

/// The record a handle points to.
pub open spec fn rec_of(h: EventHandle) -> EventRecord {
    *h
}

/// Whether the object value `v` has a field named `name`.
pub open spec fn obj_has_field(fields: Seq<(String, RawValue)>, name: Seq<char>) -> bool {
    exists|i: int| 0 <= i < fields.len() && fields[i].0@ == name
}

/// Relies on `std::sync::Arc::clone`: the clone points to the same
/// allocation, so it carries the same record.
#[verifier::external_body]
pub fn arc_clone(h: &EventHandle) -> (r: EventHandle)
    ensures
        r == *h,
{
    Arc::clone(h)
}

/// Wrap freshly dispatched event data into a shared handle carrying
/// the instance identity `id`.
pub fn make_handle(id: u64, data: EventData) -> (r: EventHandle)
    ensures
        r.id == id,
        r.type_tag == data.type_tag,
        r.payload == data.payload,
{
    Arc::new(EventRecord { id, type_tag: data.type_tag, payload: data.payload })
}

} // verus!
