//! The closed set of RFQ events.  Events are immutable facts: appended
//! once, never mutated, ordered by `(ts, id)` with the identifier as the
//! tie-break.

use vstd::prelude::*;
use crate::entities::AttachmentRef;
use crate::ids::{fresh_uuid_hyphenated, is_hyphenated_uuid};
use crate::time::TS_MAX_MILLIS;

verus! {

/// Who created an event.
#[derive(Debug, Clone, Copy, PartialEq, Eq, Structural)]
pub enum EventAuthor {
    Buyer,
    Manufacturer,
    System,
}

/// The fields every event shares: its unique generated identifier, the
/// aggregate it belongs to, its authoritative timestamp and its author.
#[derive(Debug, Clone, PartialEq, Eq)]
pub struct RfqEventBase {
    pub id: String,
    pub rfq_id: String,
    pub ts: u64,
    pub by: EventAuthor,
}

/// A free-text message from a buyer or a manufacturer.
#[derive(Debug, Clone, PartialEq, Eq)]
pub struct MessageEvent {
    pub base: RfqEventBase,
    pub body: String,
}

/// Status values a status event can carry.
#[derive(Debug, Clone, Copy, PartialEq, Eq, Structural)]
pub enum StatusType {
    RfqCreated,
    VendorViewed,
    VendorReplied,
    BuyerViewed,
    Closed,
    Archived,
}

/// A status change, with an optional note.
#[derive(Debug, Clone, PartialEq, Eq)]
pub struct StatusEvent {
    pub base: RfqEventBase,
    pub status: StatusType,
    pub note: Option<String>,
}

/// Files attached to the conversation.
#[derive(Debug, Clone, PartialEq, Eq)]
pub struct AttachmentEvent {
    pub base: RfqEventBase,
    pub attachments: Vec<AttachmentRef>,
}

/// An RFQ event: the closed union of the three kinds.
#[derive(Debug, Clone, PartialEq, Eq)]
pub enum RfqEvent {
    Message(MessageEvent),
    Status(StatusEvent),
    Attachment(AttachmentEvent),
}

/// The base fields of an event, whatever its kind.
pub open spec fn spec_base(e: RfqEvent) -> RfqEventBase {
    match e {
        RfqEvent::Message(m) => m.base,
        RfqEvent::Status(s) => s.base,
        RfqEvent::Attachment(a) => a.base,
    }
}

/// A well-formed event: a generated (hyphenated UUID) identifier and a
/// timestamp renderable in RFC 3339.  The constructors below establish
/// this shape and the repository preserves it.
pub open spec fn wf_event(e: RfqEvent) -> bool {
    &&& is_hyphenated_uuid(spec_base(e).id@)
    &&& spec_base(e).ts <= TS_MAX_MILLIS
}

impl RfqEvent {
    /// The event's unique identifier.
    pub fn id(&self) -> (r: &str)
        ensures
            r@ == spec_base(*self).id@,
    {
        match self {
            RfqEvent::Message(e) => e.base.id.as_str(),
            RfqEvent::Status(e) => e.base.id.as_str(),
            RfqEvent::Attachment(e) => e.base.id.as_str(),
        }
    }

    /// The aggregate the event belongs to.
    pub fn rfq_id(&self) -> (r: &str)
        ensures
            r@ == spec_base(*self).rfq_id@,
    {
        match self {
            RfqEvent::Message(e) => e.base.rfq_id.as_str(),
            RfqEvent::Status(e) => e.base.rfq_id.as_str(),
            RfqEvent::Attachment(e) => e.base.rfq_id.as_str(),
        }
    }

    /// The event's authoritative timestamp, in epoch milliseconds.
    pub fn timestamp(&self) -> (r: u64)
        ensures
            r == spec_base(*self).ts,
    {
        match self {
            RfqEvent::Message(e) => e.base.ts,
            RfqEvent::Status(e) => e.base.ts,
            RfqEvent::Attachment(e) => e.base.ts,
        }
    }

    /// Who created the event.
    pub fn author(&self) -> (r: &EventAuthor)
        ensures
            *r == spec_base(*self).by,
    {
        match self {
            RfqEvent::Message(e) => &e.base.by,
            RfqEvent::Status(e) => &e.base.by,
            RfqEvent::Attachment(e) => &e.base.by,
        }
    }

    /// A fresh message event, stamped with a new unique identifier.
    pub fn new_message(rfq_id: String, author: EventAuthor, body: String, ts: u64) -> (r: RfqEvent)
        requires
            ts <= TS_MAX_MILLIS,
        ensures
            r matches RfqEvent::Message(m) && m.base.rfq_id == rfq_id && m.base.ts == ts
                && m.base.by == author && m.body == body && wf_event(r),
    {
        let id = fresh_uuid_hyphenated();
        RfqEvent::Message(MessageEvent { base: RfqEventBase { id, rfq_id, ts, by: author }, body })
    }

    /// A fresh status event, stamped with a new unique identifier.
    pub fn new_status(
        rfq_id: String,
        author: EventAuthor,
        status: StatusType,
        note: Option<String>,
        ts: u64,
    ) -> (r: RfqEvent)
        requires
            ts <= TS_MAX_MILLIS,
        ensures
            r matches RfqEvent::Status(s) && s.base.rfq_id == rfq_id && s.base.ts == ts
                && s.base.by == author && s.status == status && s.note == note && wf_event(r),
    {
        let id = fresh_uuid_hyphenated();
        RfqEvent::Status(
            StatusEvent { base: RfqEventBase { id, rfq_id, ts, by: author }, status, note },
        )
    }

    /// A fresh attachment event, stamped with a new unique identifier.
    pub fn new_attachment(
        rfq_id: String,
        author: EventAuthor,
        attachments: Vec<AttachmentRef>,
        ts: u64,
    ) -> (r: RfqEvent)
        requires
            ts <= TS_MAX_MILLIS,
        ensures
            r matches RfqEvent::Attachment(a) && a.base.rfq_id == rfq_id && a.base.ts == ts
                && a.base.by == author && a.attachments == attachments && wf_event(r),
    {
        let id = fresh_uuid_hyphenated();
        RfqEvent::Attachment(
            AttachmentEvent { base: RfqEventBase { id, rfq_id, ts, by: author }, attachments },
        )
    }
}

} // verus!
