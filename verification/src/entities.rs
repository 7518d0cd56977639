//! The domain's data: the RFQ aggregate snapshot, its derived index, and
//! the read-mostly catalog records.  Instants are epoch milliseconds.

use vstd::prelude::*;
use crate::time::TS_MAX_MILLIS;

verus! {

/// Reference to an attachment file held in the object store.
#[derive(Debug, Clone, PartialEq, Eq)]
pub struct AttachmentRef {
    pub id: String,
    pub file_name: String,
    pub content_type: String,
    pub size_bytes: u64,
    pub key: String,
}

/// Contact information.
#[derive(Debug, Clone, PartialEq, Eq)]
pub struct Contact {
    pub email: String,
    pub name: Option<String>,
}

/// Reference to an image manifest.
#[derive(Debug, Clone, PartialEq, Eq)]
pub struct MediaRef {
    pub image_manifest_id: String,
    pub alt: Option<String>,
}

/// Lead time range in days.
#[derive(Debug, Clone, PartialEq, Eq)]
pub struct LeadTime {
    pub min: Option<u32>,
    pub max: Option<u32>,
}

/// A manufacturing offering.
#[derive(Debug, Clone, PartialEq, Eq)]
pub struct Offering {
    pub id: String,
    pub title: String,
    pub materials: Option<Vec<String>>,
    pub lead_time_days: Option<LeadTime>,
    pub media: Option<Vec<MediaRef>>,
}

/// A manufacturer profile, as the RFQ service reads it: identity, display
/// data and the contact address notifications go to.  Geographic
/// coordinates live at the process edge, not here.
#[derive(Debug, Clone, PartialEq, Eq)]
pub struct ManufacturerProfile {
    pub id: String,
    pub tenant_id: String,
    pub name: String,
    pub description: Option<String>,
    pub categories: Vec<String>,
    pub capabilities: Option<Vec<String>>,
    pub contact_email: Option<String>,
    pub media: Option<Vec<MediaRef>>,
    pub offerings: Option<Vec<Offering>>,
    pub updated_at: u64,
}

/// RFQ lifecycle status.
#[derive(Debug, Clone, Copy, PartialEq, Eq, Structural)]
pub enum RfqStatus {
    Open,
    Archived,
    Closed,
}

/// The role of an RFQ participant.
#[derive(Debug, Clone, Copy, PartialEq, Eq, Structural)]
pub enum ParticipantRole {
    Buyer,
    Manufacturer,
}

/// An RFQ participant.
#[derive(Debug, Clone, PartialEq, Eq)]
pub struct Participant {
    pub role: ParticipantRole,
    pub email: String,
    pub name: Option<String>,
}

/// The RFQ aggregate snapshot: one per RFQ, created once, never deleted.
#[derive(Debug, Clone, PartialEq, Eq)]
pub struct RfqMeta {
    pub id: String,
    pub tenant_id: String,
    pub manufacturer_id: String,
    pub buyer: Contact,
    pub subject: String,
    pub status: RfqStatus,
    pub created_at: u64,
    pub last_event_ts: u64,
    pub participants: Vec<Participant>,
    pub attachments: Option<Vec<AttachmentRef>>,
}

/// The derived per-RFQ summary: a cache for freshness checks, never a
/// source of truth.
#[derive(Debug, Clone, PartialEq, Eq)]
pub struct RfqIndex {
    pub last_event_ts: u64,
    pub count: u32,
}

/// A manufacturer summary on a catalog page.
#[derive(Debug, Clone, PartialEq, Eq)]
pub struct CatalogManufacturerSummary {
    pub id: String,
    pub name: String,
    pub city: Option<String>,
    pub state: Option<String>,
    pub categories: Vec<String>,
    pub capabilities: Option<Vec<String>>,
    pub logo: Option<String>,
}

/// A catalog category slice.
#[derive(Debug, Clone, PartialEq, Eq)]
pub struct CategorySlice {
    pub category: String,
    pub generated_at: u64,
    pub items: Vec<CatalogManufacturerSummary>,
}

/// One rendered variant of an image.
#[derive(Debug, Clone, PartialEq, Eq)]
pub struct ImageVariant {
    pub w: u32,
    pub content_type: String,
    pub key: String,
}

/// An image manifest.
#[derive(Debug, Clone, PartialEq, Eq)]
pub struct ImageManifest {
    pub id: String,
    pub w: u32,
    pub h: u32,
    pub variants: Vec<ImageVariant>,
    pub lqip: Option<String>,
    pub created_at: u64,
}

/// A well-formed aggregate snapshot: both instants renderable in RFC 3339
/// and the freshness stamp at or after creation.
pub open spec fn wf_meta(m: RfqMeta) -> bool {
    &&& m.created_at <= TS_MAX_MILLIS
    &&& m.last_event_ts <= TS_MAX_MILLIS
    &&& m.created_at <= m.last_event_ts
}

/// A well-formed index record.
pub open spec fn wf_index(x: RfqIndex) -> bool {
    x.last_event_ts <= TS_MAX_MILLIS
}

} // verus!
