//! The request and response shapes of the service surface, as plain
//! values.

use vstd::prelude::*;

verus! {

/// Request to create an RFQ.
#[derive(Debug, Clone, PartialEq, Eq)]
pub struct CreateRfqRequest {
    pub tenant_id: String,
    pub manufacturer_id: String,
    pub buyer: ContactDto,
    pub subject: String,
    pub body: String,
    pub attachments: Option<Vec<AttachmentDto>>,
}

/// Response to a created RFQ: its identifier and the stamp of its last
/// event, in RFC 3339 text.
#[derive(Debug, Clone, PartialEq, Eq)]
pub struct CreateRfqResponse {
    pub id: String,
    pub last_event_ts: String,
}

/// One page of events.
#[derive(Debug, Clone, PartialEq, Eq)]
pub struct ListEventsResponse {
    pub items: Vec<RfqEventDto>,
    pub next_since: Option<String>,
}

/// Request to post a message.
#[derive(Debug, Clone, PartialEq, Eq)]
pub struct PostMessageRequest {
    pub by: String,
    pub body: String,
    pub attachments: Option<Vec<AttachmentDto>>,
}

/// Response to a posted message: its stamp in RFC 3339 text.
#[derive(Debug, Clone, PartialEq, Eq)]
pub struct PostMessageResponse {
    pub ts: String,
}

/// Request for a presigned upload.
#[derive(Debug, Clone, PartialEq, Eq)]
pub struct PresignUploadRequest {
    pub tenant_id: String,
    pub path_type: String,
    pub content_type: String,
    pub size_bytes: u64,
}

/// Response carrying a presigned upload location.
#[derive(Debug, Clone, PartialEq, Eq)]
pub struct PresignUploadResponse {
    pub url: String,
    pub key: String,
    pub expires_in: u32,
}

/// Response to a created manufacturer.
#[derive(Debug, Clone, PartialEq, Eq)]
pub struct CreateManufacturerResponse {
    pub id: String,
    pub tenant_id: String,
}

#[derive(Debug, Clone, PartialEq, Eq)]
pub struct ContactDto {
    pub email: String,
    pub name: Option<String>,
}

#[derive(Debug, Clone, PartialEq, Eq)]
pub struct AttachmentDto {
    pub upload_key: String,
    pub file_name: String,
    pub content_type: String,
    pub size_bytes: u64,
}

#[derive(Debug, Clone, PartialEq, Eq)]
pub struct MediaRefDto {
    pub image_manifest_id: String,
    pub alt: Option<String>,
}

#[derive(Debug, Clone, PartialEq, Eq)]
pub struct OfferingDto {
    pub id: Option<String>,
    pub title: String,
    pub materials: Option<Vec<String>>,
    pub lead_time_days: Option<LeadTimeDto>,
    pub media: Option<Vec<MediaRefDto>>,
}

#[derive(Debug, Clone, PartialEq, Eq)]
pub struct LeadTimeDto {
    pub min: Option<u32>,
    pub max: Option<u32>,
}

/// An event as the service surface shows it: stamps as RFC 3339 text,
/// authors and statuses as their wire tags.
#[derive(Debug, Clone, PartialEq, Eq)]
pub enum RfqEventDto {
    Message { id: String, rfq_id: String, ts: String, by: String, body: String },
    Status {
        id: String,
        rfq_id: String,
        ts: String,
        by: String,
        status: String,
        note: Option<String>,
    },
    Attachment {
        id: String,
        rfq_id: String,
        ts: String,
        by: String,
        attachments: Vec<AttachmentRefDto>,
    },
}

#[derive(Debug, Clone, PartialEq, Eq)]
pub struct AttachmentRefDto {
    pub id: String,
    pub file_name: String,
    pub content_type: String,
    pub size_bytes: u64,
    pub key: String,
}

} // verus!
