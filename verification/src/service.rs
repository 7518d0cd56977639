//! The RFQ service: the transactional boundary.  Each command validates
//! its inputs, loads what it must, appends events, keeps the index, and
//! enforces idempotency; queries read back what the commands wrote.
//! Mail is returned as notices for the process edge to send: a failure
//! there never rolls back a durable command.

use vstd::prelude::*;
use crate::dto::{CreateRfqRequest, CreateRfqResponse, ListEventsResponse, PostMessageRequest, PostMessageResponse, RfqEventDto, AttachmentRefDto};
use crate::dto_codec::{parse_create_response, parse_post_response, render_create_response, render_post_response, spec_parse_create_response, spec_parse_post_response, spec_render_create_request, spec_render_post_request, render_create_request, render_post_request};
use crate::entities::{AttachmentRef, Contact, ManufacturerProfile, Participant, ParticipantRole, RfqIndex, RfqMeta, RfqStatus, wf_index, wf_meta};
use crate::error::DomainError;
use crate::event_codec::{AttV, BaseV, EventV, atts_v, author_tag, ev_id, ev_rfq_id, ev_ts, event_v, status_tag, ts_parse_ok};
use crate::events::{EventAuthor, RfqEvent, StatusType, spec_base, wf_event};
use crate::guard::{check_idempotency, idem_cell, store_idempotency};
use crate::hashing::{sha256_hex, sha256_hex_of};
use crate::ids::is_hyphenated_uuid;
use crate::keys::key_safe_rfq;
use crate::meta_codec::{MetaV, PartV, meta_v, opt_str_v, parts_v, spec_parse_idem, spec_parse_meta_full, spec_parse_index_full};
use crate::ports::ManufacturerRepository;
use crate::repo::{effective_limit, events_area_wf, has_event, index_cell, listing_ok, meta_cell, since_ok, evs_of};
use crate::store::BlobStore;
use crate::text::str_eq;
use crate::time::{TS_MAX_MILLIS, format_rfc3339, parse_rfc3339, rfc3339_of, rfc3339_parse_of};
use crate::value_objects::{email_ok, generated_rfq_id_ok, manufacturer_id_ok, message_body_ok, rfq_id_ok, tenant_id_ok, Email, ManufacturerId, MessageBody, RfqId, TenantId, content_type_ok, file_size_ok, ContentType, FileSize};

verus! {

/// What the service asks the mail edge to send.
pub enum Notice {
    RfqCreated { meta: RfqMeta },
    NewMessage { meta: RfqMeta, body: String, by: EventAuthor },
}

/// An event as it is shown on the surface, compared field by field with
/// its stored view: stamps in RFC 3339 text, authors and statuses as
/// their wire tags.
pub open spec fn dto_matches(d: RfqEventDto, ev: EventV) -> bool {
    match (d, ev) {
        (
            RfqEventDto::Message { id, rfq_id, ts, by, body },
            EventV::Message { base, body: b },
        ) => {
            &&& id@ == base.id
            &&& rfq_id@ == base.rfq_id
            &&& ts@ == rfc3339_of(base.ts as nat)
            &&& by@ == author_tag(base.by)
            &&& body@ == b
        },
        (
            RfqEventDto::Status { id, rfq_id, ts, by, status, note },
            EventV::Status { base, status: st, note: n },
        ) => {
            &&& id@ == base.id
            &&& rfq_id@ == base.rfq_id
            &&& ts@ == rfc3339_of(base.ts as nat)
            &&& by@ == author_tag(base.by)
            &&& status@ == status_tag(st)
            &&& opt_str_v(note) == n
        },
        (
            RfqEventDto::Attachment { id, rfq_id, ts, by, attachments },
            EventV::Attachment { base, attachments: atts },
        ) => {
            &&& id@ == base.id
            &&& rfq_id@ == base.rfq_id
            &&& ts@ == rfc3339_of(base.ts as nat)
            &&& by@ == author_tag(base.by)
            &&& attachments@.len() == atts.len()
            &&& forall|i: int|
                0 <= i < atts.len() ==> {
                    let a = #[trigger] attachments@[i];
                    &&& a.id@ == atts[i].id
                    &&& a.file_name@ == atts[i].file_name
                    &&& a.content_type@ == atts[i].content_type
                    &&& a.size_bytes == atts[i].size_bytes
                    &&& a.key@ == atts[i].key
                }
        },
        _ => false,
    }
}

/// Show one event on the service surface.
pub fn event_to_dto(e: &RfqEvent) -> (d: RfqEventDto)
    requires
        spec_base(*e).ts <= TS_MAX_MILLIS,
    ensures
        dto_matches(d, event_v(*e)),
{
    match e {
        RfqEvent::Message(m) => {
            let ts = format_rfc3339(m.base.ts);
            RfqEventDto::Message {
                id: m.base.id.clone(),
                rfq_id: m.base.rfq_id.clone(),
                ts,
                by: author_tag_string(&m.base.by),
                body: m.body.clone(),
            }
        },
        RfqEvent::Status(s) => {
            let ts = format_rfc3339(s.base.ts);
            let note = match &s.note {
                Some(n) => Some(n.clone()),
                None => None,
            };
            RfqEventDto::Status {
                id: s.base.id.clone(),
                rfq_id: s.base.rfq_id.clone(),
                ts,
                by: author_tag_string(&s.base.by),
                status: status_tag_string(&s.status),
                note,
            }
        },
        RfqEvent::Attachment(a) => {
            let ts = format_rfc3339(a.base.ts);
            let mut refs: Vec<AttachmentRefDto> = Vec::new();
            let n = a.attachments.len();
            let mut i: usize = 0;
            while i < n
                invariant
                    i <= n,
                    n == a.attachments@.len(),
                    refs@.len() == i,
                    forall|j: int|
                        0 <= j < i ==> {
                            let d = #[trigger] refs@[j];
                            let s = atts_v(a.attachments@)[j];
                            &&& d.id@ == s.id
                            &&& d.file_name@ == s.file_name
                            &&& d.content_type@ == s.content_type
                            &&& d.size_bytes == s.size_bytes
                            &&& d.key@ == s.key
                        },
                decreases n - i,
            {
                let src = &a.attachments[i];
                refs.push(
                    AttachmentRefDto {
                        id: src.id.clone(),
                        file_name: src.file_name.clone(),
                        content_type: src.content_type.clone(),
                        size_bytes: src.size_bytes,
                        key: src.key.clone(),
                    },
                );
                i = i + 1;
            }
            RfqEventDto::Attachment {
                id: a.base.id.clone(),
                rfq_id: a.base.rfq_id.clone(),
                ts,
                by: author_tag_string(&a.base.by),
                attachments: refs,
            }
        },
    }
}

fn author_tag_string(a: &EventAuthor) -> (r: String)
    ensures
        r@ == author_tag(*a),
{
    match a {
        EventAuthor::Buyer => "buyer".to_owned(),
        EventAuthor::Manufacturer => "manufacturer".to_owned(),
        EventAuthor::System => "system".to_owned(),
    }
}

fn status_tag_string(s: &StatusType) -> (r: String)
    ensures
        r@ == status_tag(*s),
{
    match s {
        StatusType::RfqCreated => "rfq_created".to_owned(),
        StatusType::VendorViewed => "vendor_viewed".to_owned(),
        StatusType::VendorReplied => "vendor_replied".to_owned(),
        StatusType::BuyerViewed => "buyer_viewed".to_owned(),
        StatusType::Closed => "closed".to_owned(),
        StatusType::Archived => "archived".to_owned(),
    }
}

/// Look up an RFQ's snapshot: a pure query, `None` when absent.
pub fn get_rfq<S: BlobStore>(store: &S, rfq_id: &str) -> (r: Result<Option<RfqMeta>, DomainError>)
    requires
        store.inv(),
    ensures
        match r {
            Ok(Some(meta)) => rfq_id_ok(rfq_id@) && (meta_cell(store.store_view(), rfq_id@)
                matches Some(v) && spec_parse_meta_full(v) == Some(meta_v(meta))),
            Ok(None) => rfq_id_ok(rfq_id@) && meta_cell(store.store_view(), rfq_id@) is None,
            Err(e) => match e {
                DomainError::ValidationFailed(_) => !rfq_id_ok(rfq_id@),
                DomainError::Internal(_) => rfq_id_ok(rfq_id@) && (meta_cell(
                    store.store_view(),
                    rfq_id@,
                ) matches Some(v) && spec_parse_meta_full(v) is None),
                _ => false,
            },
        },
{
    let id = match RfqId::new(rfq_id) {
        Ok(x) => x,
        Err(e) => {
            return Err(e);
        },
    };
    crate::repo::get_rfq_meta(store, rfq_id)
}

/// The parsed `since` cursor of a listing request: `None` when no cursor
/// was given, otherwise chrono's reading of it.
pub open spec fn spec_since_cursor(since: Option<&str>) -> Option<Option<u64>> {
    match since {
        None => Some(None),
        Some(s) => match rfc3339_parse_of(s@) {
            Some(ms) => Some(Some(ms)),
            None => None,
        },
    }
}

/// List a page of an RFQ's events as surface values.  The cursor is the
/// stamp of the page's last entry; events sharing that exact millisecond
/// with the last entry are not revisited by the next page, the cursor
/// being a timestamp alone.
#[verifier::rlimit(100)]
#[verifier::spinoff_prover]
#[verifier::loop_isolation(false)]
pub fn list_events<S: BlobStore>(
    store: &S,
    rfq_id: &str,
    since: Option<&str>,
    limit: Option<u32>,
) -> (r: Result<ListEventsResponse, DomainError>)
    requires
        store.inv(),
    ensures
        match r {
            Ok(resp) => {
                &&& rfq_id_ok(rfq_id@)
                &&& spec_since_cursor(since) matches Some(cursor) && (exists|evs: Seq<EventV>|
                    {
                        &&& #[trigger] listing_ok(
                            store.store_view(),
                            rfq_id@,
                            cursor,
                            effective_limit(limit),
                            evs,
                        )
                        &&& resp.items@.len() == evs.len()
                        &&& forall|i: int|
                            0 <= i < evs.len() ==> dto_matches(#[trigger] resp.items@[i], evs[i])
                        &&& (match resp.next_since {
                            Some(ns) => evs.len() > 0 && ns@ == rfc3339_of(
                                ev_ts(evs[evs.len() - 1]) as nat,
                            ),
                            None => evs.len() == 0,
                        })
                    })
            },
            Err(e) => e matches DomainError::ValidationFailed(_) && (!rfq_id_ok(rfq_id@)
                || spec_since_cursor(since) is None),
        },
{
    let id = match RfqId::new(rfq_id) {
        Ok(x) => x,
        Err(e) => {
            return Err(e);
        },
    };
    let cursor: Option<u64> = match since {
        None => None,
        Some(s) => match parse_rfc3339(s) {
            Some(ms) => Some(ms),
            None => {
                return Err(
                    DomainError::ValidationFailed("Invalid since timestamp format".to_owned()),
                );
            },
        },
    };
    let events = crate::repo::list_rfq_events(store, rfq_id, cursor, limit);
    let ghost evs = evs_of(events@);
    proof {
        assert(evs.len() == events@.len());
        assert(forall|j: int|
            0 <= j < evs.len() ==> #[trigger] evs[j] == event_v(events@[j]));
    }
    let mut items: Vec<RfqEventDto> = Vec::new();
    let n = events.len();
    let mut i: usize = 0;
    while i < n
        invariant
            i <= n,
            n == events@.len(),
            items@.len() == i,
            forall|j: int| 0 <= j < i ==> dto_matches(#[trigger] items@[j], evs[j]),
            forall|j: int|
                0 <= j < n ==> ev_ts(#[trigger] evs[j]) <= TS_MAX_MILLIS,
        decreases n - i,
    {
        proof {
            assert(evs[i as int] == event_v(events@[i as int]));
        }
        let d = event_to_dto(&events[i]);
        items.push(d);
        i = i + 1;
    }
    let next_since: Option<String> = if events.len() > 0 {
        let last_ts = events[events.len() - 1].timestamp();
        proof {
            assert(evs[events@.len() - 1] == event_v(events@[events@.len() - 1]));
            assert(ev_ts(evs[events@.len() - 1]) <= TS_MAX_MILLIS);
            assert(last_ts == ev_ts(evs[events@.len() - 1]));
        }
        Some(format_rfc3339(last_ts))
    } else {
        None
    };
    Ok(ListEventsResponse { items, next_since })
}


/// The caller's idempotency key, viewed.
pub open spec fn opt_key(k: Option<&str>) -> Option<Seq<char>> {
    match k {
        Some(s) => Some(s@),
        None => None,
    }
}

/// The scalar inputs a create request must validate (§4.1 rules).
pub open spec fn create_scalars_ok(req: CreateRfqRequest) -> bool {
    &&& tenant_id_ok(req.tenant_id@)
    &&& manufacturer_id_ok(req.manufacturer_id@)
    &&& email_ok(req.buyer.email@)
    &&& message_body_ok(req.body@)
}

/// Every attachment descriptor carries an allow-listed content type and
/// an in-range size.
pub open spec fn create_atts_ok(req: CreateRfqRequest) -> bool {
    match req.attachments {
        Some(l) => forall|i: int|
            0 <= i < l@.len() ==> content_type_ok((#[trigger] l@[i]).content_type@)
                && file_size_ok(l@[i].size_bytes),
        None => true,
    }
}

/// The request's attachments with an empty list read as absent: an empty
/// list is treated identically to no attachments at all.
pub open spec fn norm_atts(req: CreateRfqRequest) -> Option<Vec<crate::dto::AttachmentDto>> {
    match req.attachments {
        Some(l) => if l@.len() > 0 {
            Some(l)
        } else {
            None
        },
        None => None,
    }
}

/// The content hash the idempotency guard keys replays on.
pub open spec fn create_request_hash(req: CreateRfqRequest) -> Seq<char> {
    sha256_hex_of(spec_render_create_request(req))
}

/// The content hash of a post-message request.
pub open spec fn post_request_hash(req: PostMessageRequest) -> Seq<char> {
    sha256_hex_of(spec_render_post_request(req))
}

/// The cached response a key replays, when its record exists, reads
/// back, and its stored hash matches.
pub open spec fn replay_cached(
    m: Map<Seq<char>, Seq<char>>,
    key: Seq<char>,
    hash: Seq<char>,
) -> Option<Seq<char>> {
    match idem_cell(m, key) {
        Some(v) => match spec_parse_idem(v) {
            Some((h, c)) => if h == hash {
                Some(c)
            } else {
                None
            },
            None => None,
        },
        None => None,
    }
}

/// The initial status event of a fresh RFQ, as a stored view.
pub open spec fn status_ev(rid: Seq<char>, ts: u64, sid: Seq<char>) -> EventV {
    EventV::Status {
        base: BaseV { id: sid, rfq_id: rid, ts, by: EventAuthor::System },
        status: StatusType::RfqCreated,
        note: None,
    }
}

/// A message event, as a stored view.
pub open spec fn message_ev(
    rid: Seq<char>,
    ts: u64,
    mid: Seq<char>,
    by: EventAuthor,
    body: Seq<char>,
) -> EventV {
    EventV::Message { base: BaseV { id: mid, rfq_id: rid, ts, by }, body }
}

/// An attachment event, as a stored view.
pub open spec fn attachment_ev(
    rid: Seq<char>,
    ts: u64,
    aid: Seq<char>,
    atts: Seq<AttV>,
) -> EventV {
    EventV::Attachment {
        base: BaseV { id: aid, rfq_id: rid, ts, by: EventAuthor::Buyer },
        attachments: atts,
    }
}

/// Stored attachment views against the request's descriptors: same
/// length, same file names, types, sizes and upload keys, each with a
/// fresh generated identifier.
pub open spec fn att_views_match(l: Seq<AttV>, d: Seq<crate::dto::AttachmentDto>) -> bool {
    &&& l.len() == d.len()
    &&& forall|i: int|
        0 <= i < l.len() ==> {
            &&& is_hyphenated_uuid((#[trigger] l[i]).id)
            &&& l[i].file_name == d[i].file_name@
            &&& l[i].content_type == d[i].content_type@
            &&& l[i].size_bytes == d[i].size_bytes
            &&& l[i].key == d[i].upload_key@
        }
}

/// The contact address notifications for a manufacturer go to: its
/// profile's address, or empty when it has none.
pub open spec fn manufacturer_contact(p: ManufacturerProfile) -> Seq<char> {
    match p.contact_email {
        Some(e) => e@,
        None => Seq::empty(),
    }
}

/// The snapshot a fresh RFQ is created with (§4.4 steps 4 and 5).
pub open spec fn created_meta_ok(
    mv: MetaV,
    req: CreateRfqRequest,
    profile: ManufacturerProfile,
    rid: Seq<char>,
    now: u64,
) -> bool {
    &&& mv.id == rid
    &&& mv.tenant_id == req.tenant_id@
    &&& mv.manufacturer_id == req.manufacturer_id@
    &&& mv.buyer_email == req.buyer.email@
    &&& mv.buyer_name == opt_str_v(req.buyer.name)
    &&& mv.subject == req.subject@
    &&& mv.status == RfqStatus::Open
    &&& mv.created_at == now
    &&& mv.last_event_ts == now
    &&& mv.participants.len() == 2
    &&& mv.participants[0] == PartV {
        role: ParticipantRole::Buyer,
        email: req.buyer.email@,
        name: opt_str_v(req.buyer.name),
    }
    &&& mv.participants[1] == PartV {
        role: ParticipantRole::Manufacturer,
        email: manufacturer_contact(profile),
        name: Some(profile.name@),
    }
    &&& (match (mv.attachments, norm_atts(req)) {
        (None, None) => true,
        (Some(l), Some(d)) => att_views_match(l, d@),
        _ => false,
    })
}

/// The events a fresh RFQ holds (§4.4 step 6).  The identifiers are
/// independent random draws; should a later draw repeat an earlier one,
/// the later event keeps the shared key — last write wins, the stored
/// log is still exactly what these clauses say.
pub open spec fn created_events_ok(
    mf: Map<Seq<char>, Seq<char>>,
    req: CreateRfqRequest,
    rid: Seq<char>,
    now: u64,
) -> bool {
    match norm_atts(req) {
        None => exists|sid: Seq<char>, mid: Seq<char>|
            {
                &&& #[trigger] is_hyphenated_uuid(sid)
                &&& #[trigger] is_hyphenated_uuid(mid)
                &&& has_event(mf, rid, message_ev(rid, now, mid, EventAuthor::Buyer, req.body@))
                &&& (has_event(mf, rid, status_ev(rid, now, sid)) || sid == mid)
            },
        Some(dtos) => exists|sid: Seq<char>, mid: Seq<char>, aid: Seq<char>, atts: Seq<AttV>|
            {
                &&& #[trigger] is_hyphenated_uuid(sid)
                &&& #[trigger] is_hyphenated_uuid(mid)
                &&& #[trigger] is_hyphenated_uuid(aid)
                &&& #[trigger] att_views_match(atts, dtos@)
                &&& has_event(mf, rid, attachment_ev(rid, now, aid, atts))
                &&& (has_event(mf, rid, message_ev(rid, now, mid, EventAuthor::Buyer, req.body@))
                    || mid == aid)
                &&& (has_event(mf, rid, status_ev(rid, now, sid)) || sid == mid || sid == aid)
            },
    }
}

/// The durable outcome of a fresh creation (§4.4 steps 4–9) and the
/// response and notices it answers with.
pub open spec fn created_state_ok_h(
    mf: Map<Seq<char>, Seq<char>>,
    req: CreateRfqRequest,
    profile: ManufacturerProfile,
    key: Option<Seq<char>>,
    hash: Seq<char>,
    now: u64,
    resp: CreateRfqResponse,
    notices: Seq<Notice>,
) -> bool {
    let rid = resp.id@;
    &&& generated_rfq_id_ok(rid)
    &&& resp.last_event_ts@ == rfc3339_of(now as nat)
    &&& rfc3339_parse_of(resp.last_event_ts@) == Some(now)
    &&& (meta_cell(mf, rid) matches Some(v) && (spec_parse_meta_full(v) matches Some(mv)
        && created_meta_ok(mv, req, profile, rid, now)))
    &&& (index_cell(mf, rid) matches Some(v) && spec_parse_index_full(v) == Some(
        RfqIndex {
            last_event_ts: now,
            count: if norm_atts(req) is Some {
                3
            } else {
                2
            },
        },
    ))
    &&& created_events_ok(mf, req, rid, now)
    &&& (match key {
        Some(k) => idem_cell(mf, k) matches Some(v) && (spec_parse_idem(v) matches Some((h, c))
            && h == hash && spec_parse_create_response(c) == Some(
            (resp.id@, resp.last_event_ts@),
        )),
        None => true,
    })
    &&& notices.len() == 1
    &&& (notices[0] matches Notice::RfqCreated { meta } && (meta_cell(mf, rid) matches Some(v)
        && spec_parse_meta_full(v) == Some(meta_v(meta))))
}

/// `created_state_ok_h` at the request's own content hash.
pub open spec fn created_state_ok(
    mf: Map<Seq<char>, Seq<char>>,
    req: CreateRfqRequest,
    profile: ManufacturerProfile,
    key: Option<Seq<char>>,
    now: u64,
    resp: CreateRfqResponse,
    notices: Seq<Notice>,
) -> bool {
    created_state_ok_h(mf, req, profile, key, create_request_hash(req), now, resp, notices)
}

/// Everything `create_rfq` promises: replay answers verbatim and writes
/// nothing, a reused key with another body is a conflict, validation and
/// lookup fail before any durable write, and a fresh creation writes the
/// snapshot, the events, the index and the cached response.
pub open spec fn create_rfq_post_h(
    m0: Map<Seq<char>, Seq<char>>,
    mans: Map<Seq<char>, ManufacturerProfile>,
    mf: Map<Seq<char>, Seq<char>>,
    req: CreateRfqRequest,
    key: Option<Seq<char>>,
    hash: Seq<char>,
    now: u64,
    r: Result<(CreateRfqResponse, Vec<Notice>), DomainError>,
) -> bool {
    let cached = match key {
        Some(k) => replay_cached(m0, k, hash),
        None => None,
    };
    let no_record = match key {
        Some(k) => idem_cell(m0, k) is None,
        None => true,
    };
    match r {
        Ok((resp, notices)) => {
            ||| (cached matches Some(c) && spec_parse_create_response(c) == Some(
                (resp.id@, resp.last_event_ts@),
            ) && mf == m0 && notices@.len() == 0)
            ||| {
                &&& no_record
                &&& create_scalars_ok(req)
                &&& mans.contains_key(req.manufacturer_id@)
                &&& create_atts_ok(req)
                &&& created_state_ok_h(
                    mf,
                    req,
                    mans[req.manufacturer_id@],
                    key,
                    hash,
                    now,
                    resp,
                    notices@,
                )
            }
        },
        Err(e) => match e {
            DomainError::ValidationFailed(_) => mf == m0 && no_record && (!create_scalars_ok(req)
                || (create_scalars_ok(req) && mans.contains_key(req.manufacturer_id@)
                && !create_atts_ok(req))),
            DomainError::NotFound(_) => mf == m0 && no_record && create_scalars_ok(req)
                && !mans.contains_key(req.manufacturer_id@),
            DomainError::Conflict(_) => mf == m0 && (key matches Some(k) && (idem_cell(m0, k)
                matches Some(v) && (spec_parse_idem(v) matches Some((h, c)) && h != hash))),
            DomainError::Internal(_) => mf == m0 && (key matches Some(k) && (idem_cell(m0, k)
                matches Some(v) && (spec_parse_idem(v) is None || (cached matches Some(c)
                && spec_parse_create_response(c) is None)))),
            _ => false,
        },
    }
}

/// `create_rfq_post_h` at the request's own content hash: everything the
/// command promises.
pub open spec fn create_rfq_post(
    m0: Map<Seq<char>, Seq<char>>,
    mans: Map<Seq<char>, ManufacturerProfile>,
    mf: Map<Seq<char>, Seq<char>>,
    req: CreateRfqRequest,
    key: Option<Seq<char>>,
    now: u64,
    r: Result<(CreateRfqResponse, Vec<Notice>), DomainError>,
) -> bool {
    create_rfq_post_h(m0, mans, mf, req, key, create_request_hash(req), now, r)
}

/// A generated RFQ identifier never holds a slash.
proof fn lemma_generated_id_key_safe(s: Seq<char>)
    requires
        generated_rfq_id_ok(s),
    ensures
        key_safe_rfq(s),
{
    assert forall|i: int| 0 <= i < s.len() implies s[i] != '/' by {
        if i >= 2 {
            assert(crate::value_objects::is_upper_hex_char(s[i]));
        }
    }
}

/// A hyphenated UUID never holds a slash and is nonempty.
proof fn lemma_hyphenated_key_safe(s: Seq<char>)
    requires
        is_hyphenated_uuid(s),
    ensures
        crate::keys::key_safe_id(s),
{
    assert forall|i: int| 0 <= i < s.len() implies s[i] != '/' by {
        if i == 8 || i == 13 || i == 18 || i == 23 {
        } else {
            assert(crate::text::is_lower_hex_char(s[i]));
        }
    }
}

/// Copy an optional string.
fn clone_opt_string(o: &Option<String>) -> (r: Option<String>)
    ensures
        opt_str_v(r) == opt_str_v(*o),
        r is Some <==> *o is Some,
{
    match o {
        Some(s) => Some(s.clone()),
        None => None,
    }
}

/// Copy an attachment reference field by field.
fn clone_att(a: &AttachmentRef) -> (r: AttachmentRef)
    ensures
        r == *a,
{
    AttachmentRef {
        id: a.id.clone(),
        file_name: a.file_name.clone(),
        content_type: a.content_type.clone(),
        size_bytes: a.size_bytes,
        key: a.key.clone(),
    }
}

/// Copy a list of attachment references.
fn clone_atts(l: &Vec<AttachmentRef>) -> (r: Vec<AttachmentRef>)
    ensures
        r@ == l@,
{
    let mut out: Vec<AttachmentRef> = Vec::new();
    let n = l.len();
    let mut i: usize = 0;
    while i < n
        invariant
            i <= n,
            n == l@.len(),
            out@ == l@.take(i as int),
        decreases n - i,
    {
        out.push(clone_att(&l[i]));
        proof {
            assert(l@.take(i + 1) =~= l@.take(i as int).push(l@[i as int]));
        }
        i = i + 1;
    }
    proof {
        assert(l@.take(n as int) =~= l@);
    }
    out
}

/// The fresh-creation path of `create_rfq`, entered when no idempotency
/// record exists for the key: validate, look the manufacturer up,
/// persist the snapshot, the initial events and the index, and cache the
/// response.
#[verifier::rlimit(100)]
#[verifier::spinoff_prover]
#[verifier::loop_isolation(false)]
fn create_fresh<S: BlobStore, M: ManufacturerRepository>(
    store: &mut S,
    manufacturers: &M,
    request: &CreateRfqRequest,
    idempotency_key: Option<&str>,
    hash: &String,
    now_ms: u64,
) -> (r: Result<(CreateRfqResponse, Vec<Notice>), DomainError>)
    requires
        old(store).inv(),
        manufacturers.inv(),
        now_ms <= TS_MAX_MILLIS,
        hash@ == create_request_hash(*request),
    ensures
        final(store).inv(),
        forall|rfq: Seq<char>|
            key_safe_rfq(rfq) && events_area_wf(old(store).store_view(), rfq)
                ==> events_area_wf(final(store).store_view(), rfq),
        match r {
            Ok((resp, notices)) => create_scalars_ok(*request)
                && manufacturers.manufacturers().contains_key(request.manufacturer_id@)
                && create_atts_ok(*request) && created_state_ok(
                final(store).store_view(),
                *request,
                manufacturers.manufacturers()[request.manufacturer_id@],
                opt_key(idempotency_key),
                now_ms,
                resp,
                notices@,
            ),
            Err(e) => final(store).store_view() == old(store).store_view() && (match e {
                DomainError::ValidationFailed(_) => !create_scalars_ok(*request) || (
                create_scalars_ok(*request) && manufacturers.manufacturers().contains_key(
                    request.manufacturer_id@,
                ) && !create_atts_ok(*request)),
                DomainError::NotFound(_) => create_scalars_ok(*request)
                    && !manufacturers.manufacturers().contains_key(request.manufacturer_id@),
                _ => false,
            }),
        },
{
    // Step 2: validate the scalar inputs, failing fast.
    let _tenant = match TenantId::new(request.tenant_id.as_str()) {
        Ok(x) => x,
        Err(e) => {
            return Err(e);
        },
    };
    let _mfg_id = match ManufacturerId::new(request.manufacturer_id.as_str()) {
        Ok(x) => x,
        Err(e) => {
            return Err(e);
        },
    };
    let _email = match Email::new(request.buyer.email.as_str()) {
        Ok(x) => x,
        Err(e) => {
            return Err(e);
        },
    };
    let _body = match MessageBody::new(request.body.as_str()) {
        Ok(x) => x,
        Err(e) => {
            return Err(e);
        },
    };
    // Step 3: the manufacturer must exist.
    let profile = match manufacturers.get_manufacturer(request.manufacturer_id.as_str()) {
        Some(p) => p,
        None => {
            return Err(DomainError::NotFound("Manufacturer not found".to_owned()));
        },
    };
    // Step 4: validate and take over the attachments; an empty list is
    // the same as none.
    let mut processed: Option<Vec<AttachmentRef>> = None;
    match &request.attachments {
        None => {},
        Some(dtos) => {
            let nd = dtos.len();
            let mut refs: Vec<AttachmentRef> = Vec::new();
            let mut i: usize = 0;
            while i < nd
                invariant
                    i <= nd,
                    nd == dtos@.len(),
                    refs@.len() == i,
                    forall|j: int|
                        0 <= j < i ==> content_type_ok((#[trigger] dtos@[j]).content_type@)
                            && file_size_ok(dtos@[j].size_bytes),
                    att_views_match(atts_v(refs@), dtos@.take(i as int)),
                decreases nd - i,
            {
                let d = &dtos[i];
                let _ct = match ContentType::new(d.content_type.as_str()) {
                    Ok(x) => x,
                    Err(e) => {
                        proof {
                            assert(!create_atts_ok(*request));
                        }
                        return Err(e);
                    },
                };
                let _fs = match FileSize::new(d.size_bytes) {
                    Ok(x) => x,
                    Err(e) => {
                        proof {
                            assert(!create_atts_ok(*request));
                        }
                        return Err(e);
                    },
                };
                let fresh = crate::ids::fresh_uuid_hyphenated();
                let ghost prev = refs@;
                refs.push(
                    AttachmentRef {
                        id: fresh,
                        file_name: d.file_name.clone(),
                        content_type: d.content_type.clone(),
                        size_bytes: d.size_bytes,
                        key: d.upload_key.clone(),
                    },
                );
                proof {
                    assert(refs@.drop_last() =~= prev);
                    assert(atts_v(refs@) =~= atts_v(prev).push(
                        crate::event_codec::att_v(refs@[i as int]),
                    ));
                    assert(dtos@.take(i + 1) =~= dtos@.take(i as int).push(dtos@[i as int]));
                    assert forall|j: int| #![trigger atts_v(refs@)[j]]
                        0 <= j < i + 1 implies {
                        let l = atts_v(refs@);
                        let dd = dtos@.take(i + 1);
                        &&& is_hyphenated_uuid(l[j].id)
                        &&& l[j].file_name == dd[j].file_name@
                        &&& l[j].content_type == dd[j].content_type@
                        &&& l[j].size_bytes == dd[j].size_bytes
                        &&& l[j].key == dd[j].upload_key@
                    } by {
                        if j < i {
                            assert(atts_v(refs@)[j] == atts_v(prev)[j]);
                            assert(dtos@.take(i + 1)[j] == dtos@.take(i as int)[j]);
                        } else {
                            assert(atts_v(refs@)[j] == crate::event_codec::att_v(
                                refs@[i as int],
                            ));
                        }
                    }
                }
                i = i + 1;
            }
            proof {
                assert(dtos@.take(nd as int) =~= dtos@);
            }
            if dtos.len() > 0 {
                processed = Some(refs);
            }
        },
    }
    persist_created(store, request, profile, processed, idempotency_key, hash, now_ms)
}

/// Persist a fresh RFQ (§4.4 steps 4–9): generate the identifier, write
/// the snapshot, the initial events and the index, cache the response
/// under the idempotency key, and hand back the notice.
#[verifier::rlimit(100)]
#[verifier::spinoff_prover]
#[verifier::loop_isolation(false)]
fn persist_created<S: BlobStore>(
    store: &mut S,
    request: &CreateRfqRequest,
    profile: &ManufacturerProfile,
    processed: Option<Vec<AttachmentRef>>,
    idempotency_key: Option<&str>,
    hash: &String,
    now_ms: u64,
) -> (r: Result<(CreateRfqResponse, Vec<Notice>), DomainError>)
    requires
        old(store).inv(),
        now_ms <= TS_MAX_MILLIS,
        hash@ == create_request_hash(*request),
        match (processed, norm_atts(*request)) {
            (Some(refs), Some(d)) => att_views_match(atts_v(refs@), d@),
            (None, None) => true,
            _ => false,
        },
    ensures
        final(store).inv(),
        forall|rfq: Seq<char>|
            key_safe_rfq(rfq) && events_area_wf(old(store).store_view(), rfq)
                ==> events_area_wf(final(store).store_view(), rfq),
        r matches Ok((resp, notices)) && created_state_ok(
            final(store).store_view(),
            *request,
            *profile,
            opt_key(idempotency_key),
            now_ms,
            resp,
            notices@,
        ),
{
    // Generate the identifier and stamp the instant.
    let rid = RfqId::generate();
    let rid_string: String = rid.as_str().to_owned();
    proof {
        lemma_generated_id_key_safe(rid_string@);
    }
    // Step 5: the snapshot, with its two participants.
    let buyer = Contact {
        email: request.buyer.email.clone(),
        name: clone_opt_string(&request.buyer.name),
    };
    let p_buyer = Participant {
        role: ParticipantRole::Buyer,
        email: request.buyer.email.clone(),
        name: clone_opt_string(&request.buyer.name),
    };
    let p_manufacturer = Participant {
        role: ParticipantRole::Manufacturer,
        email: match &profile.contact_email {
            Some(e) => e.clone(),
            None => String::new(),
        },
        name: Some(profile.name.clone()),
    };
    let mut participants: Vec<Participant> = Vec::new();
    participants.push(p_buyer);
    participants.push(p_manufacturer);
    let event_atts: Option<Vec<AttachmentRef>> = match &processed {
        Some(refs) => Some(clone_atts(refs)),
        None => None,
    };
    let meta = RfqMeta {
        id: rid_string.clone(),
        tenant_id: request.tenant_id.clone(),
        manufacturer_id: request.manufacturer_id.clone(),
        buyer,
        subject: request.subject.clone(),
        status: RfqStatus::Open,
        created_at: now_ms,
        last_event_ts: now_ms,
        participants,
        attachments: processed,
    };
    crate::repo::save_rfq_meta(store, &meta);
    // Step 6: the initial events, all stamped with this instant.
    let status_event = RfqEvent::new_status(
        rid_string.clone(),
        EventAuthor::System,
        StatusType::RfqCreated,
        None,
        now_ms,
    );
    proof {
        lemma_hyphenated_key_safe(spec_base(status_event).id@);
    }
    crate::repo::save_rfq_event(store, &status_event);
    let message_event = RfqEvent::new_message(
        rid_string.clone(),
        EventAuthor::Buyer,
        request.body.clone(),
        now_ms,
    );
    proof {
        lemma_hyphenated_key_safe(spec_base(message_event).id@);
    }
    crate::repo::save_rfq_event(store, &message_event);
    let mut wrote_attachments = false;
    if let Some(refs) = event_atts {
        let attachment_event = RfqEvent::new_attachment(
            rid_string.clone(),
            EventAuthor::Buyer,
            refs,
            now_ms,
        );
        proof {
            lemma_hyphenated_key_safe(spec_base(attachment_event).id@);
        }
        crate::repo::save_rfq_event(store, &attachment_event);
        wrote_attachments = true;
    }
    // Step 7: the index.
    let index = RfqIndex {
        last_event_ts: now_ms,
        count: if wrote_attachments {
            3
        } else {
            2
        },
    };
    crate::repo::save_rfq_index(store, rid.as_str(), &index);
    // The response, and the cached copy a retry replays.
    let resp = CreateRfqResponse { id: rid_string, last_event_ts: format_rfc3339(now_ms) };
    if let Some(k) = idempotency_key {
        let resp_json = render_create_response(&resp);
        store_idempotency(store, k, hash.as_str(), resp_json.as_str());
    }
    // Step 8: the notice for the mail edge; sending is not this
    // function's outcome.
    let mut notices: Vec<Notice> = Vec::new();
    notices.push(Notice::RfqCreated { meta });
    Ok((resp, notices))
}


/// Create an RFQ (§4.4): replay or conflict under an idempotency key,
/// else validate, persist and answer.
#[verifier::rlimit(100)]
#[verifier::spinoff_prover]
pub fn create_rfq<S: BlobStore, M: ManufacturerRepository>(
    store: &mut S,
    manufacturers: &M,
    request: &CreateRfqRequest,
    idempotency_key: Option<&str>,
    now_ms: u64,
) -> (r: Result<(CreateRfqResponse, Vec<Notice>), DomainError>)
    requires
        old(store).inv(),
        manufacturers.inv(),
        now_ms <= TS_MAX_MILLIS,
    ensures
        final(store).inv(),
        create_rfq_post(
            old(store).store_view(),
            manufacturers.manufacturers(),
            final(store).store_view(),
            *request,
            opt_key(idempotency_key),
            now_ms,
            r,
        ),
        forall|rfq: Seq<char>|
            key_safe_rfq(rfq) && events_area_wf(old(store).store_view(), rfq)
                ==> events_area_wf(final(store).store_view(), rfq),
{
    // Step 1: replay or conflict under the idempotency key.
    let req_json = render_create_request(request);
    let hash = sha256_hex(req_json.as_str());
    if let Some(k) = idempotency_key {
        match check_idempotency(store, k, hash.as_str()) {
            Ok(Some(cached)) => {
                match parse_create_response(cached.as_str()) {
                    Some(resp) => {
                        return Ok((resp, Vec::new()));
                    },
                    None => {
                        return Err(
                            DomainError::Internal(
                                "Failed to deserialize cached response".to_owned(),
                            ),
                        );
                    },
                }
            },
            Ok(None) => {},
            Err(e) => {
                return Err(e);
            },
        }
    }
    create_fresh(store, manufacturers, request, idempotency_key, &hash, now_ms)
}

/// A well-formed author word of a post request.
pub open spec fn by_ok(s: Seq<char>) -> bool {
    s == "buyer"@ || s == "manufacturer"@
}

/// The author a post request's word names.
pub open spec fn author_of_by(s: Seq<char>) -> EventAuthor {
    if s == "buyer"@ {
        EventAuthor::Buyer
    } else {
        EventAuthor::Manufacturer
    }
}

/// Whether the RFQ's snapshot record exists and reads back.
pub open spec fn meta_readable(m: Map<Seq<char>, Seq<char>>, rfq_id: Seq<char>) -> bool {
    meta_cell(m, rfq_id) matches Some(v) && spec_parse_meta_full(v) is Some
}

/// The advisory event count after one more message: the read index bumped
/// by one (saturating — the counter is advisory), or one when no index
/// was there.
pub open spec fn posted_count(m0: Map<Seq<char>, Seq<char>>, rfq_id: Seq<char>) -> u32 {
    match index_cell(m0, rfq_id) {
        Some(v) => match spec_parse_index_full(v) {
            Some(x) => if x.count < u32::MAX {
                (x.count + 1) as u32
            } else {
                x.count
            },
            None => 1,
        },
        None => 1,
    }
}

/// Whether the RFQ's index cell, if present, reads back.
pub open spec fn index_readable(m: Map<Seq<char>, Seq<char>>, rfq_id: Seq<char>) -> bool {
    match index_cell(m, rfq_id) {
        Some(v) => spec_parse_index_full(v) is Some,
        None => true,
    }
}

/// The durable outcome of a fresh post (§4.4 steps 4–7) and its answer.
pub open spec fn posted_state_ok(
    m0: Map<Seq<char>, Seq<char>>,
    mf: Map<Seq<char>, Seq<char>>,
    rfq_id: Seq<char>,
    req: PostMessageRequest,
    key: Option<Seq<char>>,
    now: u64,
    resp: PostMessageResponse,
    notices: Seq<Notice>,
) -> bool {
    &&& resp.ts@ == rfc3339_of(now as nat)
    &&& rfc3339_parse_of(resp.ts@) == Some(now)
    &&& exists|mid: Seq<char>|
        #[trigger] is_hyphenated_uuid(mid) && has_event(
            mf,
            rfq_id,
            message_ev(rfq_id, now, mid, author_of_by(req.by@), req.body@),
        )
    &&& (index_cell(mf, rfq_id) matches Some(v) && spec_parse_index_full(v) == Some(
        RfqIndex { last_event_ts: now, count: posted_count(m0, rfq_id) },
    ))
    &&& (match key {
        Some(k) => idem_cell(mf, k) matches Some(v) && (spec_parse_idem(v) matches Some((h, c))
            && h == post_request_hash(req) && spec_parse_post_response(c) == Some(resp.ts@)),
        None => true,
    })
    &&& notices.len() == 1
    &&& (notices[0] matches Notice::NewMessage { meta, body, by } && body@ == req.body@ && by
        == author_of_by(req.by@) && (meta_cell(m0, rfq_id) matches Some(v)
        && spec_parse_meta_full(v) == Some(meta_v(meta))))
}

/// Everything `post_message` promises, by outcome.
pub open spec fn post_message_post(
    m0: Map<Seq<char>, Seq<char>>,
    mf: Map<Seq<char>, Seq<char>>,
    rfq_id: Seq<char>,
    req: PostMessageRequest,
    key: Option<Seq<char>>,
    now: u64,
    r: Result<(PostMessageResponse, Vec<Notice>), DomainError>,
) -> bool {
    let hash = post_request_hash(req);
    let cached = match key {
        Some(k) => replay_cached(m0, k, hash),
        None => None,
    };
    let no_record = match key {
        Some(k) => idem_cell(m0, k) is None,
        None => true,
    };
    match r {
        Ok((resp, notices)) => rfq_id_ok(rfq_id) && key_safe_rfq(rfq_id) && {
            ||| (cached matches Some(c) && spec_parse_post_response(c) == Some(resp.ts@) && mf
                == m0 && notices@.len() == 0)
            ||| {
                &&& no_record
                &&& message_body_ok(req.body@)
                &&& meta_readable(m0, rfq_id)
                &&& by_ok(req.by@)
                &&& index_readable(m0, rfq_id)
                &&& posted_state_ok(m0, mf, rfq_id, req, key, now, resp, notices@)
            }
        },
        Err(e) => match e {
            DomainError::ValidationFailed(_) => mf == m0 && {
                ||| !rfq_id_ok(rfq_id)
                ||| !key_safe_rfq(rfq_id)
                ||| (rfq_id_ok(rfq_id) && no_record && !message_body_ok(req.body@))
                ||| (rfq_id_ok(rfq_id) && no_record && message_body_ok(req.body@)
                    && meta_readable(m0, rfq_id) && !by_ok(req.by@))
            },
            DomainError::NotFound(_) => mf == m0 && rfq_id_ok(rfq_id) && no_record
                && message_body_ok(req.body@) && meta_cell(m0, rfq_id) is None,
            DomainError::Conflict(_) => mf == m0 && rfq_id_ok(rfq_id) && (key matches Some(k) && (
            idem_cell(m0, k) matches Some(v) && (spec_parse_idem(v) matches Some((h, c)) && h
                != hash))),
            DomainError::Internal(_) => mf == m0 && rfq_id_ok(rfq_id) && {
                ||| (key matches Some(k) && (idem_cell(m0, k) matches Some(v) && (spec_parse_idem(
                    v,
                ) is None || (cached matches Some(c) && spec_parse_post_response(c) is None))))
                ||| (no_record && message_body_ok(req.body@) && (meta_cell(m0, rfq_id)
                    matches Some(v) && spec_parse_meta_full(v) is None))
                ||| (no_record && message_body_ok(req.body@) && meta_readable(m0, rfq_id)
                    && by_ok(req.by@) && (index_cell(m0, rfq_id) matches Some(v)
                    && spec_parse_index_full(v) is None))
            },
            _ => false,
        },
    }
}

/// Post a message to an existing RFQ (§4.4): replay or conflict under an
/// idempotency key, validate the body and the author, append the event,
/// bump the index, cache the response, and hand back the notice for the
/// other party.  The index is read before the event is written, so a
/// corrupt index fails the command before any durable write.
#[verifier::rlimit(100)]
#[verifier::spinoff_prover]
pub fn post_message<S: BlobStore>(
    store: &mut S,
    rfq_id: &str,
    request: &PostMessageRequest,
    idempotency_key: Option<&str>,
    now_ms: u64,
) -> (r: Result<(PostMessageResponse, Vec<Notice>), DomainError>)
    requires
        old(store).inv(),
        now_ms <= TS_MAX_MILLIS,
    ensures
        final(store).inv(),
        post_message_post(
            old(store).store_view(),
            final(store).store_view(),
            rfq_id@,
            *request,
            opt_key(idempotency_key),
            now_ms,
            r,
        ),
        forall|rfq: Seq<char>|
            key_safe_rfq(rfq) && events_area_wf(old(store).store_view(), rfq)
                ==> events_area_wf(final(store).store_view(), rfq),
{
    let _id = match RfqId::new(rfq_id) {
        Ok(x) => x,
        Err(e) => {
            return Err(e);
        },
    };
    // Identifiers are generated and the key layout reserves the slash:
    // an identifier holding one names no RFQ of this service.
    let idc = crate::polyfill::string_to_chars(rfq_id);
    match crate::text::find_first_char(&idc, '/') {
        Some(_) => {
            return Err(
                DomainError::ValidationFailed("RFQ ID cannot contain a slash".to_owned()),
            );
        },
        None => {},
    }
    proof {
        assert(key_safe_rfq(rfq_id@));
    }
    // Replay or conflict under the idempotency key.
    let req_json = render_post_request(request);
    let hash = sha256_hex(req_json.as_str());
    if let Some(k) = idempotency_key {
        match check_idempotency(store, k, hash.as_str()) {
            Ok(Some(cached)) => {
                match parse_post_response(cached.as_str()) {
                    Some(resp) => {
                        return Ok((resp, Vec::new()));
                    },
                    None => {
                        return Err(
                            DomainError::Internal(
                                "Failed to deserialize cached response".to_owned(),
                            ),
                        );
                    },
                }
            },
            Ok(None) => {},
            Err(e) => {
                return Err(e);
            },
        }
    }
    // Validate the body; then the RFQ must exist.
    let _body = match MessageBody::new(request.body.as_str()) {
        Ok(x) => x,
        Err(e) => {
            return Err(e);
        },
    };
    let meta = match crate::repo::get_rfq_meta(store, rfq_id) {
        Ok(Some(m)) => m,
        Ok(None) => {
            return Err(DomainError::NotFound("RFQ not found".to_owned()));
        },
        Err(e) => {
            return Err(e);
        },
    };
    // Resolve the author.
    let author = if str_eq(request.by.as_str(), "buyer") {
        EventAuthor::Buyer
    } else if str_eq(request.by.as_str(), "manufacturer") {
        EventAuthor::Manufacturer
    } else {
        return Err(DomainError::ValidationFailed("Invalid author role".to_owned()));
    };
    // Read the index up front: a corrupt index fails before any write.
    let count: u32 = match crate::repo::get_rfq_index(store, rfq_id) {
        Ok(Some(x)) => if x.count < u32::MAX {
            x.count + 1
        } else {
            x.count
        },
        Ok(None) => 1,
        Err(e) => {
            return Err(e);
        },
    };
    // Append the event.
    let message_event = RfqEvent::new_message(
        rfq_id.to_owned(),
        author,
        request.body.clone(),
        now_ms,
    );
    proof {
        lemma_hyphenated_key_safe(spec_base(message_event).id@);
    }
    crate::repo::save_rfq_event(store, &message_event);
    // Write the index back.
    let index = RfqIndex { last_event_ts: now_ms, count };
    crate::repo::save_rfq_index(store, rfq_id, &index);
    // The response, and the cached copy a retry replays.
    let resp = PostMessageResponse { ts: format_rfc3339(now_ms) };
    if let Some(k) = idempotency_key {
        let resp_json = render_post_response(&resp);
        store_idempotency(store, k, hash.as_str(), resp_json.as_str());
    }
    let mut notices: Vec<Notice> = Vec::new();
    notices.push(Notice::NewMessage { meta, body: request.body.clone(), by: author });
    Ok((resp, notices))
}

/// Idempotence: after a fresh creation under a key, a second call with
/// the same request and key answers with the same identifier and stamp
/// and writes nothing.  Stated over the command's contract at an
/// arbitrary content hash, so it holds for every draw of the hash.
pub proof fn lemma_create_rfq_idempotent(
    m0: Map<Seq<char>, Seq<char>>,
    mans: Map<Seq<char>, ManufacturerProfile>,
    m1: Map<Seq<char>, Seq<char>>,
    m2: Map<Seq<char>, Seq<char>>,
    req: CreateRfqRequest,
    key: Seq<char>,
    hash: Seq<char>,
    now1: u64,
    now2: u64,
    resp1: CreateRfqResponse,
    notices1: Vec<Notice>,
    r2: Result<(CreateRfqResponse, Vec<Notice>), DomainError>,
)
    requires
        create_rfq_post_h(m0, mans, m1, req, Some(key), hash, now1, Ok((resp1, notices1))),
        idem_cell(m0, key) is None,
        create_rfq_post_h(m1, mans, m2, req, Some(key), hash, now2, r2),
    ensures
        r2 matches Ok((resp2, notices2)) && resp2.id@ == resp1.id@ && resp2.last_event_ts@
            == resp1.last_event_ts@ && m2 == m1 && notices2@.len() == 0,
{
    assert(replay_cached(m0, key, hash) is None);
    assert(created_state_ok_h(
        m1,
        req,
        mans[req.manufacturer_id@],
        Some(key),
        hash,
        now1,
        resp1,
        notices1@,
    ));
    let v = idem_cell(m1, key).unwrap();
    let (h, c) = spec_parse_idem(v).unwrap();
    assert(h == hash);
    assert(spec_parse_create_response(c) == Some((resp1.id@, resp1.last_event_ts@)));
    assert(replay_cached(m1, key, hash) == Some(c));
    match r2 {
        Ok((resp2, notices2)) => {
            assert(!(idem_cell(m1, key) is None));
        },
        Err(e) => {
            match e {
                DomainError::ValidationFailed(_) => {
                    assert(false);
                },
                DomainError::NotFound(_) => {
                    assert(false);
                },
                DomainError::Conflict(_) => {
                    assert(false);
                },
                DomainError::Internal(_) => {
                    assert(false);
                },
                _ => {
                    assert(false);
                },
            }
        },
    }
}

/// Conflict: after a fresh creation under a key, a second call under the
/// same key whose body hashes differently is answered with a conflict
/// and writes nothing.  Two requests with equal hashes — a collision of
/// the content hash — are the one input this does not speak of.
pub proof fn lemma_create_rfq_conflict(
    m0: Map<Seq<char>, Seq<char>>,
    mans: Map<Seq<char>, ManufacturerProfile>,
    m1: Map<Seq<char>, Seq<char>>,
    m2: Map<Seq<char>, Seq<char>>,
    req1: CreateRfqRequest,
    req2: CreateRfqRequest,
    key: Seq<char>,
    hash1: Seq<char>,
    hash2: Seq<char>,
    now1: u64,
    now2: u64,
    resp1: CreateRfqResponse,
    notices1: Vec<Notice>,
    r2: Result<(CreateRfqResponse, Vec<Notice>), DomainError>,
)
    requires
        create_rfq_post_h(m0, mans, m1, req1, Some(key), hash1, now1, Ok((resp1, notices1))),
        idem_cell(m0, key) is None,
        hash2 != hash1,
        create_rfq_post_h(m1, mans, m2, req2, Some(key), hash2, now2, r2),
    ensures
        r2 matches Err(e) && e matches DomainError::Conflict(_) && m2 == m1,
{
    assert(replay_cached(m0, key, hash1) is None);
    assert(created_state_ok_h(
        m1,
        req1,
        mans[req1.manufacturer_id@],
        Some(key),
        hash1,
        now1,
        resp1,
        notices1@,
    ));
    let v = idem_cell(m1, key).unwrap();
    let (h, c) = spec_parse_idem(v).unwrap();
    assert(h == hash1);
    assert(replay_cached(m1, key, hash2) is None);
    match r2 {
        Ok((resp2, notices2)) => {
            assert(!(idem_cell(m1, key) is None));
            assert(false);
        },
        Err(e) => {
            match e {
                DomainError::ValidationFailed(_) => {
                    assert(false);
                },
                DomainError::NotFound(_) => {
                    assert(false);
                },
                DomainError::Conflict(_) => {},
                DomainError::Internal(_) => {
                    assert(false);
                },
                _ => {
                    assert(false);
                },
            }
        },
    }
}

} // verus!
