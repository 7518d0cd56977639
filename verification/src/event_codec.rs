//! The wire shape of persisted RFQ events: one JSON object per event,
//! distinguished by a `type` discriminant, base fields flattened beside
//! it.  This shape is the compatibility-critical artifact outside
//! consumers depend on.

use vstd::prelude::*;
use crate::codec::{jstr, p_jstr, p_lit, p_strbody, p_u64, pe_jstr, pe_lit, pe_u64, push_jstr, push_lit, lemma_jstr_round_trip, lemma_lit_round_trip, lemma_u64_round_trip, lemma_jstr_consumes};
use crate::entities::AttachmentRef;
use crate::events::{AttachmentEvent, EventAuthor, MessageEvent, RfqEvent, RfqEventBase, StatusEvent, StatusType, spec_base};
use crate::polyfill::{chars_to_string, string_to_chars};
use crate::text::{dec_min, is_digit_char, lemma_dec_min_shape, push_dec_min};
use crate::time::{TS_MAX_MILLIS, format_rfc3339, parse_rfc3339, rfc3339_of, rfc3339_parse_of};

verus! {

/// The ghost view of an event base: its fields as mathematical values.
pub struct BaseV {
    pub id: Seq<char>,
    pub rfq_id: Seq<char>,
    pub ts: u64,
    pub by: EventAuthor,
}

/// The ghost view of an attachment reference.
pub struct AttV {
    pub id: Seq<char>,
    pub file_name: Seq<char>,
    pub content_type: Seq<char>,
    pub size_bytes: u64,
    pub key: Seq<char>,
}

/// The ghost view of an event.
pub enum EventV {
    Message { base: BaseV, body: Seq<char> },
    Status { base: BaseV, status: StatusType, note: Option<Seq<char>> },
    Attachment { base: BaseV, attachments: Seq<AttV> },
}

pub open spec fn base_v(b: RfqEventBase) -> BaseV {
    BaseV { id: b.id@, rfq_id: b.rfq_id@, ts: b.ts, by: b.by }
}

pub open spec fn att_v(a: AttachmentRef) -> AttV {
    AttV {
        id: a.id@,
        file_name: a.file_name@,
        content_type: a.content_type@,
        size_bytes: a.size_bytes,
        key: a.key@,
    }
}

pub open spec fn atts_v(l: Seq<AttachmentRef>) -> Seq<AttV> {
    l.map_values(|a: AttachmentRef| att_v(a))
}

pub open spec fn event_v(e: RfqEvent) -> EventV {
    match e {
        RfqEvent::Message(m) => EventV::Message { base: base_v(m.base), body: m.body@ },
        RfqEvent::Status(s) => EventV::Status {
            base: base_v(s.base),
            status: s.status,
            note: match s.note {
                Some(n) => Some(n@),
                None => None,
            },
        },
        RfqEvent::Attachment(a) => EventV::Attachment {
            base: base_v(a.base),
            attachments: atts_v(a.attachments@),
        },
    }
}

/// The identifier of a viewed event.
pub open spec fn ev_id(v: EventV) -> Seq<char> {
    match v {
        EventV::Message { base, .. } => base.id,
        EventV::Status { base, .. } => base.id,
        EventV::Attachment { base, .. } => base.id,
    }
}

/// The timestamp of a viewed event.
pub open spec fn ev_ts(v: EventV) -> u64 {
    match v {
        EventV::Message { base, .. } => base.ts,
        EventV::Status { base, .. } => base.ts,
        EventV::Attachment { base, .. } => base.ts,
    }
}

/// The aggregate of a viewed event.
pub open spec fn ev_rfq_id(v: EventV) -> Seq<char> {
    match v {
        EventV::Message { base, .. } => base.rfq_id,
        EventV::Status { base, .. } => base.rfq_id,
        EventV::Attachment { base, .. } => base.rfq_id,
    }
}

/// The wire tag of an author.
pub open spec fn author_tag(a: EventAuthor) -> Seq<char> {
    match a {
        EventAuthor::Buyer => "buyer"@,
        EventAuthor::Manufacturer => "manufacturer"@,
        EventAuthor::System => "system"@,
    }
}

/// The author of a wire tag.
pub open spec fn author_of_tag(s: Seq<char>) -> Option<EventAuthor> {
    if s == "buyer"@ {
        Some(EventAuthor::Buyer)
    } else if s == "manufacturer"@ {
        Some(EventAuthor::Manufacturer)
    } else if s == "system"@ {
        Some(EventAuthor::System)
    } else {
        None
    }
}

/// The wire tag of a status value.
pub open spec fn status_tag(s: StatusType) -> Seq<char> {
    match s {
        StatusType::RfqCreated => "rfq_created"@,
        StatusType::VendorViewed => "vendor_viewed"@,
        StatusType::VendorReplied => "vendor_replied"@,
        StatusType::BuyerViewed => "buyer_viewed"@,
        StatusType::Closed => "closed"@,
        StatusType::Archived => "archived"@,
    }
}

/// The status value of a wire tag.
pub open spec fn status_of_tag(s: Seq<char>) -> Option<StatusType> {
    if s == "rfq_created"@ {
        Some(StatusType::RfqCreated)
    } else if s == "vendor_viewed"@ {
        Some(StatusType::VendorViewed)
    } else if s == "vendor_replied"@ {
        Some(StatusType::VendorReplied)
    } else if s == "buyer_viewed"@ {
        Some(StatusType::BuyerViewed)
    } else if s == "closed"@ {
        Some(StatusType::Closed)
    } else if s == "archived"@ {
        Some(StatusType::Archived)
    } else {
        None
    }
}

/// The rendering of the base fields shared by all event kinds: identifier,
/// aggregate, RFC 3339 timestamp, author tag.
pub open spec fn spec_render_base(b: RfqEventBase) -> Seq<char> {
    jstr(b.id@) + ",\"rfq_id\":"@ + jstr(b.rfq_id@) + ",\"ts\":"@ + jstr(
        rfc3339_of(b.ts as nat),
    ) + ",\"by\":"@ + jstr(author_tag(b.by))
}

/// The rendering of one attachment reference.
pub open spec fn spec_render_att(a: AttachmentRef) -> Seq<char> {
    "{\"id\":"@ + jstr(a.id@) + ",\"file_name\":"@ + jstr(a.file_name@) + ",\"content_type\":"@
        + jstr(a.content_type@) + ",\"size_bytes\":"@ + dec_min(a.size_bytes as nat) + ",\"key\":"@
        + jstr(a.key@) + "}"@
}

/// The renderings of a list of attachments, comma-separated.
pub open spec fn spec_render_att_items(l: Seq<AttachmentRef>) -> Seq<char>
    decreases l.len(),
{
    if l.len() == 0 {
        Seq::empty()
    } else if l.len() == 1 {
        spec_render_att(l[0])
    } else {
        spec_render_att(l[0]) + ","@ + spec_render_att_items(l.skip(1))
    }
}

/// The rendering of an attachment array.
pub open spec fn spec_render_att_array(l: Seq<AttachmentRef>) -> Seq<char> {
    "["@ + spec_render_att_items(l) + "]"@
}

/// The rendering of an optional note: `null` or a JSON string.
pub open spec fn spec_render_note(n: Option<String>) -> Seq<char> {
    match n {
        None => "null"@,
        Some(s) => jstr(s@),
    }
}

/// The canonical rendering of an event.
pub open spec fn spec_render_event(e: RfqEvent) -> Seq<char> {
    match e {
        RfqEvent::Message(m) => "{\"type\":\"message\",\"id\":"@ + spec_render_base(m.base)
            + ",\"body\":"@ + jstr(m.body@) + "}"@,
        RfqEvent::Status(s) => "{\"type\":\"status\",\"id\":"@ + spec_render_base(s.base)
            + ",\"status\":"@ + jstr(status_tag(s.status)) + ",\"note\":"@ + spec_render_note(
            s.note,
        ) + "}"@,
        RfqEvent::Attachment(a) => "{\"type\":\"attachment\",\"id\":"@ + spec_render_base(a.base)
            + ",\"attachments\":"@ + spec_render_att_array(a.attachments@) + "}"@,
    }
}

/// Parsing the base fields from the front of `t`.
pub open spec fn p_base(t: Seq<char>) -> Option<(BaseV, Seq<char>)> {
    match p_jstr(t) {
        None => None,
        Some((id, t1)) => match p_lit(t1, ",\"rfq_id\":"@) {
            None => None,
            Some(t2) => match p_jstr(t2) {
                None => None,
                Some((rid, t3)) => match p_lit(t3, ",\"ts\":"@) {
                    None => None,
                    Some(t4) => match p_jstr(t4) {
                        None => None,
                        Some((ts_s, t5)) => match rfc3339_parse_of(ts_s) {
                            None => None,
                            Some(ms) => if ms <= TS_MAX_MILLIS {
                                match p_lit(t5, ",\"by\":"@) {
                                    None => None,
                                    Some(t6) => match p_jstr(t6) {
                                        None => None,
                                        Some((by_s, t7)) => match author_of_tag(by_s) {
                                            None => None,
                                            Some(by) => Some(
                                                (BaseV { id, rfq_id: rid, ts: ms, by }, t7),
                                            ),
                                        },
                                    },
                                }
                            } else {
                                None
                            },
                        },
                    },
                },
            },
        },
    }
}

/// Parsing one attachment object from the front of `t`.
pub open spec fn p_att(t: Seq<char>) -> Option<(AttV, Seq<char>)> {
    match p_lit(t, "{\"id\":"@) {
        None => None,
        Some(t1) => match p_jstr(t1) {
            None => None,
            Some((id, t2)) => match p_lit(t2, ",\"file_name\":"@) {
                None => None,
                Some(t3) => match p_jstr(t3) {
                    None => None,
                    Some((fnm, t4)) => match p_lit(t4, ",\"content_type\":"@) {
                        None => None,
                        Some(t5) => match p_jstr(t5) {
                            None => None,
                            Some((ct, t6)) => match p_lit(t6, ",\"size_bytes\":"@) {
                                None => None,
                                Some(t7) => match p_u64(t7) {
                                    None => None,
                                    Some((sz, t8)) => match p_lit(t8, ",\"key\":"@) {
                                        None => None,
                                        Some(t9) => match p_jstr(t9) {
                                            None => None,
                                            Some((key, t10)) => match p_lit(t10, "}"@) {
                                                None => None,
                                                Some(t11) => Some(
                                                    (
                                                        AttV {
                                                            id,
                                                            file_name: fnm,
                                                            content_type: ct,
                                                            size_bytes: sz,
                                                            key,
                                                        },
                                                        t11,
                                                    ),
                                                ),
                                            },
                                        },
                                    },
                                },
                            },
                        },
                    },
                },
            },
        },
    }
}

/// A successful attachment parse consumes at least one character.
pub proof fn lemma_p_att_consumes(t: Seq<char>)
    ensures
        p_att(t) matches Some((a, r)) ==> r.len() < t.len(),
{
    if p_att(t) is Some {
        let t1 = p_lit(t, "{\"id\":"@).unwrap();
        reveal_strlit("{\"id\":");
        assert(t1.len() < t.len());
        lemma_jstr_consumes(t1);
        let (id, t2) = p_jstr(t1).unwrap();
        assert(t2.len() < t1.len());
        let t3 = p_lit(t2, ",\"file_name\":"@).unwrap();
        assert(t3.len() <= t2.len());
        lemma_jstr_consumes(t3);
        let (fnm, t4) = p_jstr(t3).unwrap();
        let t5 = p_lit(t4, ",\"content_type\":"@).unwrap();
        lemma_jstr_consumes(t5);
        let (ct, t6) = p_jstr(t5).unwrap();
        let t7 = p_lit(t6, ",\"size_bytes\":"@).unwrap();
        let (sz, t8) = p_u64(t7).unwrap();
        crate::codec::lemma_digit_run_len(t7);
        assert(t8.len() <= t7.len());
        let t9 = p_lit(t8, ",\"key\":"@).unwrap();
        lemma_jstr_consumes(t9);
        let (key, t10) = p_jstr(t9).unwrap();
        let t11 = p_lit(t10, "}"@).unwrap();
        assert(t11.len() <= t10.len());
    }
}

/// Parsing the items of a non-empty attachment array, up to and including
/// the closing bracket.
pub open spec fn p_att_items(t: Seq<char>) -> Option<(Seq<AttV>, Seq<char>)>
    decreases t.len(),
    via p_att_items_decreases
{
    match p_att(t) {
        None => None,
        Some((a, r)) => if r.len() >= 1 && r[0] == ',' {
            match p_att_items(r.skip(1)) {
                None => None,
                Some((rest_items, r2)) => Some((seq![a] + rest_items, r2)),
            }
        } else if r.len() >= 1 && r[0] == ']' {
            Some((seq![a], r.skip(1)))
        } else {
            None
        },
    }
}

#[via_fn]
proof fn p_att_items_decreases(t: Seq<char>) {
    lemma_p_att_consumes(t);
}

/// Parsing an attachment array, brackets included.
pub open spec fn p_att_array(t: Seq<char>) -> Option<(Seq<AttV>, Seq<char>)> {
    match p_lit(t, "["@) {
        None => None,
        Some(t1) => if t1.len() >= 1 && t1[0] == ']' {
            Some((Seq::empty(), t1.skip(1)))
        } else {
            p_att_items(t1)
        },
    }
}

/// Parsing an optional note: `null` or a JSON string.
pub open spec fn p_note(t: Seq<char>) -> Option<(Option<Seq<char>>, Seq<char>)> {
    match p_lit(t, "null"@) {
        Some(r) => Some((None, r)),
        None => match p_jstr(t) {
            Some((s, r)) => Some((Some(s), r)),
            None => None,
        },
    }
}

/// Parsing an event from the front of `t`.
pub open spec fn spec_parse_event(t: Seq<char>) -> Option<(EventV, Seq<char>)> {
    if p_lit(t, "{\"type\":\"message\",\"id\":"@) is Some {
        let t1 = p_lit(t, "{\"type\":\"message\",\"id\":"@).unwrap();
        match p_base(t1) {
            None => None,
            Some((b, t2)) => match p_lit(t2, ",\"body\":"@) {
                None => None,
                Some(t3) => match p_jstr(t3) {
                    None => None,
                    Some((body, t4)) => match p_lit(t4, "}"@) {
                        None => None,
                        Some(t5) => Some((EventV::Message { base: b, body }, t5)),
                    },
                },
            },
        }
    } else if p_lit(t, "{\"type\":\"status\",\"id\":"@) is Some {
        let t1 = p_lit(t, "{\"type\":\"status\",\"id\":"@).unwrap();
        match p_base(t1) {
            None => None,
            Some((b, t2)) => match p_lit(t2, ",\"status\":"@) {
                None => None,
                Some(t3) => match p_jstr(t3) {
                    None => None,
                    Some((st_s, t4)) => match status_of_tag(st_s) {
                        None => None,
                        Some(st) => match p_lit(t4, ",\"note\":"@) {
                            None => None,
                            Some(t5) => match p_note(t5) {
                                None => None,
                                Some((note, t6)) => match p_lit(t6, "}"@) {
                                    None => None,
                                    Some(t7) => Some(
                                        (EventV::Status { base: b, status: st, note }, t7),
                                    ),
                                },
                            },
                        },
                    },
                },
            },
        }
    } else if p_lit(t, "{\"type\":\"attachment\",\"id\":"@) is Some {
        let t1 = p_lit(t, "{\"type\":\"attachment\",\"id\":"@).unwrap();
        match p_base(t1) {
            None => None,
            Some((b, t2)) => match p_lit(t2, ",\"attachments\":"@) {
                None => None,
                Some(t3) => match p_att_array(t3) {
                    None => None,
                    Some((atts, t4)) => match p_lit(t4, "}"@) {
                        None => None,
                        Some(t5) => Some((EventV::Attachment { base: b, attachments: atts }, t5)),
                    },
                },
            },
        }
    } else {
        None
    }
}

/// Parsing a whole record: an event and nothing after it.
pub open spec fn spec_parse_event_full(t: Seq<char>) -> Option<EventV> {
    match spec_parse_event(t) {
        Some((v, rest)) => if rest.len() == 0 {
            Some(v)
        } else {
            None
        },
        None => None,
    }
}

/// Whether chrono reads its own rendering of `ts` back to `ts`.  The
/// rendering side guarantees this of every stamp it produces.
pub open spec fn ts_parse_ok(ts: u64) -> bool {
    &&& ts <= TS_MAX_MILLIS
    &&& rfc3339_parse_of(rfc3339_of(ts as nat)) == Some(ts)
}

/// Reading back a rendered author tag gives the author.
proof fn lemma_author_tag_round(a: EventAuthor)
    ensures
        author_of_tag(author_tag(a)) == Some(a),
{
    reveal_strlit("buyer");
    reveal_strlit("manufacturer");
    reveal_strlit("system");
    assert("buyer"@.len() == 5);
    assert("manufacturer"@.len() == 12);
    assert("system"@.len() == 6);
}

/// Reading back a rendered status tag gives the status.
proof fn lemma_status_tag_round(s: StatusType)
    ensures
        status_of_tag(status_tag(s)) == Some(s),
{
    reveal_strlit("rfq_created");
    reveal_strlit("vendor_viewed");
    reveal_strlit("vendor_replied");
    reveal_strlit("buyer_viewed");
    reveal_strlit("closed");
    reveal_strlit("archived");
    assert("rfq_created"@.len() == 11);
    assert("vendor_viewed"@.len() == 13);
    assert("vendor_replied"@.len() == 14);
    assert("buyer_viewed"@.len() == 12);
    assert("closed"@.len() == 6);
    assert("archived"@.len() == 8);
}

/// Parsing a rendered base gives back its view.
pub proof fn lemma_base_round_trip(b: RfqEventBase, r: Seq<char>)
    requires
        ts_parse_ok(b.ts),
    ensures
        p_base(spec_render_base(b) + r) == Some((base_v(b), r)),
{
    let r6 = jstr(author_tag(b.by)) + r;
    let r5 = ",\"by\":"@ + r6;
    let r4 = jstr(rfc3339_of(b.ts as nat)) + r5;
    let r3 = ",\"ts\":"@ + r4;
    let r2 = jstr(b.rfq_id@) + r3;
    let r1 = ",\"rfq_id\":"@ + r2;
    let t = spec_render_base(b) + r;
    assert(t =~= jstr(b.id@) + r1);
    lemma_jstr_round_trip(b.id@, r1);
    assert(r1 =~= ",\"rfq_id\":"@ + r2);
    lemma_lit_round_trip(",\"rfq_id\":"@, r2);
    lemma_jstr_round_trip(b.rfq_id@, r3);
    assert(r3 =~= ",\"ts\":"@ + r4);
    lemma_lit_round_trip(",\"ts\":"@, r4);
    lemma_jstr_round_trip(rfc3339_of(b.ts as nat), r5);
    assert(r5 =~= ",\"by\":"@ + r6);
    lemma_lit_round_trip(",\"by\":"@, r6);
    lemma_jstr_round_trip(author_tag(b.by), r);
    lemma_author_tag_round(b.by);
}

/// Parsing a rendered attachment gives back its view.
#[verifier::rlimit(100)]
#[verifier::spinoff_prover]
pub proof fn lemma_att_round_trip(a: AttachmentRef, r: Seq<char>)
    ensures
        p_att(spec_render_att(a) + r) == Some((att_v(a), r)),
{
    let r9 = jstr(a.key@) + "}"@ + r;
    let r8 = ",\"key\":"@ + r9;
    let r7 = dec_min(a.size_bytes as nat) + r8;
    let r6 = ",\"size_bytes\":"@ + r7;
    let r5 = jstr(a.content_type@) + r6;
    let r4 = ",\"content_type\":"@ + r5;
    let r3 = jstr(a.file_name@) + r4;
    let r2 = ",\"file_name\":"@ + r3;
    let r1 = jstr(a.id@) + r2;
    let t = spec_render_att(a) + r;
    assert(t =~= "{\"id\":"@ + r1);
    lemma_lit_round_trip("{\"id\":"@, r1);
    assert(p_lit(t, "{\"id\":"@) == Some(r1));
    lemma_jstr_round_trip(a.id@, r2);
    assert(p_jstr(r1) == Some((a.id@, r2)));
    lemma_lit_round_trip(",\"file_name\":"@, r3);
    assert(p_lit(r2, ",\"file_name\":"@) == Some(r3));
    lemma_jstr_round_trip(a.file_name@, r4);
    assert(p_jstr(r3) == Some((a.file_name@, r4)));
    lemma_lit_round_trip(",\"content_type\":"@, r5);
    assert(p_lit(r4, ",\"content_type\":"@) == Some(r5));
    lemma_jstr_round_trip(a.content_type@, r6);
    assert(p_jstr(r5) == Some((a.content_type@, r6)));
    lemma_lit_round_trip(",\"size_bytes\":"@, r7);
    assert(p_lit(r6, ",\"size_bytes\":"@) == Some(r7));
    reveal_strlit(",\"key\":");
    assert(r8[0] == ',');
    assert(!is_digit_char(r8[0]));
    lemma_u64_round_trip(a.size_bytes, r8);
    assert(p_u64(r7) == Some((a.size_bytes, r8)));
    lemma_lit_round_trip(",\"key\":"@, r9);
    assert(p_lit(r8, ",\"key\":"@) == Some(r9));
    lemma_jstr_round_trip(a.key@, "}"@ + r);
    assert(r9 =~= jstr(a.key@) + ("}"@ + r));
    assert(p_jstr(r9) == Some((a.key@, "}"@ + r)));
    lemma_lit_round_trip("}"@, r);
    assert(p_lit("}"@ + r, "}"@) == Some(r));
}

/// Parsing rendered attachment items, closing bracket included, gives
/// back their views.
#[verifier::rlimit(100)]
pub proof fn lemma_att_items_round_trip(l: Seq<AttachmentRef>, r: Seq<char>)
    requires
        l.len() >= 1,
    ensures
        p_att_items(spec_render_att_items(l) + seq![']'] + r) == Some((atts_v(l), r)),
    decreases l.len(),
{
    let t = spec_render_att_items(l) + seq![']'] + r;
    if l.len() == 1 {
        let rr = seq![']'] + r;
        assert(t =~= spec_render_att(l[0]) + rr);
        lemma_att_round_trip(l[0], rr);
        assert(p_att(t) == Some((att_v(l[0]), rr)));
        assert(rr[0] == ']');
        assert(rr.skip(1) =~= r);
        assert(atts_v(l) =~= seq![att_v(l[0])]);
    } else {
        let tail = spec_render_att_items(l.skip(1)) + seq![']'] + r;
        let rr = ","@ + tail;
        assert(t =~= spec_render_att(l[0]) + rr);
        lemma_att_round_trip(l[0], rr);
        assert(p_att(t) == Some((att_v(l[0]), rr)));
        reveal_strlit(",");
        assert(rr[0] == ',');
        assert(rr.skip(1) =~= tail);
        lemma_att_items_round_trip(l.skip(1), r);
        assert(p_att_items(tail) == Some((atts_v(l.skip(1)), r)));
        assert(atts_v(l) =~= seq![att_v(l[0])] + atts_v(l.skip(1)));
    }
}

/// Parsing a rendered attachment array gives back the views.
pub proof fn lemma_att_array_round_trip(l: Seq<AttachmentRef>, r: Seq<char>)
    ensures
        p_att_array(spec_render_att_array(l) + r) == Some((atts_v(l), r)),
{
    let t = spec_render_att_array(l) + r;
    let t1 = spec_render_att_items(l) + seq![']'] + r;
    assert(t =~= "["@ + t1) by {
        reveal_strlit("[");
        reveal_strlit("]");
        assert("]"@ =~= seq![']']);
    }
    lemma_lit_round_trip("["@, t1);
    if l.len() == 0 {
        assert(spec_render_att_items(l) =~= Seq::<char>::empty());
        assert(t1 =~= seq![']'] + r);
        assert(t1[0] == ']');
        assert(t1.skip(1) =~= r);
        assert(atts_v(l) =~= Seq::<AttV>::empty());
    } else {
        reveal_strlit("{\"id\":");
        assert(t1[0] == '{') by {
            assert(spec_render_att(l[0])[0] == '{');
            assert(spec_render_att_items(l)[0] == spec_render_att(l[0])[0]);
        }
        lemma_att_items_round_trip(l, r);
    }
}

/// Parsing a rendered note gives it back.
pub proof fn lemma_note_round_trip(n: Option<String>, r: Seq<char>)
    ensures
        p_note(spec_render_note(n) + r) == (match n {
            None => Some((None::<Seq<char>>, r)),
            Some(s) => Some((Some(s@), r)),
        }),
{
    match n {
        None => {
            lemma_lit_round_trip("null"@, r);
        },
        Some(s) => {
            let t = jstr(s@) + r;
            reveal_strlit("null");
            assert(t[0] == '"');
            if p_lit(t, "null"@) is Some {
                assert(t.take(4)[0] == t[0]);
                assert(false);
            }
            lemma_jstr_round_trip(s@, r);
        },
    }
}

/// The three event heads differ at the character after `{"type":"`.
proof fn lemma_heads_distinct()
    ensures
        "{\"type\":\"message\",\"id\":"@[9] == 'm',
        "{\"type\":\"status\",\"id\":"@[9] == 's',
        "{\"type\":\"attachment\",\"id\":"@[9] == 'a',
        "{\"type\":\"message\",\"id\":"@.len() == 23,
        "{\"type\":\"status\",\"id\":"@.len() == 22,
        "{\"type\":\"attachment\",\"id\":"@.len() == 26,
{
    reveal_strlit("{\"type\":\"message\",\"id\":");
    reveal_strlit("{\"type\":\"status\",\"id\":");
    reveal_strlit("{\"type\":\"attachment\",\"id\":");
}

#[verifier::rlimit(60)]
proof fn lemma_message_round_trip(m: MessageEvent, r: Seq<char>)
    requires
        ts_parse_ok(m.base.ts),
    ensures
        spec_parse_event(spec_render_event(RfqEvent::Message(m)) + r) == Some(
            (event_v(RfqEvent::Message(m)), r),
        ),
{
    let e = RfqEvent::Message(m);
    let t = spec_render_event(e) + r;
    lemma_heads_distinct();
    let r3 = jstr(m.body@) + "}"@ + r;
    let r2 = ",\"body\":"@ + r3;
    let r1 = spec_render_base(m.base) + r2;
    assert(t =~= "{\"type\":\"message\",\"id\":"@ + r1);
    lemma_lit_round_trip("{\"type\":\"message\",\"id\":"@, r1);
    assert(p_lit(t, "{\"type\":\"message\",\"id\":"@) == Some(r1));
    lemma_base_round_trip(m.base, r2);
    assert(p_base(r1) == Some((base_v(m.base), r2)));
    lemma_lit_round_trip(",\"body\":"@, r3);
    assert(p_lit(r2, ",\"body\":"@) == Some(r3));
    lemma_jstr_round_trip(m.body@, "}"@ + r);
    assert(r3 =~= jstr(m.body@) + ("}"@ + r));
    assert(p_jstr(r3) == Some((m.body@, "}"@ + r)));
    lemma_lit_round_trip("}"@, r);
    assert(p_lit("}"@ + r, "}"@) == Some(r));
}

#[verifier::rlimit(60)]
proof fn lemma_status_round_trip(st: StatusEvent, r: Seq<char>)
    requires
        ts_parse_ok(st.base.ts),
    ensures
        spec_parse_event(spec_render_event(RfqEvent::Status(st)) + r) == Some(
            (event_v(RfqEvent::Status(st)), r),
        ),
{
    let e = RfqEvent::Status(st);
    let t = spec_render_event(e) + r;
    lemma_heads_distinct();
    let r4 = spec_render_note(st.note) + "}"@ + r;
    let r3 = ",\"note\":"@ + r4;
    let r2 = jstr(status_tag(st.status)) + r3;
    let r1a = ",\"status\":"@ + r2;
    let r1 = spec_render_base(st.base) + r1a;
    assert(t =~= "{\"type\":\"status\",\"id\":"@ + r1);
    let mh = "{\"type\":\"message\",\"id\":"@;
    if p_lit(t, mh) is Some {
        assert(t.take(mh.len() as int)[9] == t[9]);
        assert(t[9] == 's');
        assert(false);
    }
    lemma_lit_round_trip("{\"type\":\"status\",\"id\":"@, r1);
    assert(p_lit(t, "{\"type\":\"status\",\"id\":"@) == Some(r1));
    lemma_base_round_trip(st.base, r1a);
    assert(p_base(r1) == Some((base_v(st.base), r1a)));
    lemma_lit_round_trip(",\"status\":"@, r2);
    assert(p_lit(r1a, ",\"status\":"@) == Some(r2));
    lemma_jstr_round_trip(status_tag(st.status), r3);
    assert(p_jstr(r2) == Some((status_tag(st.status), r3)));
    lemma_status_tag_round(st.status);
    lemma_lit_round_trip(",\"note\":"@, r4);
    assert(p_lit(r3, ",\"note\":"@) == Some(r4));
    lemma_note_round_trip(st.note, "}"@ + r);
    assert(r4 =~= spec_render_note(st.note) + ("}"@ + r));
    lemma_lit_round_trip("}"@, r);
    assert(p_lit("}"@ + r, "}"@) == Some(r));
}

#[verifier::rlimit(60)]
proof fn lemma_attachment_round_trip(a: AttachmentEvent, r: Seq<char>)
    requires
        ts_parse_ok(a.base.ts),
    ensures
        spec_parse_event(spec_render_event(RfqEvent::Attachment(a)) + r) == Some(
            (event_v(RfqEvent::Attachment(a)), r),
        ),
{
    let e = RfqEvent::Attachment(a);
    let t = spec_render_event(e) + r;
    lemma_heads_distinct();
    let r3 = spec_render_att_array(a.attachments@) + "}"@ + r;
    let r2 = ",\"attachments\":"@ + r3;
    let r1 = spec_render_base(a.base) + r2;
    assert(t =~= "{\"type\":\"attachment\",\"id\":"@ + r1);
    let mh = "{\"type\":\"message\",\"id\":"@;
    let sh = "{\"type\":\"status\",\"id\":"@;
    if p_lit(t, mh) is Some {
        assert(t.take(mh.len() as int)[9] == t[9]);
        assert(t[9] == 'a');
        assert(false);
    }
    if p_lit(t, sh) is Some {
        assert(t.take(sh.len() as int)[9] == t[9]);
        assert(t[9] == 'a');
        assert(false);
    }
    lemma_lit_round_trip("{\"type\":\"attachment\",\"id\":"@, r1);
    assert(p_lit(t, "{\"type\":\"attachment\",\"id\":"@) == Some(r1));
    lemma_base_round_trip(a.base, r2);
    assert(p_base(r1) == Some((base_v(a.base), r2)));
    lemma_lit_round_trip(",\"attachments\":"@, r3);
    assert(p_lit(r2, ",\"attachments\":"@) == Some(r3));
    lemma_att_array_round_trip(a.attachments@, "}"@ + r);
    assert(r3 =~= spec_render_att_array(a.attachments@) + ("}"@ + r));
    assert(p_att_array(r3) == Some((atts_v(a.attachments@), "}"@ + r)));
    lemma_lit_round_trip("}"@, r);
    assert(p_lit("}"@ + r, "}"@) == Some(r));
}

/// Parsing a rendered event gives back its view.
pub proof fn lemma_event_round_trip(e: RfqEvent, r: Seq<char>)
    requires
        ts_parse_ok(spec_base(e).ts),
    ensures
        spec_parse_event(spec_render_event(e) + r) == Some((event_v(e), r)),
{
    match e {
        RfqEvent::Message(m) => lemma_message_round_trip(m, r),
        RfqEvent::Status(s) => lemma_status_round_trip(s, r),
        RfqEvent::Attachment(a) => lemma_attachment_round_trip(a, r),
    }
}

/// A whole rendered record parses back to the event's view, with nothing
/// left over.
pub proof fn lemma_event_round_trip_full(e: RfqEvent)
    requires
        ts_parse_ok(spec_base(e).ts),
    ensures
        spec_parse_event_full(spec_render_event(e)) == Some(event_v(e)),
{
    lemma_event_round_trip(e, Seq::empty());
    assert(spec_render_event(e) + Seq::<char>::empty() =~= spec_render_event(e));
}

/// The wire tag of an author, as text.
fn author_tag_exec(a: &EventAuthor) -> (r: &'static str)
    ensures
        r@ == author_tag(*a),
{
    match a {
        EventAuthor::Buyer => "buyer",
        EventAuthor::Manufacturer => "manufacturer",
        EventAuthor::System => "system",
    }
}

/// The wire tag of a status value, as text.
fn status_tag_exec(s: &StatusType) -> (r: &'static str)
    ensures
        r@ == status_tag(*s),
{
    match s {
        StatusType::RfqCreated => "rfq_created",
        StatusType::VendorViewed => "vendor_viewed",
        StatusType::VendorReplied => "vendor_replied",
        StatusType::BuyerViewed => "buyer_viewed",
        StatusType::Closed => "closed",
        StatusType::Archived => "archived",
    }
}

/// Append the rendering of the base fields; establishes along the way
/// that the stamped instant parses back to itself.
fn push_base(out: &mut Vec<char>, b: &RfqEventBase)
    requires
        b.ts <= TS_MAX_MILLIS,
    ensures
        final(out)@ == old(out)@ + spec_render_base(*b),
        ts_parse_ok(b.ts),
{
    push_jstr(out, b.id.as_str());
    push_lit(out, ",\"rfq_id\":");
    push_jstr(out, b.rfq_id.as_str());
    push_lit(out, ",\"ts\":");
    let ts_s = format_rfc3339(b.ts);
    push_jstr(out, ts_s.as_str());
    push_lit(out, ",\"by\":");
    push_jstr(out, author_tag_exec(&b.by));
    proof {
        assert(out@ =~= old(out)@ + spec_render_base(*b));
    }
}

/// Append the rendering of one attachment reference.
fn push_att(out: &mut Vec<char>, a: &AttachmentRef)
    ensures
        final(out)@ == old(out)@ + spec_render_att(*a),
{
    push_lit(out, "{\"id\":");
    push_jstr(out, a.id.as_str());
    push_lit(out, ",\"file_name\":");
    push_jstr(out, a.file_name.as_str());
    push_lit(out, ",\"content_type\":");
    push_jstr(out, a.content_type.as_str());
    push_lit(out, ",\"size_bytes\":");
    push_dec_min(out, a.size_bytes);
    push_lit(out, ",\"key\":");
    push_jstr(out, a.key.as_str());
    push_lit(out, "}");
    proof {
        assert(out@ =~= old(out)@ + spec_render_att(*a));
    }
}

proof fn lemma_att_items_snoc(l: Seq<AttachmentRef>, x: AttachmentRef)
    requires
        l.len() >= 1,
    ensures
        spec_render_att_items(l.push(x)) == spec_render_att_items(l) + ","@ + spec_render_att(x),
    decreases l.len(),
{
    let lp = l.push(x);
    if l.len() == 1 {
        assert(lp.skip(1) =~= seq![x]);
        assert(spec_render_att_items(lp) == spec_render_att(lp[0]) + ","@ + spec_render_att_items(
            seq![x],
        ));
        assert(spec_render_att_items(seq![x]) == spec_render_att(x));
        assert(lp[0] == l[0]);
        assert(spec_render_att_items(l) == spec_render_att(l[0]));
        assert(spec_render_att_items(lp) =~= spec_render_att_items(l) + ","@ + spec_render_att(x));
    } else {
        assert(lp.skip(1) =~= l.skip(1).push(x));
        lemma_att_items_snoc(l.skip(1), x);
        assert(lp[0] == l[0]);
        assert(spec_render_att_items(lp) =~= spec_render_att_items(l) + ","@ + spec_render_att(x));
    }
}

/// Append the rendering of an attachment array.
#[verifier::loop_isolation(false)]
pub fn push_att_array(out: &mut Vec<char>, l: &Vec<AttachmentRef>)
    ensures
        final(out)@ == old(out)@ + spec_render_att_array(l@),
{
    push_lit(out, "[");
    let n = l.len();
    let mut i: usize = 0;
    while i < n
        invariant
            i <= n,
            out@ == old(out)@ + "["@ + spec_render_att_items(l@.take(i as int)),
        decreases n - i,
    {
        if i > 0 {
            push_lit(out, ",");
        }
        push_att(out, &l[i]);
        proof {
            if i == 0 {
                assert(l@.take(0) =~= Seq::<AttachmentRef>::empty());
                assert(l@.take(1) =~= seq![l@[0]]);
                assert(spec_render_att_items(l@.take(1)) == spec_render_att(l@[0]));
                assert(out@ =~= old(out)@ + "["@ + spec_render_att_items(l@.take(1)));
            } else {
                assert(l@.take(i + 1) =~= l@.take(i as int).push(l@[i as int]));
                lemma_att_items_snoc(l@.take(i as int), l@[i as int]);
                assert(out@ =~= old(out)@ + "["@ + spec_render_att_items(l@.take(i + 1)));
            }
        }
        i = i + 1;
    }
    push_lit(out, "]");
    proof {
        assert(l@.take(n as int) =~= l@);
        assert(out@ =~= old(out)@ + spec_render_att_array(l@));
    }
}

/// Render an event as its canonical JSON record.  The record parses back
/// to the event's view: the round trip is part of the contract.
pub fn render_event(e: &RfqEvent) -> (r: String)
    requires
        spec_base(*e).ts <= TS_MAX_MILLIS,
    ensures
        r@ == spec_render_event(*e),
        ts_parse_ok(spec_base(*e).ts),
        spec_parse_event_full(r@) == Some(event_v(*e)),
{
    let mut out: Vec<char> = Vec::new();
    match e {
        RfqEvent::Message(m) => {
            push_lit(&mut out, "{\"type\":\"message\",\"id\":");
            push_base(&mut out, &m.base);
            push_lit(&mut out, ",\"body\":");
            push_jstr(&mut out, m.body.as_str());
            push_lit(&mut out, "}");
            proof {
                assert(out@ =~= spec_render_event(*e));
            }
        },
        RfqEvent::Status(s) => {
            push_lit(&mut out, "{\"type\":\"status\",\"id\":");
            push_base(&mut out, &s.base);
            push_lit(&mut out, ",\"status\":");
            push_jstr(&mut out, status_tag_exec(&s.status));
            push_lit(&mut out, ",\"note\":");
            match &s.note {
                None => push_lit(&mut out, "null"),
                Some(nt) => push_jstr(&mut out, nt.as_str()),
            }
            push_lit(&mut out, "}");
            proof {
                assert(out@ =~= spec_render_event(*e));
            }
        },
        RfqEvent::Attachment(a) => {
            push_lit(&mut out, "{\"type\":\"attachment\",\"id\":");
            push_base(&mut out, &a.base);
            push_lit(&mut out, ",\"attachments\":");
            push_att_array(&mut out, &a.attachments);
            push_lit(&mut out, "}");
            proof {
                assert(out@ =~= spec_render_event(*e));
            }
        },
    }
    proof {
        lemma_event_round_trip_full(*e);
    }
    chars_to_string(&out)
}

/// Parse the base fields at position `i` of `v`.
fn pe_base(v: &Vec<char>, i: usize) -> (r: Option<(RfqEventBase, usize)>)
    requires
        i <= v@.len(),
    ensures
        match r {
            Some((b, j)) => i <= j <= v@.len() && p_base(v@.skip(i as int)) == Some(
                (base_v(b), v@.skip(j as int)),
            ) && b.ts <= TS_MAX_MILLIS,
            None => p_base(v@.skip(i as int)) is None,
        },
{
    let (id, i1) = match pe_jstr(v, i) {
        Some(x) => x,
        None => {
            return None;
        },
    };
    let i2 = match pe_lit(v, i1, ",\"rfq_id\":") {
        Some(x) => x,
        None => {
            return None;
        },
    };
    let (rid, i3) = match pe_jstr(v, i2) {
        Some(x) => x,
        None => {
            return None;
        },
    };
    let i4 = match pe_lit(v, i3, ",\"ts\":") {
        Some(x) => x,
        None => {
            return None;
        },
    };
    let (ts_s, i5) = match pe_jstr(v, i4) {
        Some(x) => x,
        None => {
            return None;
        },
    };
    let ms = match parse_rfc3339(ts_s.as_str()) {
        Some(x) => x,
        None => {
            return None;
        },
    };
    if ms > TS_MAX_MILLIS {
        return None;
    }
    let i6 = match pe_lit(v, i5, ",\"by\":") {
        Some(x) => x,
        None => {
            return None;
        },
    };
    let (by_s, i7) = match pe_jstr(v, i6) {
        Some(x) => x,
        None => {
            return None;
        },
    };
    let by = if crate::text::str_eq(by_s.as_str(), "buyer") {
        EventAuthor::Buyer
    } else if crate::text::str_eq(by_s.as_str(), "manufacturer") {
        EventAuthor::Manufacturer
    } else if crate::text::str_eq(by_s.as_str(), "system") {
        EventAuthor::System
    } else {
        return None;
    };
    Some((RfqEventBase { id, rfq_id: rid, ts: ms, by }, i7))
}

/// Parse one attachment object at position `i` of `v`.
fn pe_att(v: &Vec<char>, i: usize) -> (r: Option<(AttachmentRef, usize)>)
    requires
        i <= v@.len(),
    ensures
        match r {
            Some((a, j)) => i <= j <= v@.len() && p_att(v@.skip(i as int)) == Some(
                (att_v(a), v@.skip(j as int)),
            ),
            None => p_att(v@.skip(i as int)) is None,
        },
{
    let i1 = match pe_lit(v, i, "{\"id\":") {
        Some(x) => x,
        None => {
            return None;
        },
    };
    let (id, i2) = match pe_jstr(v, i1) {
        Some(x) => x,
        None => {
            return None;
        },
    };
    let i3 = match pe_lit(v, i2, ",\"file_name\":") {
        Some(x) => x,
        None => {
            return None;
        },
    };
    let (file_name, i4) = match pe_jstr(v, i3) {
        Some(x) => x,
        None => {
            return None;
        },
    };
    let i5 = match pe_lit(v, i4, ",\"content_type\":") {
        Some(x) => x,
        None => {
            return None;
        },
    };
    let (content_type, i6) = match pe_jstr(v, i5) {
        Some(x) => x,
        None => {
            return None;
        },
    };
    let i7 = match pe_lit(v, i6, ",\"size_bytes\":") {
        Some(x) => x,
        None => {
            return None;
        },
    };
    let (size_bytes, i8) = match pe_u64(v, i7) {
        Some(x) => x,
        None => {
            return None;
        },
    };
    let i9 = match pe_lit(v, i8, ",\"key\":") {
        Some(x) => x,
        None => {
            return None;
        },
    };
    let (key, i10) = match pe_jstr(v, i9) {
        Some(x) => x,
        None => {
            return None;
        },
    };
    let i11 = match pe_lit(v, i10, "}") {
        Some(x) => x,
        None => {
            return None;
        },
    };
    Some((AttachmentRef { id, file_name, content_type, size_bytes, key }, i11))
}

/// What the attachment-items parse yields once `acc` is already decoded.
pub open spec fn ai_compose(acc: Seq<AttV>, t: Seq<char>) -> Option<(Seq<AttV>, Seq<char>)> {
    match p_att_items(t) {
        Some((l, r)) => Some((acc + l, r)),
        None => None,
    }
}

proof fn lemma_ai_compose_empty(t: Seq<char>)
    ensures
        ai_compose(Seq::empty(), t) == p_att_items(t),
{
    match p_att_items(t) {
        Some((l, r)) => {
            assert(Seq::<AttV>::empty() + l =~= l);
        },
        None => {},
    }
}

proof fn lemma_ai_compose_step(acc: Seq<AttV>, a: AttV, t: Seq<char>, t2: Seq<char>)
    requires
        p_att_items(t) == (match p_att_items(t2) {
            Some((l, r)) => Some((seq![a] + l, r)),
            None => None::<(Seq<AttV>, Seq<char>)>,
        }),
    ensures
        ai_compose(acc, t) == ai_compose(acc.push(a), t2),
{
    match p_att_items(t2) {
        Some((l, r)) => {
            assert(acc + (seq![a] + l) =~= acc.push(a) + l);
        },
        None => {},
    }
}

/// Parse an attachment array at position `i` of `v`.
#[verifier::loop_isolation(false)]
pub fn pe_att_array(v: &Vec<char>, i: usize) -> (r: Option<(Vec<AttachmentRef>, usize)>)
    requires
        i <= v@.len(),
    ensures
        match r {
            Some((l, j)) => i <= j <= v@.len() && p_att_array(v@.skip(i as int)) == Some(
                (atts_v(l@), v@.skip(j as int)),
            ),
            None => p_att_array(v@.skip(i as int)) is None,
        },
{
    let n = v.len();
    let i1 = match pe_lit(v, i, "[") {
        Some(x) => x,
        None => {
            return None;
        },
    };
    let mut acc: Vec<AttachmentRef> = Vec::new();
    if i1 < n && v[i1] == ']' {
        proof {
            assert(v@.skip(i1 as int)[0] == ']');
            assert(v@.skip(i1 as int).skip(1) =~= v@.skip(i1 + 1));
            assert(atts_v(acc@) =~= Seq::<AttV>::empty());
        }
        return Some((acc, i1 + 1));
    }
    proof {
        if v@.skip(i1 as int).len() >= 1 {
            assert(v@.skip(i1 as int)[0] == v@[i1 as int]);
        }
        lemma_ai_compose_empty(v@.skip(i1 as int));
    }
    let mut cur: usize = i1;
    loop
        invariant
            i1 <= cur <= n,
            p_att_array(v@.skip(i as int)) == ai_compose(atts_v(acc@), v@.skip(cur as int)),
        decreases n - cur,
    {
        let ghost t = v@.skip(cur as int);
        let (a, j) = match pe_att(v, cur) {
            Some(x) => x,
            None => {
                return None;
            },
        };
        let ghost tj = v@.skip(j as int);
        if j < n && v[j] == ',' {
            proof {
                assert(tj[0] == ',');
                assert(tj.skip(1) =~= v@.skip(j + 1));
                assert(p_att_items(t) == (match p_att_items(v@.skip(j + 1)) {
                    Some((l, r)) => Some((seq![att_v(a)] + l, r)),
                    None => None::<(Seq<AttV>, Seq<char>)>,
                }));
                lemma_ai_compose_step(atts_v(acc@), att_v(a), t, v@.skip(j + 1));
                assert(atts_v(acc@.push(a)) =~= atts_v(acc@).push(att_v(a)));
            }
            acc.push(a);
            if j + 1 > n {
                return None;
            }
            if n - cur <= n - (j + 1) {
                // An attachment object always consumes text; this branch
                // is unreachable, and the check keeps the loop measure
                // evidently decreasing.
                proof {
                    lemma_p_att_consumes(t);
                    assert(false);
                }
                return None;
            }
            cur = j + 1;
        } else if j < n && v[j] == ']' {
            proof {
                assert(tj[0] == ']');
                assert(tj.skip(1) =~= v@.skip(j + 1));
                assert(p_att_items(t) == Some((seq![att_v(a)], v@.skip(j + 1))));
                assert(atts_v(acc@.push(a)) =~= atts_v(acc@) + seq![att_v(a)]);
            }
            acc.push(a);
            return Some((acc, j + 1));
        } else {
            proof {
                if tj.len() >= 1 {
                    assert(tj[0] == v@[j as int]);
                }
                assert(p_att_items(t) is None);
            }
            return None;
        }
    }
}

/// Parse an event record: the canonical JSON of one event, nothing more.
/// A record that is not canonical is corrupt and yields `None`.
pub fn parse_event(s: &str) -> (r: Option<RfqEvent>)
    ensures
        match r {
            Some(e) => spec_parse_event_full(s@) == Some(event_v(e)) && spec_base(e).ts
                <= TS_MAX_MILLIS,
            None => spec_parse_event_full(s@) is None,
        },
{
    let v = string_to_chars(s);
    let n = v.len();
    proof {
        assert(v@.skip(0) =~= v@);
    }
    if let Some(i1) = pe_lit(&v, 0, "{\"type\":\"message\",\"id\":") {
        let (b, i2) = match pe_base(&v, i1) {
            Some(x) => x,
            None => {
                return None;
            },
        };
        let i3 = match pe_lit(&v, i2, ",\"body\":") {
            Some(x) => x,
            None => {
                return None;
            },
        };
        let (body, i4) = match pe_jstr(&v, i3) {
            Some(x) => x,
            None => {
                return None;
            },
        };
        let i5 = match pe_lit(&v, i4, "}") {
            Some(x) => x,
            None => {
                return None;
            },
        };
        if i5 != n {
            proof {
                assert(v@.skip(i5 as int).len() > 0);
            }
            return None;
        }
        proof {
            assert(v@.skip(i5 as int).len() == 0);
        }
        return Some(RfqEvent::Message(MessageEvent { base: b, body }));
    }
    if let Some(i1) = pe_lit(&v, 0, "{\"type\":\"status\",\"id\":") {
        let (b, i2) = match pe_base(&v, i1) {
            Some(x) => x,
            None => {
                return None;
            },
        };
        let i3 = match pe_lit(&v, i2, ",\"status\":") {
            Some(x) => x,
            None => {
                return None;
            },
        };
        let (st_s, i4) = match pe_jstr(&v, i3) {
            Some(x) => x,
            None => {
                return None;
            },
        };
        let st = if crate::text::str_eq(st_s.as_str(), "rfq_created") {
            StatusType::RfqCreated
        } else if crate::text::str_eq(st_s.as_str(), "vendor_viewed") {
            StatusType::VendorViewed
        } else if crate::text::str_eq(st_s.as_str(), "vendor_replied") {
            StatusType::VendorReplied
        } else if crate::text::str_eq(st_s.as_str(), "buyer_viewed") {
            StatusType::BuyerViewed
        } else if crate::text::str_eq(st_s.as_str(), "closed") {
            StatusType::Closed
        } else if crate::text::str_eq(st_s.as_str(), "archived") {
            StatusType::Archived
        } else {
            return None;
        };
        let i5 = match pe_lit(&v, i4, ",\"note\":") {
            Some(x) => x,
            None => {
                return None;
            },
        };
        let (note, i6) = if let Some(i6) = pe_lit(&v, i5, "null") {
            (None, i6)
        } else {
            match pe_jstr(&v, i5) {
                Some((nt, i6)) => (Some(nt), i6),
                None => {
                    return None;
                },
            }
        };
        let i7 = match pe_lit(&v, i6, "}") {
            Some(x) => x,
            None => {
                return None;
            },
        };
        if i7 != n {
            proof {
                assert(v@.skip(i7 as int).len() > 0);
            }
            return None;
        }
        proof {
            assert(v@.skip(i7 as int).len() == 0);
        }
        return Some(RfqEvent::Status(StatusEvent { base: b, status: st, note }));
    }
    if let Some(i1) = pe_lit(&v, 0, "{\"type\":\"attachment\",\"id\":") {
        let (b, i2) = match pe_base(&v, i1) {
            Some(x) => x,
            None => {
                return None;
            },
        };
        let i3 = match pe_lit(&v, i2, ",\"attachments\":") {
            Some(x) => x,
            None => {
                return None;
            },
        };
        let (atts, i4) = match pe_att_array(&v, i3) {
            Some(x) => x,
            None => {
                return None;
            },
        };
        let i5 = match pe_lit(&v, i4, "}") {
            Some(x) => x,
            None => {
                return None;
            },
        };
        if i5 != n {
            proof {
                assert(v@.skip(i5 as int).len() > 0);
            }
            return None;
        }
        proof {
            assert(v@.skip(i5 as int).len() == 0);
        }
        return Some(RfqEvent::Attachment(AttachmentEvent { base: b, attachments: atts }));
    }
    None
}

} // verus!
