//! The stored shape of the aggregate snapshot, the derived index, and the
//! idempotency record: canonical JSON, with proved round trips.

use vstd::prelude::*;
use crate::codec::{jstr, p_jstr, p_lit, p_u64, pe_jstr, pe_lit, pe_u64, push_jstr, push_lit, lemma_assoc, lemma_jstr_round_trip, lemma_lit_round_trip, lemma_u64_round_trip, lemma_jstr_consumes};
use crate::entities::{AttachmentRef, Contact, Participant, ParticipantRole, RfqIndex, RfqMeta, RfqStatus, wf_index, wf_meta};
use crate::event_codec::{AttV, att_v, atts_v, p_att_array, spec_render_att_array, lemma_att_array_round_trip, ts_parse_ok};
use crate::polyfill::{chars_to_string, string_to_chars};
use crate::text::{dec_min, is_digit_char, push_dec_min};
use crate::time::{TS_MAX_MILLIS, format_rfc3339, parse_rfc3339, rfc3339_of, rfc3339_parse_of};

verus! {

/// The ghost view of a participant.
pub struct PartV {
    pub role: ParticipantRole,
    pub email: Seq<char>,
    pub name: Option<Seq<char>>,
}

/// The ghost view of an aggregate snapshot.
pub struct MetaV {
    pub id: Seq<char>,
    pub tenant_id: Seq<char>,
    pub manufacturer_id: Seq<char>,
    pub buyer_email: Seq<char>,
    pub buyer_name: Option<Seq<char>>,
    pub subject: Seq<char>,
    pub status: RfqStatus,
    pub created_at: u64,
    pub last_event_ts: u64,
    pub participants: Seq<PartV>,
    pub attachments: Option<Seq<AttV>>,
}

pub open spec fn opt_str_v(o: Option<String>) -> Option<Seq<char>> {
    match o {
        Some(s) => Some(s@),
        None => None,
    }
}

pub open spec fn part_v(p: Participant) -> PartV {
    PartV { role: p.role, email: p.email@, name: opt_str_v(p.name) }
}

pub open spec fn parts_v(l: Seq<Participant>) -> Seq<PartV> {
    l.map_values(|p: Participant| part_v(p))
}

pub open spec fn meta_v(m: RfqMeta) -> MetaV {
    MetaV {
        id: m.id@,
        tenant_id: m.tenant_id@,
        manufacturer_id: m.manufacturer_id@,
        buyer_email: m.buyer.email@,
        buyer_name: opt_str_v(m.buyer.name),
        subject: m.subject@,
        status: m.status,
        created_at: m.created_at,
        last_event_ts: m.last_event_ts,
        participants: parts_v(m.participants@),
        attachments: match m.attachments {
            Some(l) => Some(atts_v(l@)),
            None => None,
        },
    }
}

/// The wire tag of an RFQ status.
pub open spec fn rfq_status_tag(s: RfqStatus) -> Seq<char> {
    match s {
        RfqStatus::Open => "open"@,
        RfqStatus::Archived => "archived"@,
        RfqStatus::Closed => "closed"@,
    }
}

pub open spec fn rfq_status_of_tag(s: Seq<char>) -> Option<RfqStatus> {
    if s == "open"@ {
        Some(RfqStatus::Open)
    } else if s == "archived"@ {
        Some(RfqStatus::Archived)
    } else if s == "closed"@ {
        Some(RfqStatus::Closed)
    } else {
        None
    }
}

/// The wire tag of a participant role.
pub open spec fn role_tag(r: ParticipantRole) -> Seq<char> {
    match r {
        ParticipantRole::Buyer => "buyer"@,
        ParticipantRole::Manufacturer => "manufacturer"@,
    }
}

pub open spec fn role_of_tag(s: Seq<char>) -> Option<ParticipantRole> {
    if s == "buyer"@ {
        Some(ParticipantRole::Buyer)
    } else if s == "manufacturer"@ {
        Some(ParticipantRole::Manufacturer)
    } else {
        None
    }
}

/// The rendering of an optional string: `null` or a JSON string.
pub open spec fn spec_render_opt(o: Option<String>) -> Seq<char> {
    match o {
        None => "null"@,
        Some(s) => jstr(s@),
    }
}

/// Parsing an optional string.
pub open spec fn p_opt(t: Seq<char>) -> Option<(Option<Seq<char>>, Seq<char>)> {
    match p_lit(t, "null"@) {
        Some(r) => Some((None, r)),
        None => match p_jstr(t) {
            Some((s, r)) => Some((Some(s), r)),
            None => None,
        },
    }
}

pub proof fn lemma_opt_round_trip(o: Option<String>, r: Seq<char>)
    ensures
        p_opt(spec_render_opt(o) + r) == Some((opt_str_v(o), r)),
{
    match o {
        None => {
            lemma_lit_round_trip("null"@, r);
        },
        Some(s) => {
            let t = jstr(s@) + r;
            reveal_strlit("null");
            assert(t[0] == '"');
            if p_lit(t, "null"@) is Some {
                assert(t.take(4)[0] == t[0]);
                assert(false);
            }
            lemma_jstr_round_trip(s@, r);
        },
    }
}

/// The rendering of one participant.
pub open spec fn spec_render_part(p: Participant) -> Seq<char> {
    "{\"role\":"@ + jstr(role_tag(p.role)) + ",\"email\":"@ + jstr(p.email@) + ",\"name\":"@
        + spec_render_opt(p.name) + "}"@
}

/// Parsing one participant.
pub open spec fn p_part(t: Seq<char>) -> Option<(PartV, Seq<char>)> {
    match p_lit(t, "{\"role\":"@) {
        None => None,
        Some(t1) => match p_jstr(t1) {
            None => None,
            Some((role_s, t2)) => match role_of_tag(role_s) {
                None => None,
                Some(role) => match p_lit(t2, ",\"email\":"@) {
                    None => None,
                    Some(t3) => match p_jstr(t3) {
                        None => None,
                        Some((email, t4)) => match p_lit(t4, ",\"name\":"@) {
                            None => None,
                            Some(t5) => match p_opt(t5) {
                                None => None,
                                Some((name, t6)) => match p_lit(t6, "}"@) {
                                    None => None,
                                    Some(t7) => Some((PartV { role, email, name }, t7)),
                                },
                            },
                        },
                    },
                },
            },
        },
    }
}

pub proof fn lemma_p_part_consumes(t: Seq<char>)
    ensures
        p_part(t) matches Some((p, r)) ==> r.len() < t.len(),
{
    if p_part(t) is Some {
        reveal_strlit("{\"role\":");
        let t1 = p_lit(t, "{\"role\":"@).unwrap();
        assert(t1.len() < t.len());
        lemma_jstr_consumes(t1);
        let (role_s, t2) = p_jstr(t1).unwrap();
        lemma_jstr_consumes(p_lit(t2, ",\"email\":"@).unwrap());
        let t3 = p_lit(t2, ",\"email\":"@).unwrap();
        let (email, t4) = p_jstr(t3).unwrap();
        let t5 = p_lit(t4, ",\"name\":"@).unwrap();
        match p_lit(t5, "null"@) {
            Some(_) => {},
            None => {
                lemma_jstr_consumes(t5);
            },
        }
        let (name, t6) = p_opt(t5).unwrap();
        assert(t6.len() <= t5.len());
        let t7 = p_lit(t6, "}"@).unwrap();
        assert(t7.len() <= t6.len());
    }
}

/// The renderings of a participant list, comma-separated.
pub open spec fn spec_render_part_items(l: Seq<Participant>) -> Seq<char>
    decreases l.len(),
{
    if l.len() == 0 {
        Seq::empty()
    } else if l.len() == 1 {
        spec_render_part(l[0])
    } else {
        spec_render_part(l[0]) + ","@ + spec_render_part_items(l.skip(1))
    }
}

pub open spec fn spec_render_part_array(l: Seq<Participant>) -> Seq<char> {
    "["@ + spec_render_part_items(l) + "]"@
}

/// Parsing the items of a non-empty participant array, closing bracket
/// included.
pub open spec fn p_part_items(t: Seq<char>) -> Option<(Seq<PartV>, Seq<char>)>
    decreases t.len(),
    via p_part_items_decreases
{
    match p_part(t) {
        None => None,
        Some((p, r)) => if r.len() >= 1 && r[0] == ',' {
            match p_part_items(r.skip(1)) {
                None => None,
                Some((rest_items, r2)) => Some((seq![p] + rest_items, r2)),
            }
        } else if r.len() >= 1 && r[0] == ']' {
            Some((seq![p], r.skip(1)))
        } else {
            None
        },
    }
}

#[via_fn]
proof fn p_part_items_decreases(t: Seq<char>) {
    lemma_p_part_consumes(t);
}

pub open spec fn p_part_array(t: Seq<char>) -> Option<(Seq<PartV>, Seq<char>)> {
    match p_lit(t, "["@) {
        None => None,
        Some(t1) => if t1.len() >= 1 && t1[0] == ']' {
            Some((Seq::empty(), t1.skip(1)))
        } else {
            p_part_items(t1)
        },
    }
}

proof fn lemma_role_tag_round(r: ParticipantRole)
    ensures
        role_of_tag(role_tag(r)) == Some(r),
{
    reveal_strlit("buyer");
    reveal_strlit("manufacturer");
    assert("buyer"@.len() == 5);
    assert("manufacturer"@.len() == 12);
}

proof fn lemma_rfq_status_tag_round(s: RfqStatus)
    ensures
        rfq_status_of_tag(rfq_status_tag(s)) == Some(s),
{
    reveal_strlit("open");
    reveal_strlit("archived");
    reveal_strlit("closed");
    assert("open"@.len() == 4);
    assert("archived"@.len() == 8);
    assert("closed"@.len() == 6);
}

#[verifier::rlimit(60)]
pub proof fn lemma_part_round_trip(p: Participant, r: Seq<char>)
    ensures
        p_part(spec_render_part(p) + r) == Some((part_v(p), r)),
{
    let r6 = "}"@ + r;
    let r5 = spec_render_opt(p.name) + r6;
    let r4 = ",\"name\":"@ + r5;
    let r3 = jstr(p.email@) + r4;
    let r2 = ",\"email\":"@ + r3;
    let r1 = jstr(role_tag(p.role)) + r2;
    let t = spec_render_part(p) + r;
    assert(t =~= "{\"role\":"@ + r1);
    lemma_lit_round_trip("{\"role\":"@, r1);
    assert(p_lit(t, "{\"role\":"@) == Some(r1));
    lemma_jstr_round_trip(role_tag(p.role), r2);
    assert(p_jstr(r1) == Some((role_tag(p.role), r2)));
    lemma_role_tag_round(p.role);
    lemma_lit_round_trip(",\"email\":"@, r3);
    assert(p_lit(r2, ",\"email\":"@) == Some(r3));
    lemma_jstr_round_trip(p.email@, r4);
    assert(p_jstr(r3) == Some((p.email@, r4)));
    lemma_lit_round_trip(",\"name\":"@, r5);
    assert(p_lit(r4, ",\"name\":"@) == Some(r5));
    lemma_opt_round_trip(p.name, r6);
    assert(r5 =~= spec_render_opt(p.name) + ("}"@ + r));
    assert(p_opt(r5) == Some((opt_str_v(p.name), "}"@ + r)));
    lemma_lit_round_trip("}"@, r);
    assert(p_lit("}"@ + r, "}"@) == Some(r));
}

#[verifier::rlimit(100)]
pub proof fn lemma_part_items_round_trip(l: Seq<Participant>, r: Seq<char>)
    requires
        l.len() >= 1,
    ensures
        p_part_items(spec_render_part_items(l) + seq![']'] + r) == Some((parts_v(l), r)),
    decreases l.len(),
{
    let t = spec_render_part_items(l) + seq![']'] + r;
    if l.len() == 1 {
        let rr = seq![']'] + r;
        assert(t =~= spec_render_part(l[0]) + rr);
        lemma_part_round_trip(l[0], rr);
        assert(p_part(t) == Some((part_v(l[0]), rr)));
        assert(rr[0] == ']');
        assert(rr.skip(1) =~= r);
        assert(parts_v(l) =~= seq![part_v(l[0])]);
    } else {
        let tail = spec_render_part_items(l.skip(1)) + seq![']'] + r;
        let rr = ","@ + tail;
        assert(t =~= spec_render_part(l[0]) + rr);
        lemma_part_round_trip(l[0], rr);
        assert(p_part(t) == Some((part_v(l[0]), rr)));
        reveal_strlit(",");
        assert(rr[0] == ',');
        assert(rr.skip(1) =~= tail);
        lemma_part_items_round_trip(l.skip(1), r);
        assert(p_part_items(tail) == Some((parts_v(l.skip(1)), r)));
        assert(parts_v(l) =~= seq![part_v(l[0])] + parts_v(l.skip(1)));
    }
}

pub proof fn lemma_part_array_round_trip(l: Seq<Participant>, r: Seq<char>)
    ensures
        p_part_array(spec_render_part_array(l) + r) == Some((parts_v(l), r)),
{
    let t = spec_render_part_array(l) + r;
    let t1 = spec_render_part_items(l) + seq![']'] + r;
    assert(t =~= "["@ + t1) by {
        reveal_strlit("[");
        reveal_strlit("]");
        assert("]"@ =~= seq![']']);
    }
    lemma_lit_round_trip("["@, t1);
    if l.len() == 0 {
        assert(spec_render_part_items(l) =~= Seq::<char>::empty());
        assert(t1 =~= seq![']'] + r);
        assert(t1[0] == ']');
        assert(t1.skip(1) =~= r);
        assert(parts_v(l) =~= Seq::<PartV>::empty());
    } else {
        reveal_strlit("{\"role\":");
        assert(t1[0] == '{') by {
            assert(spec_render_part(l[0])[0] == '{');
            assert(spec_render_part_items(l)[0] == spec_render_part(l[0])[0]);
        }
        lemma_part_items_round_trip(l, r);
    }
}

/// The rendering of an optional attachment array: `null` or the array.
pub open spec fn spec_render_opt_atts(o: Option<Vec<AttachmentRef>>) -> Seq<char> {
    match o {
        None => "null"@,
        Some(l) => spec_render_att_array(l@),
    }
}

pub open spec fn p_opt_atts(t: Seq<char>) -> Option<(Option<Seq<AttV>>, Seq<char>)> {
    match p_lit(t, "null"@) {
        Some(r) => Some((None, r)),
        None => match p_att_array(t) {
            Some((l, r)) => Some((Some(l), r)),
            None => None,
        },
    }
}

pub proof fn lemma_opt_atts_round_trip(o: Option<Vec<AttachmentRef>>, r: Seq<char>)
    ensures
        p_opt_atts(spec_render_opt_atts(o) + r) == Some(
            (
                match o {
                    None => None::<Seq<AttV>>,
                    Some(l) => Some(atts_v(l@)),
                },
                r,
            ),
        ),
{
    match o {
        None => {
            lemma_lit_round_trip("null"@, r);
        },
        Some(l) => {
            let t = spec_render_att_array(l@) + r;
            reveal_strlit("null");
            reveal_strlit("[");
            assert(t[0] == '[') by {
                assert(spec_render_att_array(l@)[0] == '[');
            }
            if p_lit(t, "null"@) is Some {
                assert(t.take(4)[0] == t[0]);
                assert(false);
            }
            lemma_att_array_round_trip(l@, r);
        },
    }
}

/// The canonical rendering of an aggregate snapshot.
pub open spec fn spec_render_meta(m: RfqMeta) -> Seq<char> {
    "{\"id\":"@ + jstr(m.id@) + ",\"tenant_id\":"@ + jstr(m.tenant_id@) + ",\"manufacturer_id\":"@
        + jstr(m.manufacturer_id@) + ",\"buyer\":{\"email\":"@ + jstr(m.buyer.email@)
        + ",\"name\":"@ + spec_render_opt(m.buyer.name) + "},\"subject\":"@ + jstr(m.subject@)
        + ",\"status\":"@ + jstr(rfq_status_tag(m.status)) + ",\"created_at\":"@ + jstr(
        rfc3339_of(m.created_at as nat),
    ) + ",\"last_event_ts\":"@ + jstr(rfc3339_of(m.last_event_ts as nat)) + ",\"participants\":"@
        + spec_render_part_array(m.participants@) + ",\"attachments\":"@ + spec_render_opt_atts(
        m.attachments,
    ) + "}"@
}

/// Parsing an aggregate snapshot.
pub open spec fn spec_parse_meta(t: Seq<char>) -> Option<(MetaV, Seq<char>)> {
    match p_lit(t, "{\"id\":"@) {
        None => None,
        Some(t1) => match p_jstr(t1) {
            None => None,
            Some((id, t2)) => match p_lit(t2, ",\"tenant_id\":"@) {
                None => None,
                Some(t3) => match p_jstr(t3) {
                    None => None,
                    Some((tid, t4)) => match p_lit(t4, ",\"manufacturer_id\":"@) {
                        None => None,
                        Some(t5) => match p_jstr(t5) {
                            None => None,
                            Some((mid, t6)) => match p_lit(t6, ",\"buyer\":{\"email\":"@) {
                                None => None,
                                Some(t7) => match p_jstr(t7) {
                                    None => None,
                                    Some((bem, t8)) => match p_lit(t8, ",\"name\":"@) {
                                        None => None,
                                        Some(t9) => match p_opt(t9) {
                                            None => None,
                                            Some((bnm, t10)) => spec_parse_meta_rest(
                                                t10,
                                                id,
                                                tid,
                                                mid,
                                                bem,
                                                bnm,
                                            ),
                                        },
                                    },
                                },
                            },
                        },
                    },
                },
            },
        },
    }
}

/// The second half of the snapshot parse, from `subject` on.
pub open spec fn spec_parse_meta_rest(
    t: Seq<char>,
    id: Seq<char>,
    tid: Seq<char>,
    mid: Seq<char>,
    bem: Seq<char>,
    bnm: Option<Seq<char>>,
) -> Option<(MetaV, Seq<char>)> {
    match p_lit(t, "},\"subject\":"@) {
        None => None,
        Some(t1) => match p_jstr(t1) {
            None => None,
            Some((subj, t2)) => match p_lit(t2, ",\"status\":"@) {
                None => None,
                Some(t3) => match p_jstr(t3) {
                    None => None,
                    Some((st_s, t4)) => match rfq_status_of_tag(st_s) {
                        None => None,
                        Some(st) => match p_lit(t4, ",\"created_at\":"@) {
                            None => None,
                            Some(t5) => match p_jstr(t5) {
                                None => None,
                                Some((ca_s, t6)) => match rfc3339_parse_of(ca_s) {
                                    None => None,
                                    Some(ca) => if ca <= TS_MAX_MILLIS {
                                        match p_lit(t6, ",\"last_event_ts\":"@) {
                                            None => None,
                                            Some(t7) => match p_jstr(t7) {
                                                None => None,
                                                Some((le_s, t8)) => match rfc3339_parse_of(le_s) {
                                                    None => None,
                                                    Some(le) => if le <= TS_MAX_MILLIS {
                                                        match p_lit(t8, ",\"participants\":"@) {
                                                            None => None,
                                                            Some(t9) => match p_part_array(t9) {
                                                                None => None,
                                                                Some((parts, t10)) => match p_lit(
                                                                    t10,
                                                                    ",\"attachments\":"@,
                                                                ) {
                                                                    None => None,
                                                                    Some(t11) => match p_opt_atts(
                                                                        t11,
                                                                    ) {
                                                                        None => None,
                                                                        Some((atts, t12)) => match p_lit(
                                                                            t12,
                                                                            "}"@,
                                                                        ) {
                                                                            None => None,
                                                                            Some(t13) => Some(
                                                                                (
                                                                                    MetaV {
                                                                                        id,
                                                                                        tenant_id: tid,
                                                                                        manufacturer_id: mid,
                                                                                        buyer_email: bem,
                                                                                        buyer_name: bnm,
                                                                                        subject: subj,
                                                                                        status: st,
                                                                                        created_at: ca,
                                                                                        last_event_ts: le,
                                                                                        participants: parts,
                                                                                        attachments: atts,
                                                                                    },
                                                                                    t13,
                                                                                ),
                                                                            ),
                                                                        },
                                                                    },
                                                                },
                                                            },
                                                        }
                                                    } else {
                                                        None
                                                    },
                                                },
                                            },
                                        }
                                    } else {
                                        None
                                    },
                                },
                            },
                        },
                    },
                },
            },
        },
    }
}

/// Parsing a whole stored snapshot record.
pub open spec fn spec_parse_meta_full(t: Seq<char>) -> Option<MetaV> {
    match spec_parse_meta(t) {
        Some((v, rest)) => if rest.len() == 0 {
            Some(v)
        } else {
            None
        },
        None => None,
    }
}

/// Parsing a rendered snapshot gives back its view: the step-by-step
/// re-association and field-by-field reading of the canonical record.
#[verifier::rlimit(100)]
#[verifier::spinoff_prover]
proof fn lemma_meta_round_trip_body(m: RfqMeta, r: Seq<char>)
    requires
        ts_parse_ok(m.created_at),
        ts_parse_ok(m.last_event_ts),
    ensures
        spec_parse_meta(spec_render_meta(m) + r) == Some((meta_v(m), r)),
{
    let p1 = "{\"id\":"@;
    let p2 = jstr(m.id@);
    let p3 = ",\"tenant_id\":"@;
    let p4 = jstr(m.tenant_id@);
    let p5 = ",\"manufacturer_id\":"@;
    let p6 = jstr(m.manufacturer_id@);
    let p7 = ",\"buyer\":{\"email\":"@;
    let p8 = jstr(m.buyer.email@);
    let p9 = ",\"name\":"@;
    let p10 = spec_render_opt(m.buyer.name);
    let p11 = "},\"subject\":"@;
    let p12 = jstr(m.subject@);
    let p13 = ",\"status\":"@;
    let p14 = jstr(rfq_status_tag(m.status));
    let p15 = ",\"created_at\":"@;
    let p16 = jstr(rfc3339_of(m.created_at as nat));
    let p17 = ",\"last_event_ts\":"@;
    let p18 = jstr(rfc3339_of(m.last_event_ts as nat));
    let p19 = ",\"participants\":"@;
    let p20 = spec_render_part_array(m.participants@);
    let p21 = ",\"attachments\":"@;
    let p22 = spec_render_opt_atts(m.attachments);
    let p23 = "}"@;
    let c1 = p1;
    let c2 = c1 + p2;
    let c3 = c2 + p3;
    let c4 = c3 + p4;
    let c5 = c4 + p5;
    let c6 = c5 + p6;
    let c7 = c6 + p7;
    let c8 = c7 + p8;
    let c9 = c8 + p9;
    let c10 = c9 + p10;
    let c11 = c10 + p11;
    let c12 = c11 + p12;
    let c13 = c12 + p13;
    let c14 = c13 + p14;
    let c15 = c14 + p15;
    let c16 = c15 + p16;
    let c17 = c16 + p17;
    let c18 = c17 + p18;
    let c19 = c18 + p19;
    let c20 = c19 + p20;
    let c21 = c20 + p21;
    let c22 = c21 + p22;
    let c23 = c22 + p23;
    assert(spec_render_meta(m) == c23);
    let s24 = r;
    let s23 = p23 + s24;
    let s22 = p22 + s23;
    let s21 = p21 + s22;
    let s20 = p20 + s21;
    let s19 = p19 + s20;
    let s18 = p18 + s19;
    let s17 = p17 + s18;
    let s16 = p16 + s17;
    let s15 = p15 + s16;
    let s14 = p14 + s15;
    let s13 = p13 + s14;
    let s12 = p12 + s13;
    let s11 = p11 + s12;
    let s10 = p10 + s11;
    let s9 = p9 + s10;
    let s8 = p8 + s9;
    let s7 = p7 + s8;
    let s6 = p6 + s7;
    let s5 = p5 + s6;
    let s4 = p4 + s5;
    let s3 = p3 + s4;
    let s2 = p2 + s3;
    let t = spec_render_meta(m) + r;
    lemma_assoc(c22, p23, s24);
    lemma_assoc(c21, p22, s23);
    lemma_assoc(c20, p21, s22);
    lemma_assoc(c19, p20, s21);
    lemma_assoc(c18, p19, s20);
    lemma_assoc(c17, p18, s19);
    lemma_assoc(c16, p17, s18);
    lemma_assoc(c15, p16, s17);
    lemma_assoc(c14, p15, s16);
    lemma_assoc(c13, p14, s15);
    lemma_assoc(c12, p13, s14);
    lemma_assoc(c11, p12, s13);
    lemma_assoc(c10, p11, s12);
    lemma_assoc(c9, p10, s11);
    lemma_assoc(c8, p9, s10);
    lemma_assoc(c7, p8, s9);
    lemma_assoc(c6, p7, s8);
    lemma_assoc(c5, p6, s7);
    lemma_assoc(c4, p5, s6);
    lemma_assoc(c3, p4, s5);
    lemma_assoc(c2, p3, s4);
    lemma_assoc(c1, p2, s3);
    assert(t == p1 + s2);
    lemma_lit_round_trip(p1, s2);
    assert(p_lit(t, "{\"id\":"@) == Some(s2));
    lemma_jstr_round_trip(m.id@, s3);
    lemma_lit_round_trip(p3, s4);
    lemma_jstr_round_trip(m.tenant_id@, s5);
    lemma_lit_round_trip(p5, s6);
    lemma_jstr_round_trip(m.manufacturer_id@, s7);
    lemma_lit_round_trip(p7, s8);
    lemma_jstr_round_trip(m.buyer.email@, s9);
    lemma_lit_round_trip(p9, s10);
    lemma_opt_round_trip(m.buyer.name, s11);
    lemma_lit_round_trip(p11, s12);
    lemma_jstr_round_trip(m.subject@, s13);
    lemma_lit_round_trip(p13, s14);
    lemma_jstr_round_trip(rfq_status_tag(m.status), s15);
    lemma_rfq_status_tag_round(m.status);
    lemma_lit_round_trip(p15, s16);
    lemma_jstr_round_trip(rfc3339_of(m.created_at as nat), s17);
    lemma_lit_round_trip(p17, s18);
    lemma_jstr_round_trip(rfc3339_of(m.last_event_ts as nat), s19);
    lemma_lit_round_trip(p19, s20);
    lemma_part_array_round_trip(m.participants@, s21);
    lemma_lit_round_trip(p21, s22);
    lemma_opt_atts_round_trip(m.attachments, s23);
    lemma_lit_round_trip(p23, s24);
}

/// Parsing a rendered snapshot gives back its view.
pub proof fn lemma_meta_round_trip(m: RfqMeta, r: Seq<char>)
    requires
        ts_parse_ok(m.created_at),
        ts_parse_ok(m.last_event_ts),
    ensures
        spec_parse_meta(spec_render_meta(m) + r) == Some((meta_v(m), r)),
{
    lemma_meta_round_trip_body(m, r);
}

pub proof fn lemma_meta_round_trip_full(m: RfqMeta)
    requires
        ts_parse_ok(m.created_at),
        ts_parse_ok(m.last_event_ts),
    ensures
        spec_parse_meta_full(spec_render_meta(m)) == Some(meta_v(m)),
{
    lemma_meta_round_trip(m, Seq::empty());
    assert(spec_render_meta(m) + Seq::<char>::empty() =~= spec_render_meta(m));
}

/// The canonical rendering of an index record.
pub open spec fn spec_render_index(x: RfqIndex) -> Seq<char> {
    "{\"last_event_ts\":"@ + jstr(rfc3339_of(x.last_event_ts as nat)) + ",\"count\":"@ + dec_min(
        x.count as nat,
    ) + "}"@
}

/// Parsing an index record.
pub open spec fn spec_parse_index(t: Seq<char>) -> Option<(RfqIndex, Seq<char>)> {
    match p_lit(t, "{\"last_event_ts\":"@) {
        None => None,
        Some(t1) => match p_jstr(t1) {
            None => None,
            Some((le_s, t2)) => match rfc3339_parse_of(le_s) {
                None => None,
                Some(le) => if le <= TS_MAX_MILLIS {
                    match p_lit(t2, ",\"count\":"@) {
                        None => None,
                        Some(t3) => match p_u64(t3) {
                            None => None,
                            Some((cnt, t4)) => if cnt <= u32::MAX {
                                match p_lit(t4, "}"@) {
                                    None => None,
                                    Some(t5) => Some(
                                        (RfqIndex { last_event_ts: le, count: cnt as u32 }, t5),
                                    ),
                                }
                            } else {
                                None
                            },
                        },
                    }
                } else {
                    None
                },
            },
        },
    }
}

pub open spec fn spec_parse_index_full(t: Seq<char>) -> Option<RfqIndex> {
    match spec_parse_index(t) {
        Some((v, rest)) => if rest.len() == 0 {
            Some(v)
        } else {
            None
        },
        None => None,
    }
}

#[verifier::rlimit(60)]
pub proof fn lemma_index_round_trip(x: RfqIndex, r: Seq<char>)
    requires
        ts_parse_ok(x.last_event_ts),
    ensures
        spec_parse_index(spec_render_index(x) + r) == Some((x, r)),
{
    let r3 = dec_min(x.count as nat) + "}"@ + r;
    let r2 = ",\"count\":"@ + r3;
    let r1 = jstr(rfc3339_of(x.last_event_ts as nat)) + r2;
    let t = spec_render_index(x) + r;
    assert(t =~= "{\"last_event_ts\":"@ + r1);
    lemma_lit_round_trip("{\"last_event_ts\":"@, r1);
    assert(p_lit(t, "{\"last_event_ts\":"@) == Some(r1));
    lemma_jstr_round_trip(rfc3339_of(x.last_event_ts as nat), r2);
    assert(p_jstr(r1) == Some((rfc3339_of(x.last_event_ts as nat), r2)));
    lemma_lit_round_trip(",\"count\":"@, r3);
    assert(p_lit(r2, ",\"count\":"@) == Some(r3));
    reveal_strlit("}");
    assert(("}"@ + r)[0] == '}');
    assert(!is_digit_char(("}"@ + r)[0]));
    lemma_u64_round_trip(x.count as u64, "}"@ + r);
    assert(r3 =~= dec_min(x.count as nat) + ("}"@ + r));
    assert(p_u64(r3) == Some((x.count as u64, "}"@ + r)));
    lemma_lit_round_trip("}"@, r);
    assert(p_lit("}"@ + r, "}"@) == Some(r));
}

pub proof fn lemma_index_round_trip_full(x: RfqIndex)
    requires
        ts_parse_ok(x.last_event_ts),
    ensures
        spec_parse_index_full(spec_render_index(x)) == Some(x),
{
    lemma_index_round_trip(x, Seq::empty());
    assert(spec_render_index(x) + Seq::<char>::empty() =~= spec_render_index(x));
}

/// The canonical rendering of an idempotency record: the hash of the
/// request body and the cached response.
pub open spec fn spec_render_idem(body_hash: Seq<char>, response: Seq<char>) -> Seq<char> {
    "{\"body_hash\":"@ + jstr(body_hash) + ",\"response\":"@ + jstr(response) + "}"@
}

/// Parsing an idempotency record.
pub open spec fn spec_parse_idem(t: Seq<char>) -> Option<(Seq<char>, Seq<char>)> {
    match p_lit(t, "{\"body_hash\":"@) {
        None => None,
        Some(t1) => match p_jstr(t1) {
            None => None,
            Some((h, t2)) => match p_lit(t2, ",\"response\":"@) {
                None => None,
                Some(t3) => match p_jstr(t3) {
                    None => None,
                    Some((resp, t4)) => match p_lit(t4, "}"@) {
                        None => None,
                        Some(t5) => if t5.len() == 0 {
                            Some((h, resp))
                        } else {
                            None
                        },
                    },
                },
            },
        },
    }
}

#[verifier::rlimit(60)]
pub proof fn lemma_idem_round_trip(body_hash: Seq<char>, response: Seq<char>)
    ensures
        spec_parse_idem(spec_render_idem(body_hash, response)) == Some((body_hash, response)),
{
    let r3 = jstr(response) + "}"@;
    let r2 = ",\"response\":"@ + r3;
    let r1 = jstr(body_hash) + r2;
    let t = spec_render_idem(body_hash, response);
    assert(t =~= "{\"body_hash\":"@ + r1);
    lemma_lit_round_trip("{\"body_hash\":"@, r1);
    assert(p_lit(t, "{\"body_hash\":"@) == Some(r1));
    lemma_jstr_round_trip(body_hash, r2);
    assert(p_jstr(r1) == Some((body_hash, r2)));
    lemma_lit_round_trip(",\"response\":"@, r3);
    assert(p_lit(r2, ",\"response\":"@) == Some(r3));
    lemma_jstr_round_trip(response, "}"@);
    assert(r3 =~= jstr(response) + "}"@);
    assert(p_jstr(r3) == Some((response, "}"@)));
    lemma_lit_round_trip("}"@, Seq::empty());
    assert("}"@ + Seq::<char>::empty() =~= "}"@);
    assert(p_lit("}"@, "}"@) == Some(Seq::<char>::empty()));
}

fn rfq_status_tag_exec(s: &RfqStatus) -> (r: &'static str)
    ensures
        r@ == rfq_status_tag(*s),
{
    match s {
        RfqStatus::Open => "open",
        RfqStatus::Archived => "archived",
        RfqStatus::Closed => "closed",
    }
}

fn role_tag_exec(r0: &ParticipantRole) -> (r: &'static str)
    ensures
        r@ == role_tag(*r0),
{
    match r0 {
        ParticipantRole::Buyer => "buyer",
        ParticipantRole::Manufacturer => "manufacturer",
    }
}

fn push_opt(out: &mut Vec<char>, o: &Option<String>)
    ensures
        final(out)@ == old(out)@ + spec_render_opt(*o),
{
    match o {
        None => push_lit(out, "null"),
        Some(s) => push_jstr(out, s.as_str()),
    }
}

fn push_part(out: &mut Vec<char>, p: &Participant)
    ensures
        final(out)@ == old(out)@ + spec_render_part(*p),
{
    push_lit(out, "{\"role\":");
    push_jstr(out, role_tag_exec(&p.role));
    push_lit(out, ",\"email\":");
    push_jstr(out, p.email.as_str());
    push_lit(out, ",\"name\":");
    push_opt(out, &p.name);
    push_lit(out, "}");
    proof {
        assert(out@ =~= old(out)@ + spec_render_part(*p));
    }
}

proof fn lemma_part_items_snoc(l: Seq<Participant>, x: Participant)
    requires
        l.len() >= 1,
    ensures
        spec_render_part_items(l.push(x)) == spec_render_part_items(l) + ","@ + spec_render_part(
            x,
        ),
    decreases l.len(),
{
    let lp = l.push(x);
    if l.len() == 1 {
        assert(lp.skip(1) =~= seq![x]);
        assert(spec_render_part_items(seq![x]) == spec_render_part(x));
        assert(lp[0] == l[0]);
        assert(spec_render_part_items(lp) =~= spec_render_part_items(l) + ","@ + spec_render_part(
            x,
        ));
    } else {
        assert(lp.skip(1) =~= l.skip(1).push(x));
        lemma_part_items_snoc(l.skip(1), x);
        assert(lp[0] == l[0]);
        assert(spec_render_part_items(lp) =~= spec_render_part_items(l) + ","@ + spec_render_part(
            x,
        ));
    }
}

#[verifier::loop_isolation(false)]
fn push_part_array(out: &mut Vec<char>, l: &Vec<Participant>)
    ensures
        final(out)@ == old(out)@ + spec_render_part_array(l@),
{
    push_lit(out, "[");
    let n = l.len();
    let mut i: usize = 0;
    while i < n
        invariant
            i <= n,
            out@ == old(out)@ + "["@ + spec_render_part_items(l@.take(i as int)),
        decreases n - i,
    {
        if i > 0 {
            push_lit(out, ",");
        }
        push_part(out, &l[i]);
        proof {
            if i == 0 {
                assert(l@.take(1) =~= seq![l@[0]]);
                assert(spec_render_part_items(l@.take(1)) == spec_render_part(l@[0]));
                assert(out@ =~= old(out)@ + "["@ + spec_render_part_items(l@.take(1)));
            } else {
                assert(l@.take(i + 1) =~= l@.take(i as int).push(l@[i as int]));
                lemma_part_items_snoc(l@.take(i as int), l@[i as int]);
                assert(out@ =~= old(out)@ + "["@ + spec_render_part_items(l@.take(i + 1)));
            }
        }
        i = i + 1;
    }
    push_lit(out, "]");
    proof {
        assert(l@.take(n as int) =~= l@);
        assert(out@ =~= old(out)@ + spec_render_part_array(l@));
    }
}

/// Render the aggregate snapshot as its canonical JSON record.  The
/// record parses back to the snapshot's view.
pub fn render_meta(m: &RfqMeta) -> (r: String)
    requires
        wf_meta(*m),
    ensures
        r@ == spec_render_meta(*m),
        ts_parse_ok(m.created_at),
        ts_parse_ok(m.last_event_ts),
        spec_parse_meta_full(r@) == Some(meta_v(*m)),
{
    let mut out: Vec<char> = Vec::new();
    push_lit(&mut out, "{\"id\":");
    push_jstr(&mut out, m.id.as_str());
    push_lit(&mut out, ",\"tenant_id\":");
    push_jstr(&mut out, m.tenant_id.as_str());
    push_lit(&mut out, ",\"manufacturer_id\":");
    push_jstr(&mut out, m.manufacturer_id.as_str());
    push_lit(&mut out, ",\"buyer\":{\"email\":");
    push_jstr(&mut out, m.buyer.email.as_str());
    push_lit(&mut out, ",\"name\":");
    push_opt(&mut out, &m.buyer.name);
    push_lit(&mut out, "},\"subject\":");
    push_jstr(&mut out, m.subject.as_str());
    push_lit(&mut out, ",\"status\":");
    push_jstr(&mut out, rfq_status_tag_exec(&m.status));
    push_lit(&mut out, ",\"created_at\":");
    let ca_s = format_rfc3339(m.created_at);
    push_jstr(&mut out, ca_s.as_str());
    push_lit(&mut out, ",\"last_event_ts\":");
    let le_s = format_rfc3339(m.last_event_ts);
    push_jstr(&mut out, le_s.as_str());
    push_lit(&mut out, ",\"participants\":");
    push_part_array(&mut out, &m.participants);
    push_lit(&mut out, ",\"attachments\":");
    match &m.attachments {
        None => push_lit(&mut out, "null"),
        Some(l) => crate::event_codec::push_att_array(&mut out, l),
    }
    push_lit(&mut out, "}");
    proof {
        assert(out@ =~= spec_render_meta(*m));
        lemma_meta_round_trip_full(*m);
    }
    chars_to_string(&out)
}

fn pe_opt(v: &Vec<char>, i: usize) -> (r: Option<(Option<String>, usize)>)
    requires
        i <= v@.len(),
    ensures
        match r {
            Some((o, j)) => i <= j <= v@.len() && p_opt(v@.skip(i as int)) == Some(
                (opt_str_v(o), v@.skip(j as int)),
            ),
            None => p_opt(v@.skip(i as int)) is None,
        },
{
    if let Some(j) = pe_lit(v, i, "null") {
        return Some((None, j));
    }
    match pe_jstr(v, i) {
        Some((s, j)) => Some((Some(s), j)),
        None => None,
    }
}

fn pe_part(v: &Vec<char>, i: usize) -> (r: Option<(Participant, usize)>)
    requires
        i <= v@.len(),
    ensures
        match r {
            Some((p, j)) => i <= j <= v@.len() && p_part(v@.skip(i as int)) == Some(
                (part_v(p), v@.skip(j as int)),
            ),
            None => p_part(v@.skip(i as int)) is None,
        },
{
    let i1 = match pe_lit(v, i, "{\"role\":") {
        Some(x) => x,
        None => {
            return None;
        },
    };
    let (role_s, i2) = match pe_jstr(v, i1) {
        Some(x) => x,
        None => {
            return None;
        },
    };
    let role = if crate::text::str_eq(role_s.as_str(), "buyer") {
        ParticipantRole::Buyer
    } else if crate::text::str_eq(role_s.as_str(), "manufacturer") {
        ParticipantRole::Manufacturer
    } else {
        return None;
    };
    let i3 = match pe_lit(v, i2, ",\"email\":") {
        Some(x) => x,
        None => {
            return None;
        },
    };
    let (email, i4) = match pe_jstr(v, i3) {
        Some(x) => x,
        None => {
            return None;
        },
    };
    let i5 = match pe_lit(v, i4, ",\"name\":") {
        Some(x) => x,
        None => {
            return None;
        },
    };
    let (name, i6) = match pe_opt(v, i5) {
        Some(x) => x,
        None => {
            return None;
        },
    };
    let i7 = match pe_lit(v, i6, "}") {
        Some(x) => x,
        None => {
            return None;
        },
    };
    Some((Participant { role, email, name }, i7))
}

/// What the participant-items parse yields once `acc` is already decoded.
pub open spec fn pi_compose(acc: Seq<PartV>, t: Seq<char>) -> Option<(Seq<PartV>, Seq<char>)> {
    match p_part_items(t) {
        Some((l, r)) => Some((acc + l, r)),
        None => None,
    }
}

proof fn lemma_pi_compose_empty(t: Seq<char>)
    ensures
        pi_compose(Seq::empty(), t) == p_part_items(t),
{
    match p_part_items(t) {
        Some((l, r)) => {
            assert(Seq::<PartV>::empty() + l =~= l);
        },
        None => {},
    }
}

proof fn lemma_pi_compose_step(acc: Seq<PartV>, a: PartV, t: Seq<char>, t2: Seq<char>)
    requires
        p_part_items(t) == (match p_part_items(t2) {
            Some((l, r)) => Some((seq![a] + l, r)),
            None => None::<(Seq<PartV>, Seq<char>)>,
        }),
    ensures
        pi_compose(acc, t) == pi_compose(acc.push(a), t2),
{
    match p_part_items(t2) {
        Some((l, r)) => {
            assert(acc + (seq![a] + l) =~= acc.push(a) + l);
        },
        None => {},
    }
}

#[verifier::loop_isolation(false)]
fn pe_part_array(v: &Vec<char>, i: usize) -> (r: Option<(Vec<Participant>, usize)>)
    requires
        i <= v@.len(),
    ensures
        match r {
            Some((l, j)) => i <= j <= v@.len() && p_part_array(v@.skip(i as int)) == Some(
                (parts_v(l@), v@.skip(j as int)),
            ),
            None => p_part_array(v@.skip(i as int)) is None,
        },
{
    let n = v.len();
    let i1 = match pe_lit(v, i, "[") {
        Some(x) => x,
        None => {
            return None;
        },
    };
    let mut acc: Vec<Participant> = Vec::new();
    if i1 < n && v[i1] == ']' {
        proof {
            assert(v@.skip(i1 as int)[0] == ']');
            assert(v@.skip(i1 as int).skip(1) =~= v@.skip(i1 + 1));
            assert(parts_v(acc@) =~= Seq::<PartV>::empty());
        }
        return Some((acc, i1 + 1));
    }
    proof {
        if v@.skip(i1 as int).len() >= 1 {
            assert(v@.skip(i1 as int)[0] == v@[i1 as int]);
        }
        lemma_pi_compose_empty(v@.skip(i1 as int));
    }
    let mut cur: usize = i1;
    loop
        invariant
            i1 <= cur <= n,
            p_part_array(v@.skip(i as int)) == pi_compose(parts_v(acc@), v@.skip(cur as int)),
        decreases n - cur,
    {
        let ghost t = v@.skip(cur as int);
        let (a, j) = match pe_part(v, cur) {
            Some(x) => x,
            None => {
                return None;
            },
        };
        let ghost tj = v@.skip(j as int);
        if j < n && v[j] == ',' {
            proof {
                assert(tj[0] == ',');
                assert(tj.skip(1) =~= v@.skip(j + 1));
                assert(p_part_items(t) == (match p_part_items(v@.skip(j + 1)) {
                    Some((l, r)) => Some((seq![part_v(a)] + l, r)),
                    None => None::<(Seq<PartV>, Seq<char>)>,
                }));
                lemma_pi_compose_step(parts_v(acc@), part_v(a), t, v@.skip(j + 1));
                assert(parts_v(acc@.push(a)) =~= parts_v(acc@).push(part_v(a)));
            }
            acc.push(a);
            if j + 1 > n {
                return None;
            }
            if n - cur <= n - (j + 1) {
                // A participant object always consumes text; this branch
                // is unreachable, and the check keeps the loop measure
                // evidently decreasing.
                proof {
                    lemma_p_part_consumes(t);
                    assert(false);
                }
                return None;
            }
            cur = j + 1;
        } else if j < n && v[j] == ']' {
            proof {
                assert(tj[0] == ']');
                assert(tj.skip(1) =~= v@.skip(j + 1));
                assert(p_part_items(t) == Some((seq![part_v(a)], v@.skip(j + 1))));
                assert(parts_v(acc@.push(a)) =~= parts_v(acc@) + seq![part_v(a)]);
            }
            acc.push(a);
            return Some((acc, j + 1));
        } else {
            proof {
                if tj.len() >= 1 {
                    assert(tj[0] == v@[j as int]);
                }
                assert(p_part_items(t) is None);
            }
            return None;
        }
    }
}

/// Parse a stored aggregate snapshot record.
pub fn parse_meta(s: &str) -> (r: Option<RfqMeta>)
    ensures
        match r {
            Some(m) => spec_parse_meta_full(s@) == Some(meta_v(m)) && m.created_at
                <= TS_MAX_MILLIS && m.last_event_ts <= TS_MAX_MILLIS,
            None => spec_parse_meta_full(s@) is None,
        },
{
    let v = string_to_chars(s);
    let n = v.len();
    proof {
        assert(v@.skip(0) =~= v@);
    }
    let i1 = match pe_lit(&v, 0, "{\"id\":") {
        Some(x) => x,
        None => {
            return None;
        },
    };
    let (id, i2) = match pe_jstr(&v, i1) {
        Some(x) => x,
        None => {
            return None;
        },
    };
    let i3 = match pe_lit(&v, i2, ",\"tenant_id\":") {
        Some(x) => x,
        None => {
            return None;
        },
    };
    let (tenant_id, i4) = match pe_jstr(&v, i3) {
        Some(x) => x,
        None => {
            return None;
        },
    };
    let i5 = match pe_lit(&v, i4, ",\"manufacturer_id\":") {
        Some(x) => x,
        None => {
            return None;
        },
    };
    let (manufacturer_id, i6) = match pe_jstr(&v, i5) {
        Some(x) => x,
        None => {
            return None;
        },
    };
    let i7 = match pe_lit(&v, i6, ",\"buyer\":{\"email\":") {
        Some(x) => x,
        None => {
            return None;
        },
    };
    let (buyer_email, i8) = match pe_jstr(&v, i7) {
        Some(x) => x,
        None => {
            return None;
        },
    };
    let i9 = match pe_lit(&v, i8, ",\"name\":") {
        Some(x) => x,
        None => {
            return None;
        },
    };
    let (buyer_name, i10) = match pe_opt(&v, i9) {
        Some(x) => x,
        None => {
            return None;
        },
    };
    let i11 = match pe_lit(&v, i10, "},\"subject\":") {
        Some(x) => x,
        None => {
            return None;
        },
    };
    let (subject, i12) = match pe_jstr(&v, i11) {
        Some(x) => x,
        None => {
            return None;
        },
    };
    let i13 = match pe_lit(&v, i12, ",\"status\":") {
        Some(x) => x,
        None => {
            return None;
        },
    };
    let (st_s, i14) = match pe_jstr(&v, i13) {
        Some(x) => x,
        None => {
            return None;
        },
    };
    let status = if crate::text::str_eq(st_s.as_str(), "open") {
        RfqStatus::Open
    } else if crate::text::str_eq(st_s.as_str(), "archived") {
        RfqStatus::Archived
    } else if crate::text::str_eq(st_s.as_str(), "closed") {
        RfqStatus::Closed
    } else {
        return None;
    };
    let i15 = match pe_lit(&v, i14, ",\"created_at\":") {
        Some(x) => x,
        None => {
            return None;
        },
    };
    let (ca_s, i16) = match pe_jstr(&v, i15) {
        Some(x) => x,
        None => {
            return None;
        },
    };
    let created_at = match parse_rfc3339(ca_s.as_str()) {
        Some(x) => x,
        None => {
            return None;
        },
    };
    if created_at > TS_MAX_MILLIS {
        return None;
    }
    let i17 = match pe_lit(&v, i16, ",\"last_event_ts\":") {
        Some(x) => x,
        None => {
            return None;
        },
    };
    let (le_s, i18) = match pe_jstr(&v, i17) {
        Some(x) => x,
        None => {
            return None;
        },
    };
    let last_event_ts = match parse_rfc3339(le_s.as_str()) {
        Some(x) => x,
        None => {
            return None;
        },
    };
    if last_event_ts > TS_MAX_MILLIS {
        return None;
    }
    let i19 = match pe_lit(&v, i18, ",\"participants\":") {
        Some(x) => x,
        None => {
            return None;
        },
    };
    let (participants, i20) = match pe_part_array(&v, i19) {
        Some(x) => x,
        None => {
            return None;
        },
    };
    let i21 = match pe_lit(&v, i20, ",\"attachments\":") {
        Some(x) => x,
        None => {
            return None;
        },
    };
    let (attachments, i22) = if let Some(j) = pe_lit(&v, i21, "null") {
        (None, j)
    } else {
        match crate::event_codec::pe_att_array(&v, i21) {
            Some((l, j)) => (Some(l), j),
            None => {
                return None;
            },
        }
    };
    let i23 = match pe_lit(&v, i22, "}") {
        Some(x) => x,
        None => {
            return None;
        },
    };
    if i23 != n {
        proof {
            assert(v@.skip(i23 as int).len() > 0);
        }
        return None;
    }
    proof {
        assert(v@.skip(i23 as int).len() == 0);
    }
    Some(
        RfqMeta {
            id,
            tenant_id,
            manufacturer_id,
            buyer: Contact { email: buyer_email, name: buyer_name },
            subject,
            status,
            created_at,
            last_event_ts,
            participants,
            attachments,
        },
    )
}

/// Render an index record as canonical JSON; it parses back exactly.
pub fn render_index(x: &RfqIndex) -> (r: String)
    requires
        wf_index(*x),
    ensures
        r@ == spec_render_index(*x),
        ts_parse_ok(x.last_event_ts),
        spec_parse_index_full(r@) == Some(*x),
{
    let mut out: Vec<char> = Vec::new();
    push_lit(&mut out, "{\"last_event_ts\":");
    let le_s = format_rfc3339(x.last_event_ts);
    push_jstr(&mut out, le_s.as_str());
    push_lit(&mut out, ",\"count\":");
    push_dec_min(&mut out, x.count as u64);
    push_lit(&mut out, "}");
    proof {
        assert(out@ =~= spec_render_index(*x));
        lemma_index_round_trip_full(*x);
    }
    chars_to_string(&out)
}

/// Parse a stored index record.
pub fn parse_index(s: &str) -> (r: Option<RfqIndex>)
    ensures
        match r {
            Some(x) => spec_parse_index_full(s@) == Some(x) && wf_index(x),
            None => spec_parse_index_full(s@) is None,
        },
{
    let v = string_to_chars(s);
    let n = v.len();
    proof {
        assert(v@.skip(0) =~= v@);
    }
    let i1 = match pe_lit(&v, 0, "{\"last_event_ts\":") {
        Some(x) => x,
        None => {
            return None;
        },
    };
    let (le_s, i2) = match pe_jstr(&v, i1) {
        Some(x) => x,
        None => {
            return None;
        },
    };
    let last_event_ts = match parse_rfc3339(le_s.as_str()) {
        Some(x) => x,
        None => {
            return None;
        },
    };
    if last_event_ts > TS_MAX_MILLIS {
        return None;
    }
    let i3 = match pe_lit(&v, i2, ",\"count\":") {
        Some(x) => x,
        None => {
            return None;
        },
    };
    let (cnt, i4) = match pe_u64(&v, i3) {
        Some(x) => x,
        None => {
            return None;
        },
    };
    if cnt > u32::MAX as u64 {
        return None;
    }
    let i5 = match pe_lit(&v, i4, "}") {
        Some(x) => x,
        None => {
            return None;
        },
    };
    if i5 != n {
        proof {
            assert(v@.skip(i5 as int).len() > 0);
        }
        return None;
    }
    proof {
        assert(v@.skip(i5 as int).len() == 0);
    }
    Some(RfqIndex { last_event_ts, count: cnt as u32 })
}

/// Render an idempotency record; it parses back exactly.
pub fn render_idem(body_hash: &str, response: &str) -> (r: String)
    ensures
        r@ == spec_render_idem(body_hash@, response@),
        spec_parse_idem(r@) == Some((body_hash@, response@)),
{
    let mut out: Vec<char> = Vec::new();
    push_lit(&mut out, "{\"body_hash\":");
    push_jstr(&mut out, body_hash);
    push_lit(&mut out, ",\"response\":");
    push_jstr(&mut out, response);
    push_lit(&mut out, "}");
    proof {
        assert(out@ =~= spec_render_idem(body_hash@, response@));
        lemma_idem_round_trip(body_hash@, response@);
    }
    chars_to_string(&out)
}

/// Parse a stored idempotency record into its hash and response.
pub fn parse_idem(s: &str) -> (r: Option<(String, String)>)
    ensures
        match r {
            Some((h, resp)) => spec_parse_idem(s@) == Some((h@, resp@)),
            None => spec_parse_idem(s@) is None,
        },
{
    let v = string_to_chars(s);
    let n = v.len();
    proof {
        assert(v@.skip(0) =~= v@);
    }
    let i1 = match pe_lit(&v, 0, "{\"body_hash\":") {
        Some(x) => x,
        None => {
            return None;
        },
    };
    let (h, i2) = match pe_jstr(&v, i1) {
        Some(x) => x,
        None => {
            return None;
        },
    };
    let i3 = match pe_lit(&v, i2, ",\"response\":") {
        Some(x) => x,
        None => {
            return None;
        },
    };
    let (resp, i4) = match pe_jstr(&v, i3) {
        Some(x) => x,
        None => {
            return None;
        },
    };
    let i5 = match pe_lit(&v, i4, "}") {
        Some(x) => x,
        None => {
            return None;
        },
    };
    if i5 != n {
        proof {
            assert(v@.skip(i5 as int).len() > 0);
        }
        return None;
    }
    proof {
        assert(v@.skip(i5 as int).len() == 0);
    }
    Some((h, resp))
}

} // verus!
