//! The wire shapes of the service surface: responses are rendered and
//! read back (a cached response replays verbatim), requests are rendered
//! canonically so the idempotency guard can hash them.

use vstd::prelude::*;
use crate::codec::{jstr, p_jstr, p_lit, pe_jstr, pe_lit, push_jstr, push_lit, lemma_assoc, lemma_jstr_round_trip, lemma_lit_round_trip};
use crate::dto::{AttachmentDto, CreateRfqRequest, CreateRfqResponse, PostMessageRequest, PostMessageResponse};
use crate::polyfill::{chars_to_string, string_to_chars};
use crate::text::dec_min;

verus! {

/// The canonical rendering of a create-RFQ response.
pub open spec fn spec_render_create_response(id: Seq<char>, last_event_ts: Seq<char>) -> Seq<
    char,
> {
    "{\"id\":"@ + jstr(id) + ",\"last_event_ts\":"@ + jstr(last_event_ts) + "}"@
}

/// Parsing a stored create-RFQ response.
pub open spec fn spec_parse_create_response(t: Seq<char>) -> Option<(Seq<char>, Seq<char>)> {
    match p_lit(t, "{\"id\":"@) {
        None => None,
        Some(t1) => match p_jstr(t1) {
            None => None,
            Some((id, t2)) => match p_lit(t2, ",\"last_event_ts\":"@) {
                None => None,
                Some(t3) => match p_jstr(t3) {
                    None => None,
                    Some((ts, t4)) => match p_lit(t4, "}"@) {
                        None => None,
                        Some(t5) => if t5.len() == 0 {
                            Some((id, ts))
                        } else {
                            None
                        },
                    },
                },
            },
        },
    }
}

pub proof fn lemma_create_response_round_trip(id: Seq<char>, last_event_ts: Seq<char>)
    ensures
        spec_parse_create_response(spec_render_create_response(id, last_event_ts)) == Some(
            (id, last_event_ts),
        ),
{
    let r3 = jstr(last_event_ts) + "}"@;
    let r2 = ",\"last_event_ts\":"@ + r3;
    let r1 = jstr(id) + r2;
    let t = spec_render_create_response(id, last_event_ts);
    assert(t =~= "{\"id\":"@ + r1);
    lemma_lit_round_trip("{\"id\":"@, r1);
    assert(p_lit(t, "{\"id\":"@) == Some(r1));
    lemma_jstr_round_trip(id, r2);
    assert(p_jstr(r1) == Some((id, r2)));
    lemma_lit_round_trip(",\"last_event_ts\":"@, r3);
    assert(p_lit(r2, ",\"last_event_ts\":"@) == Some(r3));
    lemma_jstr_round_trip(last_event_ts, "}"@);
    assert(r3 =~= jstr(last_event_ts) + "}"@);
    assert(p_jstr(r3) == Some((last_event_ts, "}"@)));
    lemma_lit_round_trip("}"@, Seq::empty());
    assert("}"@ + Seq::<char>::empty() =~= "}"@);
    assert(p_lit("}"@, "}"@) == Some(Seq::<char>::empty()));
}

/// Render a create-RFQ response; it reads back exactly.
pub fn render_create_response(resp: &CreateRfqResponse) -> (r: String)
    ensures
        r@ == spec_render_create_response(resp.id@, resp.last_event_ts@),
        spec_parse_create_response(r@) == Some((resp.id@, resp.last_event_ts@)),
{
    let mut out: Vec<char> = Vec::new();
    push_lit(&mut out, "{\"id\":");
    push_jstr(&mut out, resp.id.as_str());
    push_lit(&mut out, ",\"last_event_ts\":");
    push_jstr(&mut out, resp.last_event_ts.as_str());
    push_lit(&mut out, "}");
    proof {
        assert(out@ =~= spec_render_create_response(resp.id@, resp.last_event_ts@));
        lemma_create_response_round_trip(resp.id@, resp.last_event_ts@);
    }
    chars_to_string(&out)
}

/// Parse a cached create-RFQ response.
pub fn parse_create_response(s: &str) -> (r: Option<CreateRfqResponse>)
    ensures
        match r {
            Some(resp) => spec_parse_create_response(s@) == Some((resp.id@, resp.last_event_ts@)),
            None => spec_parse_create_response(s@) is None,
        },
{
    let v = string_to_chars(s);
    let n = v.len();
    proof {
        assert(v@.skip(0) =~= v@);
    }
    let i1 = match pe_lit(&v, 0, "{\"id\":") {
        Some(x) => x,
        None => {
            return None;
        },
    };
    let (id, i2) = match pe_jstr(&v, i1) {
        Some(x) => x,
        None => {
            return None;
        },
    };
    let i3 = match pe_lit(&v, i2, ",\"last_event_ts\":") {
        Some(x) => x,
        None => {
            return None;
        },
    };
    let (ts, i4) = match pe_jstr(&v, i3) {
        Some(x) => x,
        None => {
            return None;
        },
    };
    let i5 = match pe_lit(&v, i4, "}") {
        Some(x) => x,
        None => {
            return None;
        },
    };
    if i5 != n {
        proof {
            assert(v@.skip(i5 as int).len() > 0);
        }
        return None;
    }
    proof {
        assert(v@.skip(i5 as int).len() == 0);
    }
    Some(CreateRfqResponse { id, last_event_ts: ts })
}

/// The canonical rendering of a post-message response.
pub open spec fn spec_render_post_response(ts: Seq<char>) -> Seq<char> {
    "{\"ts\":"@ + jstr(ts) + "}"@
}

/// Parsing a stored post-message response.
pub open spec fn spec_parse_post_response(t: Seq<char>) -> Option<Seq<char>> {
    match p_lit(t, "{\"ts\":"@) {
        None => None,
        Some(t1) => match p_jstr(t1) {
            None => None,
            Some((ts, t2)) => match p_lit(t2, "}"@) {
                None => None,
                Some(t3) => if t3.len() == 0 {
                    Some(ts)
                } else {
                    None
                },
            },
        },
    }
}

pub proof fn lemma_post_response_round_trip(ts: Seq<char>)
    ensures
        spec_parse_post_response(spec_render_post_response(ts)) == Some(ts),
{
    let r1 = jstr(ts) + "}"@;
    let t = spec_render_post_response(ts);
    assert(t =~= "{\"ts\":"@ + r1);
    lemma_lit_round_trip("{\"ts\":"@, r1);
    assert(p_lit(t, "{\"ts\":"@) == Some(r1));
    lemma_jstr_round_trip(ts, "}"@);
    assert(p_jstr(r1) == Some((ts, "}"@)));
    lemma_lit_round_trip("}"@, Seq::empty());
    assert("}"@ + Seq::<char>::empty() =~= "}"@);
    assert(p_lit("}"@, "}"@) == Some(Seq::<char>::empty()));
}

/// Render a post-message response; it reads back exactly.
pub fn render_post_response(resp: &PostMessageResponse) -> (r: String)
    ensures
        r@ == spec_render_post_response(resp.ts@),
        spec_parse_post_response(r@) == Some(resp.ts@),
{
    let mut out: Vec<char> = Vec::new();
    push_lit(&mut out, "{\"ts\":");
    push_jstr(&mut out, resp.ts.as_str());
    push_lit(&mut out, "}");
    proof {
        assert(out@ =~= spec_render_post_response(resp.ts@));
        lemma_post_response_round_trip(resp.ts@);
    }
    chars_to_string(&out)
}

/// Parse a cached post-message response.
pub fn parse_post_response(s: &str) -> (r: Option<PostMessageResponse>)
    ensures
        match r {
            Some(resp) => spec_parse_post_response(s@) == Some(resp.ts@),
            None => spec_parse_post_response(s@) is None,
        },
{
    let v = string_to_chars(s);
    let n = v.len();
    proof {
        assert(v@.skip(0) =~= v@);
    }
    let i1 = match pe_lit(&v, 0, "{\"ts\":") {
        Some(x) => x,
        None => {
            return None;
        },
    };
    let (ts, i2) = match pe_jstr(&v, i1) {
        Some(x) => x,
        None => {
            return None;
        },
    };
    let i3 = match pe_lit(&v, i2, "}") {
        Some(x) => x,
        None => {
            return None;
        },
    };
    if i3 != n {
        proof {
            assert(v@.skip(i3 as int).len() > 0);
        }
        return None;
    }
    proof {
        assert(v@.skip(i3 as int).len() == 0);
    }
    Some(PostMessageResponse { ts })
}

/// The rendering of one attachment descriptor of a request.
pub open spec fn spec_render_att_dto(a: AttachmentDto) -> Seq<char> {
    "{\"upload_key\":"@ + jstr(a.upload_key@) + ",\"file_name\":"@ + jstr(a.file_name@)
        + ",\"content_type\":"@ + jstr(a.content_type@) + ",\"size_bytes\":"@ + dec_min(
        a.size_bytes as nat,
    ) + "}"@
}

/// The renderings of a list of attachment descriptors, comma-separated.
pub open spec fn spec_render_att_dto_items(l: Seq<AttachmentDto>) -> Seq<char>
    decreases l.len(),
{
    if l.len() == 0 {
        Seq::empty()
    } else if l.len() == 1 {
        spec_render_att_dto(l[0])
    } else {
        spec_render_att_dto(l[0]) + ","@ + spec_render_att_dto_items(l.skip(1))
    }
}

/// The rendering of an optional attachment-descriptor array.
pub open spec fn spec_render_att_dtos(o: Option<Vec<AttachmentDto>>) -> Seq<char> {
    match o {
        None => "null"@,
        Some(l) => "["@ + spec_render_att_dto_items(l@) + "]"@,
    }
}

/// The canonical rendering of a create-RFQ request: what the idempotency
/// guard hashes.
pub open spec fn spec_render_create_request(req: CreateRfqRequest) -> Seq<char> {
    "{\"tenant_id\":"@ + jstr(req.tenant_id@) + ",\"manufacturer_id\":"@ + jstr(
        req.manufacturer_id@,
    ) + ",\"buyer\":{\"email\":"@ + jstr(req.buyer.email@) + ",\"name\":"@
        + crate::meta_codec::spec_render_opt(req.buyer.name) + "},\"subject\":"@ + jstr(
        req.subject@,
    ) + ",\"body\":"@ + jstr(req.body@) + ",\"attachments\":"@ + spec_render_att_dtos(
        req.attachments,
    ) + "}"@
}

/// The canonical rendering of a post-message request.
pub open spec fn spec_render_post_request(req: PostMessageRequest) -> Seq<char> {
    "{\"by\":"@ + jstr(req.by@) + ",\"body\":"@ + jstr(req.body@) + ",\"attachments\":"@
        + spec_render_att_dtos(req.attachments) + "}"@
}

fn push_att_dto(out: &mut Vec<char>, a: &AttachmentDto)
    ensures
        final(out)@ == old(out)@ + spec_render_att_dto(*a),
{
    push_lit(out, "{\"upload_key\":");
    push_jstr(out, a.upload_key.as_str());
    push_lit(out, ",\"file_name\":");
    push_jstr(out, a.file_name.as_str());
    push_lit(out, ",\"content_type\":");
    push_jstr(out, a.content_type.as_str());
    push_lit(out, ",\"size_bytes\":");
    crate::text::push_dec_min(out, a.size_bytes);
    push_lit(out, "}");
    proof {
        assert(out@ =~= old(out)@ + spec_render_att_dto(*a));
    }
}

proof fn lemma_att_dto_items_snoc(l: Seq<AttachmentDto>, x: AttachmentDto)
    requires
        l.len() >= 1,
    ensures
        spec_render_att_dto_items(l.push(x)) == spec_render_att_dto_items(l) + ","@
            + spec_render_att_dto(x),
    decreases l.len(),
{
    let lp = l.push(x);
    if l.len() == 1 {
        assert(lp.skip(1) =~= seq![x]);
        assert(spec_render_att_dto_items(seq![x]) == spec_render_att_dto(x));
        assert(lp[0] == l[0]);
        assert(spec_render_att_dto_items(lp) =~= spec_render_att_dto_items(l) + ","@
            + spec_render_att_dto(x));
    } else {
        assert(lp.skip(1) =~= l.skip(1).push(x));
        lemma_att_dto_items_snoc(l.skip(1), x);
        assert(lp[0] == l[0]);
        assert(spec_render_att_dto_items(lp) =~= spec_render_att_dto_items(l) + ","@
            + spec_render_att_dto(x));
    }
}

#[verifier::loop_isolation(false)]
fn push_att_dtos(out: &mut Vec<char>, o: &Option<Vec<AttachmentDto>>)
    ensures
        final(out)@ == old(out)@ + spec_render_att_dtos(*o),
{
    match o {
        None => push_lit(out, "null"),
        Some(l) => {
            push_lit(out, "[");
            let n = l.len();
            let mut i: usize = 0;
            while i < n
                invariant
                    i <= n,
                    out@ == old(out)@ + "["@ + spec_render_att_dto_items(l@.take(i as int)),
                decreases n - i,
            {
                if i > 0 {
                    push_lit(out, ",");
                }
                push_att_dto(out, &l[i]);
                proof {
                    if i == 0 {
                        assert(l@.take(1) =~= seq![l@[0]]);
                        assert(spec_render_att_dto_items(l@.take(1)) == spec_render_att_dto(
                            l@[0],
                        ));
                        assert(out@ =~= old(out)@ + "["@ + spec_render_att_dto_items(l@.take(1)));
                    } else {
                        assert(l@.take(i + 1) =~= l@.take(i as int).push(l@[i as int]));
                        lemma_att_dto_items_snoc(l@.take(i as int), l@[i as int]);
                        assert(out@ =~= old(out)@ + "["@ + spec_render_att_dto_items(
                            l@.take(i + 1),
                        ));
                    }
                }
                i = i + 1;
            }
            push_lit(out, "]");
            proof {
                assert(l@.take(n as int) =~= l@);
                assert(out@ =~= old(out)@ + spec_render_att_dtos(Some(*l)));
            }
        },
    }
}

/// Render a create-RFQ request canonically, for hashing.
pub fn render_create_request(req: &CreateRfqRequest) -> (r: String)
    ensures
        r@ == spec_render_create_request(*req),
{
    let mut out: Vec<char> = Vec::new();
    push_lit(&mut out, "{\"tenant_id\":");
    push_jstr(&mut out, req.tenant_id.as_str());
    push_lit(&mut out, ",\"manufacturer_id\":");
    push_jstr(&mut out, req.manufacturer_id.as_str());
    push_lit(&mut out, ",\"buyer\":{\"email\":");
    push_jstr(&mut out, req.buyer.email.as_str());
    push_lit(&mut out, ",\"name\":");
    match &req.buyer.name {
        None => push_lit(&mut out, "null"),
        Some(nm) => push_jstr(&mut out, nm.as_str()),
    }
    push_lit(&mut out, "},\"subject\":");
    push_jstr(&mut out, req.subject.as_str());
    push_lit(&mut out, ",\"body\":");
    push_jstr(&mut out, req.body.as_str());
    push_lit(&mut out, ",\"attachments\":");
    push_att_dtos(&mut out, &req.attachments);
    push_lit(&mut out, "}");
    proof {
        assert(out@ =~= spec_render_create_request(*req));
    }
    chars_to_string(&out)
}

/// Render a post-message request canonically, for hashing.
pub fn render_post_request(req: &PostMessageRequest) -> (r: String)
    ensures
        r@ == spec_render_post_request(*req),
{
    let mut out: Vec<char> = Vec::new();
    push_lit(&mut out, "{\"by\":");
    push_jstr(&mut out, req.by.as_str());
    push_lit(&mut out, ",\"body\":");
    push_jstr(&mut out, req.body.as_str());
    push_lit(&mut out, ",\"attachments\":");
    push_att_dtos(&mut out, &req.attachments);
    push_lit(&mut out, "}");
    proof {
        assert(out@ =~= spec_render_post_request(*req));
    }
    chars_to_string(&out)
}

} // verus!
