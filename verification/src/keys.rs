//! The key layout of the object store.  The repository owns these shapes:
//! every record kind lives under its own unmistakable key, and an event's
//! key orders exactly as its `(ts, id)` pair.

use vstd::prelude::*;
use vstd::string::StrSliceExecFns;
use crate::polyfill::{append_chars, chars_to_string};
use crate::text::{dec_padded, digit_val, is_digit_char, lex_lt, lemma_dec_padded_order, lemma_dec_padded_shape, lemma_dec_padded_val, lemma_lex_lt_first_difference, lemma_lex_le_refl, pow10, push_dec_padded};

verus! {

/// The width of the sortable timestamp encoding: every `u64` fits in
/// twenty decimal digits.
pub const TS_SORTABLE_WIDTH: usize = 20;

/// The key of an RFQ's aggregate snapshot.
pub open spec fn spec_meta_key(rfq_id: Seq<char>) -> Seq<char> {
    "rfq/"@ + rfq_id + "/meta"@
}

/// The key of an RFQ's derived index.
pub open spec fn spec_index_key(rfq_id: Seq<char>) -> Seq<char> {
    "rfq/"@ + rfq_id + "/index"@
}

/// The prefix under which an RFQ's events live.
pub open spec fn spec_events_prefix(rfq_id: Seq<char>) -> Seq<char> {
    "rfq/"@ + rfq_id + "/events/"@
}

/// The sortable encoding of an event timestamp: fixed-width decimal.
pub open spec fn spec_ts_sortable(ts: u64) -> Seq<char> {
    dec_padded(ts as nat, TS_SORTABLE_WIDTH as nat)
}

/// The key of one event: prefix, sortable timestamp, hyphen, event id.
pub open spec fn spec_event_key(rfq_id: Seq<char>, ts: u64, event_id: Seq<char>) -> Seq<char> {
    spec_events_prefix(rfq_id) + spec_ts_sortable(ts) + "-"@ + event_id
}

/// The key of a manufacturer record.
pub open spec fn spec_manufacturer_key(id: Seq<char>) -> Seq<char> {
    "manufacturer/"@ + id
}

/// The key of an idempotency record, from the hash of the caller's key.
pub open spec fn spec_idem_key(key_hash: Seq<char>) -> Seq<char> {
    "idem/"@ + key_hash
}

/// The key of a catalog category slice.
pub open spec fn spec_category_key(category: Seq<char>) -> Seq<char> {
    "catalog/category/"@ + category
}

/// The key of a catalog category-and-state slice.
pub open spec fn spec_category_state_key(category: Seq<char>, state: Seq<char>) -> Seq<char> {
    "catalog/category_state/"@ + category + "/"@ + state
}

/// An event identifier as it may stand in a key: nonempty, no slash.
pub open spec fn key_safe_id(s: Seq<char>) -> bool {
    s.len() >= 1 && forall|i: int| 0 <= i < s.len() ==> s[i] != '/'
}

/// An RFQ identifier as it may stand in a key: no slash, so that one
/// RFQ's records never alias into another's key range.  Generated
/// identifiers always satisfy this.
pub open spec fn key_safe_rfq(s: Seq<char>) -> bool {
    forall|i: int| 0 <= i < s.len() ==> s[i] != '/'
}

pub fn meta_key(rfq_id: &str) -> (r: String)
    ensures
        r@ == spec_meta_key(rfq_id@),
{
    let mut s = String::new();
    s.append("rfq/");
    s.append(rfq_id);
    s.append("/meta");
    proof {
        assert(s@ =~= spec_meta_key(rfq_id@));
    }
    s
}

pub fn index_key(rfq_id: &str) -> (r: String)
    ensures
        r@ == spec_index_key(rfq_id@),
{
    let mut s = String::new();
    s.append("rfq/");
    s.append(rfq_id);
    s.append("/index");
    proof {
        assert(s@ =~= spec_index_key(rfq_id@));
    }
    s
}

pub fn events_prefix(rfq_id: &str) -> (r: String)
    ensures
        r@ == spec_events_prefix(rfq_id@),
{
    let mut s = String::new();
    s.append("rfq/");
    s.append(rfq_id);
    s.append("/events/");
    proof {
        assert(s@ =~= spec_events_prefix(rfq_id@));
    }
    s
}

pub fn event_key(rfq_id: &str, ts: u64, event_id: &str) -> (r: String)
    ensures
        r@ == spec_event_key(rfq_id@, ts, event_id@),
{
    let mut s = events_prefix(rfq_id);
    let mut digits: Vec<char> = Vec::new();
    push_dec_padded(&mut digits, ts, TS_SORTABLE_WIDTH);
    append_chars(&mut s, &digits);
    s.append("-");
    s.append(event_id);
    proof {
        assert(s@ =~= spec_event_key(rfq_id@, ts, event_id@));
    }
    s
}

pub fn manufacturer_key(id: &str) -> (r: String)
    ensures
        r@ == spec_manufacturer_key(id@),
{
    let mut s = String::new();
    s.append("manufacturer/");
    s.append(id);
    proof {
        assert(s@ =~= spec_manufacturer_key(id@));
    }
    s
}

pub fn idem_key(key_hash: &str) -> (r: String)
    ensures
        r@ == spec_idem_key(key_hash@),
{
    let mut s = String::new();
    s.append("idem/");
    s.append(key_hash);
    proof {
        assert(s@ =~= spec_idem_key(key_hash@));
    }
    s
}

pub fn category_key(category: &str) -> (r: String)
    ensures
        r@ == spec_category_key(category@),
{
    let mut s = String::new();
    s.append("catalog/category/");
    s.append(category);
    proof {
        assert(s@ =~= spec_category_key(category@));
    }
    s
}

pub fn category_state_key(category: &str, state: &str) -> (r: String)
    ensures
        r@ == spec_category_state_key(category@, state@),
{
    let mut s = String::new();
    s.append("catalog/category_state/");
    s.append(category);
    s.append("/");
    s.append(state);
    proof {
        assert(s@ =~= spec_category_state_key(category@, state@));
    }
    s
}

/// Twenty decimal digits cover every `u64`.
proof fn lemma_pow10_20()
    ensures
        pow10(20) > u64::MAX as nat,
{
    reveal_with_fuel(pow10, 21);
    assert(pow10(20) == 0x56bc75e2d63100000) by {
        reveal_with_fuel(pow10, 21);
    }
}

/// Snapshot keys of different RFQs differ.
pub proof fn lemma_meta_key_inj(a: Seq<char>, b: Seq<char>)
    requires
        spec_meta_key(a) == spec_meta_key(b),
    ensures
        a == b,
{
    reveal_strlit("rfq/");
    reveal_strlit("/meta");
    let ka = spec_meta_key(a);
    let kb = spec_meta_key(b);
    assert(ka.len() == 4 + a.len() + 5);
    assert(kb.len() == 4 + b.len() + 5);
    assert(a =~= b) by {
        assert forall|i: int| 0 <= i < a.len() implies a[i] == b[i] by {
            assert(ka[4 + i] == a[i]);
            assert(kb[4 + i] == b[i]);
        }
    }
}

/// Index keys of different RFQs differ.
pub proof fn lemma_index_key_inj(a: Seq<char>, b: Seq<char>)
    requires
        spec_index_key(a) == spec_index_key(b),
    ensures
        a == b,
{
    reveal_strlit("rfq/");
    reveal_strlit("/index");
    let ka = spec_index_key(a);
    let kb = spec_index_key(b);
    assert(ka.len() == 4 + a.len() + 6);
    assert(kb.len() == 4 + b.len() + 6);
    assert(a =~= b) by {
        assert forall|i: int| 0 <= i < a.len() implies a[i] == b[i] by {
            assert(ka[4 + i] == a[i]);
            assert(kb[4 + i] == b[i]);
        }
    }
}

/// No character of the tail of an event key — the sortable digits, the
/// hyphen, the identifier — is a slash.
proof fn lemma_event_key_tail(rfq: Seq<char>, ts: u64, eid: Seq<char>)
    requires
        key_safe_id(eid),
    ensures
        ({
            let k = spec_event_key(rfq, ts, eid);
            &&& k.len() == 12 + rfq.len() + 21 + eid.len()
            &&& k[11 + rfq.len() as int] == '/'
            &&& forall|j: int| 11 + rfq.len() < j < k.len() ==> k[j] != '/'
        }),
{
    reveal_strlit("rfq/");
    reveal_strlit("/events/");
    reveal_strlit("-");
    let k = spec_event_key(rfq, ts, eid);
    let d = spec_ts_sortable(ts);
    lemma_dec_padded_shape(ts as nat, 20);
    assert(d.len() == 20);
    assert(k.len() == 12 + rfq.len() + 21 + eid.len());
    assert(k[11 + rfq.len() as int] == "/events/"@[7]);
    assert forall|j: int| 11 + rfq.len() < j < k.len() implies k[j] != '/' by {
        let base = 12 + rfq.len();
        if j < base + 20 {
            assert(k[j] == d[j - base]);
            assert(is_digit_char(d[j - base]));
        } else if j == base + 20 {
            assert(k[j] == '-');
        } else {
            assert(k[j] == eid[j - base - 21]);
        }
    }
}

/// Event keys determine the RFQ, the timestamp and the event identifier.
pub proof fn lemma_event_key_inj(
    r1: Seq<char>,
    t1: u64,
    e1: Seq<char>,
    r2: Seq<char>,
    t2: u64,
    e2: Seq<char>,
)
    requires
        key_safe_id(e1),
        key_safe_id(e2),
        spec_event_key(r1, t1, e1) == spec_event_key(r2, t2, e2),
    ensures
        r1 == r2,
        t1 == t2,
        e1 == e2,
{
    let k = spec_event_key(r1, t1, e1);
    lemma_event_key_tail(r1, t1, e1);
    lemma_event_key_tail(r2, t2, e2);
    if r1.len() < r2.len() {
        assert(k[11 + r2.len() as int] == '/');
        assert(false);
    }
    if r2.len() < r1.len() {
        assert(k[11 + r1.len() as int] == '/');
        assert(false);
    }
    assert(r1.len() == r2.len());
    reveal_strlit("rfq/");
    reveal_strlit("/events/");
    reveal_strlit("-");
    let d1 = spec_ts_sortable(t1);
    let d2 = spec_ts_sortable(t2);
    lemma_dec_padded_shape(t1 as nat, 20);
    lemma_dec_padded_shape(t2 as nat, 20);
    assert(r1 =~= r2) by {
        assert forall|i: int| 0 <= i < r1.len() implies r1[i] == r2[i] by {
            assert(k[4 + i] == r1[i]);
            assert(spec_event_key(r2, t2, e2)[4 + i] == r2[i]);
        }
    }
    let base = 12 + r1.len();
    assert(d1 =~= d2) by {
        assert forall|i: int| 0 <= i < 20 implies d1[i] == d2[i] by {
            assert(k[base + i] == d1[i]);
            assert(spec_event_key(r2, t2, e2)[base + i] == d2[i]);
        }
    }
    lemma_pow10_20();
    lemma_dec_padded_val(t1 as nat, 20);
    lemma_dec_padded_val(t2 as nat, 20);
    assert(t1 == t2);
    assert(e1 =~= e2) by {
        assert forall|i: int| 0 <= i < e1.len() implies e1[i] == e2[i] by {
            assert(k[base + 21 + i] == e1[i]);
            assert(spec_event_key(r2, t2, e2)[base + 21 + i] == e2[i]);
        }
    }
}

/// A snapshot key is never an index key.
pub proof fn lemma_meta_index_distinct(a: Seq<char>, b: Seq<char>)
    ensures
        spec_meta_key(a) != spec_index_key(b),
{
    reveal_strlit("rfq/");
    reveal_strlit("/meta");
    reveal_strlit("/index");
    let ka = spec_meta_key(a);
    let kb = spec_index_key(b);
    if ka == kb {
        assert(ka[ka.len() - 5] == "/meta"@[0]);
        assert(kb[kb.len() - 5] == "/index"@[1]);
        assert(false);
    }
}

/// A snapshot key is never an event key.
pub proof fn lemma_meta_event_distinct(a: Seq<char>, rfq: Seq<char>, ts: u64, eid: Seq<char>)
    requires
        key_safe_id(eid),
    ensures
        spec_meta_key(a) != spec_event_key(rfq, ts, eid),
{
    reveal_strlit("rfq/");
    reveal_strlit("/meta");
    let ka = spec_meta_key(a);
    let kb = spec_event_key(rfq, ts, eid);
    lemma_event_key_tail(rfq, ts, eid);
    if ka == kb {
        assert(ka[ka.len() - 5] == "/meta"@[0]);
        assert(kb.len() - 5 > 11 + rfq.len());
        assert(kb[kb.len() - 5] != '/');
        assert(false);
    }
}

/// An index key is never an event key.
pub proof fn lemma_index_event_distinct(a: Seq<char>, rfq: Seq<char>, ts: u64, eid: Seq<char>)
    requires
        key_safe_id(eid),
    ensures
        spec_index_key(a) != spec_event_key(rfq, ts, eid),
{
    reveal_strlit("rfq/");
    reveal_strlit("/index");
    let ka = spec_index_key(a);
    let kb = spec_event_key(rfq, ts, eid);
    lemma_event_key_tail(rfq, ts, eid);
    if ka == kb {
        assert(ka[ka.len() - 6] == "/index"@[0]);
        assert(kb.len() - 6 > 11 + rfq.len());
        assert(kb[kb.len() - 6] != '/');
        assert(false);
    }
}

/// A snapshot or index key never carries the events prefix of any RFQ,
/// and an event key always carries its own.
pub proof fn lemma_prefix_facts(rfq: Seq<char>, ts: u64, eid: Seq<char>)
    requires
        key_safe_id(eid),
    ensures
        ({
            let p = spec_events_prefix(rfq);
            let k = spec_event_key(rfq, ts, eid);
            p.len() <= k.len() && k.take(p.len() as int) == p
        }),
{
    let p = spec_events_prefix(rfq);
    let k = spec_event_key(rfq, ts, eid);
    lemma_dec_padded_shape(ts as nat, 20);
    assert(k.take(p.len() as int) =~= p);
}

/// The event-key order is the event order: keys of the same RFQ compare
/// lexicographically exactly as their `(ts, id)` pairs.  The fixed-width
/// decimal timestamp makes the prefix scan chronological by construction.
pub proof fn lemma_event_key_order(rfq: Seq<char>, t1: u64, e1: Seq<char>, t2: u64, e2: Seq<char>)
    requires
        key_safe_id(e1),
        key_safe_id(e2),
        t1 < t2 || (t1 == t2 && lex_lt(e1, e2)),
    ensures
        lex_lt(spec_event_key(rfq, t1, e1), spec_event_key(rfq, t2, e2)),
{
    let k1 = spec_event_key(rfq, t1, e1);
    let k2 = spec_event_key(rfq, t2, e2);
    let p = spec_events_prefix(rfq);
    let d1 = spec_ts_sortable(t1);
    let d2 = spec_ts_sortable(t2);
    lemma_dec_padded_shape(t1 as nat, 20);
    lemma_dec_padded_shape(t2 as nat, 20);
    if t1 < t2 {
        lemma_pow10_20();
        lemma_dec_padded_order(t1 as nat, t2 as nat, 20);
        // The keys agree up to the first differing digit of the sortable
        // stamps.
        let w = choose|w: int|
            0 <= w < 20 && d1.take(w) == d2.take(w) && #[trigger] d1[w] != d2[w];
        assert(exists|w: int| 0 <= w < 20 && d1.take(w) == d2.take(w) && #[trigger] d1[w] != d2[w])
            by {
            lemma_first_difference_exists(d1, d2);
        }
        assert(d1[w] < d2[w]) by {
            if d1[w] > d2[w] {
                crate::text::lemma_lex_lt_first_difference(d2, d1, w);
                crate::text::lemma_lex_le_antisym(d1, d2);
                assert(false);
            } else {
                assert(d1[w] != d2[w]);
            }
        }
        let i = p.len() + w;
        assert(k1.take(i as int) =~= k2.take(i as int)) by {
            assert forall|j: int| 0 <= j < i implies k1[j] == k2[j] by {
                if j < p.len() {
                    assert(k1[j] == p[j]);
                    assert(k2[j] == p[j]);
                } else {
                    assert(k1[j] == d1[j - p.len()]);
                    assert(k2[j] == d2[j - p.len()]);
                    assert(d1.take(w)[j - p.len()] == d2.take(w)[j - p.len()]);
                }
            }
            assert(k1.take(i as int) =~= k2.take(i as int));
        }
        assert(k1[i as int] == d1[w]);
        assert(k2[i as int] == d2[w]);
        lemma_lex_lt_first_difference(k1, k2, i as int);
        lemma_lex_le_refl(k2);
    } else {
        // Equal stamps: the identifiers decide, after the common prefix
        // and hyphen.
        let h = p + d1 + "-"@;
        assert(k1 =~= h + e1);
        assert(k2 =~= h + e2);
        crate::text::lemma_lex_concat_common_prefix(h, e1, e2);
        assert(crate::text::lex_le(k1, k2) == crate::text::lex_le(e1, e2));
        if k1 == k2 {
            assert(e1 =~= e2) by {
                assert forall|j: int| 0 <= j < e1.len() implies e1[j] == e2[j] by {
                    assert(k1[h.len() + j] == e1[j]);
                    assert(k2[h.len() + j] == e2[j]);
                }
            }
        }
    }
}

/// An event key lies under the events prefix of its own RFQ alone, among
/// slash-free RFQ identifiers.
pub proof fn lemma_event_prefix_unique(rfq1: Seq<char>, rfq2: Seq<char>, ts: u64, eid: Seq<char>)
    requires
        key_safe_rfq(rfq1),
        key_safe_rfq(rfq2),
        key_safe_id(eid),
        crate::store::has_prefix(spec_event_key(rfq2, ts, eid), spec_events_prefix(rfq1)),
    ensures
        rfq1 == rfq2,
{
    reveal_strlit("rfq/");
    reveal_strlit("/events/");
    reveal_strlit("-");
    let k = spec_event_key(rfq2, ts, eid);
    let p = spec_events_prefix(rfq1);
    lemma_event_key_tail(rfq2, ts, eid);
    assert(p.len() == 12 + rfq1.len());
    assert(forall|j: int| 0 <= j < p.len() ==> p[j] == k[j]) by {
        assert(forall|j: int| 0 <= j < p.len() ==> k.take(p.len() as int)[j] == k[j]);
        assert(forall|j: int| 0 <= j < p.len() ==> k.take(p.len() as int)[j] == p[j]);
    }
    if rfq1.len() < rfq2.len() {
        assert(p[4 + rfq1.len() as int] == "/events/"@[0]);
        assert(k[4 + rfq1.len() as int] == rfq2[rfq1.len() as int]);
        assert(rfq2[rfq1.len() as int] != '/');
        assert(false);
    }
    if rfq1.len() > rfq2.len() {
        assert(p[11 + rfq1.len() as int] == "/events/"@[7]);
        assert(11 + rfq1.len() < k.len());
        assert(11 + rfq1.len() > 11 + rfq2.len());
        assert(k[11 + rfq1.len() as int] != '/');
        assert(false);
    }
    assert(rfq1 =~= rfq2) by {
        assert forall|i: int| 0 <= i < rfq1.len() implies rfq1[i] == rfq2[i] by {
            assert(p[4 + i] == rfq1[i]);
            assert(k[4 + i] == rfq2[i]);
        }
    }
}

/// A snapshot key never lies in any RFQ's event range, for slash-free
/// snapshot identifiers.
pub proof fn lemma_meta_not_in_area(a: Seq<char>, rfq: Seq<char>)
    requires
        key_safe_rfq(a),
    ensures
        !crate::store::has_prefix(spec_meta_key(a), spec_events_prefix(rfq)),
{
    reveal_strlit("rfq/");
    reveal_strlit("/meta");
    reveal_strlit("/events/");
    let k = spec_meta_key(a);
    let p = spec_events_prefix(rfq);
    if crate::store::has_prefix(k, p) {
        assert(forall|j: int| 0 <= j < p.len() ==> p[j] == k[j]) by {
            assert(forall|j: int| 0 <= j < p.len() ==> k.take(p.len() as int)[j] == k[j]);
            assert(forall|j: int| 0 <= j < p.len() ==> k.take(p.len() as int)[j] == p[j]);
        }
        assert(k.len() == 9 + a.len());
        assert(p.len() == 12 + rfq.len());
        assert(rfq.len() + 3 <= a.len());
        assert(p[4 + rfq.len() as int] == "/events/"@[0]);
        assert(k[4 + rfq.len() as int] == a[rfq.len() as int]);
        assert(false);
    }
}

/// An index key never lies in any RFQ's event range, for slash-free
/// index identifiers.
pub proof fn lemma_index_not_in_area(a: Seq<char>, rfq: Seq<char>)
    requires
        key_safe_rfq(a),
    ensures
        !crate::store::has_prefix(spec_index_key(a), spec_events_prefix(rfq)),
{
    reveal_strlit("rfq/");
    reveal_strlit("/index");
    reveal_strlit("/events/");
    let k = spec_index_key(a);
    let p = spec_events_prefix(rfq);
    if crate::store::has_prefix(k, p) {
        assert(forall|j: int| 0 <= j < p.len() ==> p[j] == k[j]) by {
            assert(forall|j: int| 0 <= j < p.len() ==> k.take(p.len() as int)[j] == k[j]);
            assert(forall|j: int| 0 <= j < p.len() ==> k.take(p.len() as int)[j] == p[j]);
        }
        assert(k.len() == 10 + a.len());
        assert(p.len() == 12 + rfq.len());
        if rfq.len() + 2 <= a.len() {
            assert(p[4 + rfq.len() as int] == "/events/"@[0]);
            assert(k[4 + rfq.len() as int] == a[rfq.len() as int]);
            assert(false);
        } else {
            assert(a.len() == rfq.len() + 1);
            assert(p[5 + rfq.len() as int] == "/events/"@[1]);
            assert(k[5 + rfq.len() as int] == a[rfq.len() as int + 1 - 0]);
            assert(false);
        }
    }
}

/// An idempotency key never collides with any RFQ-range key: the two
/// namespaces differ in their first character.
pub proof fn lemma_idem_key_separate(h: Seq<char>, rfq: Seq<char>, ts: u64, eid: Seq<char>)
    requires
        key_safe_id(eid),
    ensures
        spec_idem_key(h) != spec_meta_key(rfq),
        spec_idem_key(h) != spec_index_key(rfq),
        spec_idem_key(h) != spec_event_key(rfq, ts, eid),
        !crate::store::has_prefix(spec_idem_key(h), spec_events_prefix(rfq)),
{
    reveal_strlit("idem/");
    reveal_strlit("rfq/");
    reveal_strlit("/meta");
    reveal_strlit("/index");
    reveal_strlit("/events/");
    let k = spec_idem_key(h);
    assert(k[0] == 'i');
    assert(spec_meta_key(rfq)[0] == 'r');
    assert(spec_index_key(rfq)[0] == 'r');
    lemma_dec_padded_shape(ts as nat, 20);
    assert(spec_event_key(rfq, ts, eid)[0] == 'r');
    let p = spec_events_prefix(rfq);
    if crate::store::has_prefix(k, p) {
        assert(k.take(p.len() as int)[0] == k[0]);
        assert(p[0] == 'r');
        assert(false);
    }
}

/// Two unequal sequences of one length differ first at some position.
proof fn lemma_first_difference_exists(a: Seq<char>, b: Seq<char>)
    requires
        a.len() == b.len(),
        a != b,
    ensures
        exists|w: int| 0 <= w < a.len() && a.take(w) == b.take(w) && #[trigger] a[w] != b[w],
    decreases a.len(),
{
    if a.len() == 0 {
        assert(a =~= b);
    } else if a[0] != b[0] {
        assert(a.take(0) =~= b.take(0));
        assert(a.take(0) == b.take(0) && a[0] != b[0]);
    } else {
        if a.skip(1) == b.skip(1) {
            assert(a =~= b) by {
                assert forall|j: int| 0 <= j < a.len() implies a[j] == b[j] by {
                    if j > 0 {
                        assert(a[j] == a.skip(1)[j - 1]);
                        assert(b[j] == b.skip(1)[j - 1]);
                    }
                }
            }
        }
        lemma_first_difference_exists(a.skip(1), b.skip(1));
        let w0 = choose|w0: int|
            0 <= w0 < a.skip(1).len() && a.skip(1).take(w0) == b.skip(1).take(w0)
                && #[trigger] a.skip(1)[w0] != b.skip(1)[w0];
        let w = w0 + 1;
        assert(a.take(w) =~= b.take(w)) by {
            assert forall|j: int| 0 <= j < w implies a.take(w)[j] == b.take(w)[j] by {
                if j > 0 {
                    assert(a[j] == a.skip(1)[j - 1]);
                    assert(b[j] == b.skip(1)[j - 1]);
                    assert(a.skip(1).take(w0)[j - 1] == b.skip(1).take(w0)[j - 1]);
                }
            }
        }
        assert(a[w] == a.skip(1)[w0]);
        assert(b[w] == b.skip(1)[w0]);
        assert(a.take(w) == b.take(w) && a[w] != b[w]);
    }
}

} // verus!
