//! The object-store repository: durable storage and ordered retrieval of
//! the aggregate snapshot, the derived index, and the event log, over any
//! blob store.  The repository owns the key layout and re-sorts what it
//! reads; the store promises no order.  Writes require slash-free RFQ
//! identifiers — the key layout places the identifier in a key path — and
//! the service meets that: it generates every identifier it creates and
//! turns away a slash where one enters.  Reads are exact for any
//! identifier.

use vstd::prelude::*;
use crate::entities::{RfqIndex, RfqMeta, wf_index, wf_meta};
use crate::error::DomainError;
use crate::event_codec::{EventV, ev_id, ev_rfq_id, ev_ts, event_v, parse_event, render_event, spec_parse_event_full};
use crate::events::{RfqEvent, spec_base, wf_event};
use crate::keys::{event_key, index_key, key_safe_id, key_safe_rfq, lemma_event_key_inj, lemma_event_prefix_unique, lemma_index_event_distinct, lemma_index_key_inj, lemma_index_not_in_area, lemma_meta_event_distinct, lemma_meta_index_distinct, lemma_meta_key_inj, lemma_meta_not_in_area, lemma_prefix_facts, meta_key, spec_event_key, spec_events_prefix, spec_index_key, spec_meta_key, events_prefix};
use crate::meta_codec::{MetaV, meta_v, parse_index, parse_meta, render_index, render_meta, spec_parse_index_full, spec_parse_meta_full};
use crate::store::{BlobStore, has_prefix, scan_exact};
use crate::text::{lex_le, str_lex_le};
use crate::time::TS_MAX_MILLIS;

verus! {

/// The hard cap on one page of events.
pub const EVENT_LIST_CAP: u32 = 200;

/// The default page size when the caller asks for none.
pub const EVENT_LIST_DEFAULT: u32 = 50;

/// The snapshot cell of an RFQ: the raw stored text, if any.
pub open spec fn meta_cell(m: Map<Seq<char>, Seq<char>>, id: Seq<char>) -> Option<Seq<char>> {
    if m.contains_key(spec_meta_key(id)) {
        Some(m[spec_meta_key(id)])
    } else {
        None
    }
}

/// The index cell of an RFQ: the raw stored text, if any.
pub open spec fn index_cell(m: Map<Seq<char>, Seq<char>>, id: Seq<char>) -> Option<Seq<char>> {
    if m.contains_key(spec_index_key(id)) {
        Some(m[spec_index_key(id)])
    } else {
        None
    }
}

/// Whether the store holds `ev` as an event of `rfq`, under its derived
/// key.
pub open spec fn has_event(m: Map<Seq<char>, Seq<char>>, rfq: Seq<char>, ev: EventV) -> bool {
    &&& m.contains_key(spec_event_key(rfq, ev_ts(ev), ev_id(ev)))
    &&& spec_parse_event_full(m[spec_event_key(rfq, ev_ts(ev), ev_id(ev))]) == Some(ev)
    &&& ev_rfq_id(ev) == rfq
}

/// One well-kept record in an RFQ's event range: a canonical event
/// record of this RFQ, stored under its own derived key.
pub open spec fn area_entry_ok(v: Seq<char>, rfq: Seq<char>, k: Seq<char>) -> bool {
    exists|ev: EventV|
        {
            &&& #[trigger] spec_parse_event_full(v) == Some(ev)
            &&& ev_rfq_id(ev) == rfq
            &&& key_safe_id(ev_id(ev))
            &&& ev_ts(ev) <= TS_MAX_MILLIS
            &&& k == spec_event_key(rfq, ev_ts(ev), ev_id(ev))
        }
}

/// A well-kept event area: every record under the RFQ's event prefix is a
/// canonical event record stored under its own derived key.  The service
/// writes events only through `save_rfq_event`, which keeps this.
pub open spec fn events_area_wf(m: Map<Seq<char>, Seq<char>>, rfq: Seq<char>) -> bool {
    forall|k: Seq<char>|
        #[trigger] m.contains_key(k) && has_prefix(k, spec_events_prefix(rfq)) ==> area_entry_ok(
            m[k],
            rfq,
            k,
        )
}

/// The order of events: by timestamp, then by identifier.
pub open spec fn ev_le(a: EventV, b: EventV) -> bool {
    ev_ts(a) < ev_ts(b) || (ev_ts(a) == ev_ts(b) && lex_le(ev_id(a), ev_id(b)))
}

/// Whether `ev` passes the `since` filter: strictly after the cursor.
pub open spec fn since_ok(ev: EventV, since: Option<u64>) -> bool {
    match since {
        None => true,
        Some(s) => ev_ts(ev) > s,
    }
}

/// Persist the aggregate snapshot under its key.  Only the snapshot cell
/// of this RFQ changes; every index cell and every event record is
/// untouched.
#[verifier::rlimit(100)]
#[verifier::spinoff_prover]
pub fn save_rfq_meta<S: BlobStore>(store: &mut S, meta: &RfqMeta)
    requires
        old(store).inv(),
        wf_meta(*meta),
        key_safe_rfq(meta.id@),
    ensures
        final(store).inv(),
        final(store).store_view() == old(store).store_view().insert(
            spec_meta_key(meta.id@),
            crate::meta_codec::spec_render_meta(*meta),
        ),
        meta_cell(final(store).store_view(), meta.id@) matches Some(v)
            && spec_parse_meta_full(v) == Some(meta_v(*meta)),
        forall|id: Seq<char>|
            id != meta.id@ ==> meta_cell(final(store).store_view(), id) == meta_cell(
                old(store).store_view(),
                id,
            ),
        forall|id: Seq<char>|
            index_cell(final(store).store_view(), id) == index_cell(old(store).store_view(), id),
        forall|rfq: Seq<char>, ev: EventV|
            key_safe_id(ev_id(ev)) ==> has_event(final(store).store_view(), rfq, ev) == has_event(
                old(store).store_view(),
                rfq,
                ev,
            ),
        forall|rfq: Seq<char>|
            events_area_wf(old(store).store_view(), rfq) ==> events_area_wf(
                final(store).store_view(),
                rfq,
            ),
{
    let key = meta_key(meta.id.as_str());
    let value = render_meta(meta);
    store.put(key, value);
    proof {
        let k = spec_meta_key(meta.id@);
        assert forall|id: Seq<char>| id != meta.id@ implies meta_cell(
            store.store_view(),
            id,
        ) == meta_cell(old(store).store_view(), id) by {
            if spec_meta_key(id) == k {
                lemma_meta_key_inj(id, meta.id@);
            }
        }
        assert forall|id: Seq<char>| index_cell(store.store_view(), id) == index_cell(
            old(store).store_view(),
            id,
        ) by {
            lemma_meta_index_distinct(meta.id@, id);
        }
        assert forall|rfq: Seq<char>, ev: EventV| key_safe_id(ev_id(ev)) implies has_event(
            store.store_view(),
            rfq,
            ev,
        ) == has_event(old(store).store_view(), rfq, ev) by {
            lemma_meta_event_distinct(meta.id@, rfq, ev_ts(ev), ev_id(ev));
        }
        assert forall|rfq: Seq<char>| events_area_wf(old(store).store_view(), rfq)
            implies events_area_wf(store.store_view(), rfq) by {
            assert forall|kk: Seq<char>|
                #[trigger] store.store_view().contains_key(kk) && has_prefix(
                    kk,
                    spec_events_prefix(rfq),
                ) implies area_entry_ok(store.store_view()[kk], rfq, kk) by {
                if kk == k {
                    lemma_meta_not_in_area(meta.id@, rfq);
                    assert(false);
                } else {
                    assert(old(store).store_view().contains_key(kk));
                    assert(store.store_view()[kk] == old(store).store_view()[kk]);
                    assert(area_entry_ok(old(store).store_view()[kk], rfq, kk));
                }
            }
        }
    }
}

/// Load the aggregate snapshot: absent keys are `None`, a record that
/// does not read back is an internal fault.
pub fn get_rfq_meta<S: BlobStore>(store: &S, rfq_id: &str) -> (r: Result<
    Option<RfqMeta>,
    DomainError,
>)
    requires
        store.inv(),
    ensures
        match r {
            Ok(Some(meta)) => meta_cell(store.store_view(), rfq_id@) matches Some(v)
                && spec_parse_meta_full(v) == Some(meta_v(meta)) && meta.created_at
                <= TS_MAX_MILLIS && meta.last_event_ts <= TS_MAX_MILLIS && meta.id@ == ({
                let mv = meta_v(meta);
                mv.id
            }),
            Ok(None) => meta_cell(store.store_view(), rfq_id@) is None,
            Err(e) => meta_cell(store.store_view(), rfq_id@) matches Some(v)
                && spec_parse_meta_full(v) is None && e matches DomainError::Internal(_),
        },
{
    let key = meta_key(rfq_id);
    match store.get(key.as_str()) {
        None => Ok(None),
        Some(raw) => match parse_meta(raw.as_str()) {
            Some(meta) => Ok(Some(meta)),
            None => Err(DomainError::Internal("Failed to deserialize RFQ meta".to_owned())),
        },
    }
}

/// Persist the index record under its key; snapshot cells and event
/// records are untouched.
#[verifier::rlimit(100)]
#[verifier::spinoff_prover]
pub fn save_rfq_index<S: BlobStore>(store: &mut S, rfq_id: &str, index: &RfqIndex)
    requires
        old(store).inv(),
        wf_index(*index),
        key_safe_rfq(rfq_id@),
    ensures
        final(store).inv(),
        index_cell(final(store).store_view(), rfq_id@) matches Some(v) && spec_parse_index_full(v)
            == Some(*index),
        forall|id: Seq<char>|
            id != rfq_id@ ==> index_cell(final(store).store_view(), id) == index_cell(
                old(store).store_view(),
                id,
            ),
        forall|id: Seq<char>|
            meta_cell(final(store).store_view(), id) == meta_cell(old(store).store_view(), id),
        forall|rfq: Seq<char>, ev: EventV|
            key_safe_id(ev_id(ev)) ==> has_event(final(store).store_view(), rfq, ev) == has_event(
                old(store).store_view(),
                rfq,
                ev,
            ),
        forall|rfq: Seq<char>|
            events_area_wf(old(store).store_view(), rfq) ==> events_area_wf(
                final(store).store_view(),
                rfq,
            ),
{
    let key = index_key(rfq_id);
    let value = render_index(index);
    store.put(key, value);
    proof {
        let k = spec_index_key(rfq_id@);
        assert forall|id: Seq<char>| id != rfq_id@ implies index_cell(
            store.store_view(),
            id,
        ) == index_cell(old(store).store_view(), id) by {
            if spec_index_key(id) == k {
                lemma_index_key_inj(id, rfq_id@);
            }
        }
        assert forall|id: Seq<char>| meta_cell(store.store_view(), id) == meta_cell(
            old(store).store_view(),
            id,
        ) by {
            lemma_meta_index_distinct(id, rfq_id@);
        }
        assert forall|rfq: Seq<char>, ev: EventV| key_safe_id(ev_id(ev)) implies has_event(
            store.store_view(),
            rfq,
            ev,
        ) == has_event(old(store).store_view(), rfq, ev) by {
            lemma_index_event_distinct(rfq_id@, rfq, ev_ts(ev), ev_id(ev));
        }
        assert forall|rfq: Seq<char>| events_area_wf(old(store).store_view(), rfq)
            implies events_area_wf(store.store_view(), rfq) by {
            assert forall|kk: Seq<char>|
                #[trigger] store.store_view().contains_key(kk) && has_prefix(
                    kk,
                    spec_events_prefix(rfq),
                ) implies area_entry_ok(store.store_view()[kk], rfq, kk) by {
                if kk == k {
                    lemma_index_not_in_area(rfq_id@, rfq);
                    assert(false);
                } else {
                    assert(old(store).store_view().contains_key(kk));
                    assert(store.store_view()[kk] == old(store).store_view()[kk]);
                    assert(area_entry_ok(old(store).store_view()[kk], rfq, kk));
                }
            }
        }
    }
}

/// Load the index record, if it is there and reads back.
pub fn get_rfq_index<S: BlobStore>(store: &S, rfq_id: &str) -> (r: Result<
    Option<RfqIndex>,
    DomainError,
>)
    requires
        store.inv(),
    ensures
        match r {
            Ok(Some(x)) => index_cell(store.store_view(), rfq_id@) matches Some(v)
                && spec_parse_index_full(v) == Some(x) && wf_index(x),
            Ok(None) => index_cell(store.store_view(), rfq_id@) is None,
            Err(e) => index_cell(store.store_view(), rfq_id@) matches Some(v)
                && spec_parse_index_full(v) is None && e matches DomainError::Internal(_),
        },
{
    let key = index_key(rfq_id);
    match store.get(key.as_str()) {
        None => Ok(None),
        Some(raw) => match parse_index(raw.as_str()) {
            Some(x) => Ok(Some(x)),
            None => Err(DomainError::Internal("Failed to deserialize RFQ index".to_owned())),
        },
    }
}

/// Append one event under its derived key.  Writing the same `(ts, id)`
/// twice overwrites: last write wins, as the stored record is the source
/// of truth for that key.
#[verifier::rlimit(100)]
#[verifier::spinoff_prover]
pub fn save_rfq_event<S: BlobStore>(store: &mut S, event: &RfqEvent)
    requires
        old(store).inv(),
        wf_event(*event),
        key_safe_rfq(spec_base(*event).rfq_id@),
    ensures
        final(store).inv(),
        final(store).store_view() == old(store).store_view().insert(
            spec_event_key(spec_base(*event).rfq_id@, spec_base(*event).ts, spec_base(*event).id@),
            crate::event_codec::spec_render_event(*event),
        ),
        has_event(final(store).store_view(), spec_base(*event).rfq_id@, event_v(*event)),
        forall|rfq: Seq<char>, ev: EventV|
            key_safe_id(ev_id(ev)) ==> has_event(final(store).store_view(), rfq, ev) == (if rfq
                == spec_base(*event).rfq_id@ && ev_ts(ev) == spec_base(*event).ts && ev_id(ev)
                == spec_base(*event).id@ {
                ev == event_v(*event)
            } else {
                has_event(old(store).store_view(), rfq, ev)
            }),
        forall|id: Seq<char>|
            meta_cell(final(store).store_view(), id) == meta_cell(old(store).store_view(), id),
        forall|id: Seq<char>|
            index_cell(final(store).store_view(), id) == index_cell(old(store).store_view(), id),
        forall|rfq: Seq<char>|
            key_safe_rfq(rfq) && rfq != spec_base(*event).rfq_id@ && events_area_wf(
                old(store).store_view(),
                rfq,
            ) ==> events_area_wf(final(store).store_view(), rfq),
        events_area_wf(old(store).store_view(), spec_base(*event).rfq_id@) ==> events_area_wf(
            final(store).store_view(),
            spec_base(*event).rfq_id@,
        ),
{
    let ts = event.timestamp();
    let rfq_id_s = event.rfq_id();
    let eid = event.id();
    let key = event_key(rfq_id_s, ts, eid);
    let value = render_event(event);
    let ghost b = spec_base(*event);
    let ghost k = spec_event_key(b.rfq_id@, b.ts, b.id@);
    store.put(key, value);
    proof {
        assert(key_safe_id(b.id@));
        assert forall|rfq: Seq<char>, ev: EventV| key_safe_id(ev_id(ev)) implies has_event(
            store.store_view(),
            rfq,
            ev,
        ) == (if rfq == b.rfq_id@ && ev_ts(ev) == b.ts && ev_id(ev) == b.id@ {
            ev == event_v(*event)
        } else {
            has_event(old(store).store_view(), rfq, ev)
        }) by {
            let ek = spec_event_key(rfq, ev_ts(ev), ev_id(ev));
            if ek == k {
                lemma_event_key_inj(rfq, ev_ts(ev), ev_id(ev), b.rfq_id@, b.ts, b.id@);
                assert(rfq == b.rfq_id@ && ev_ts(ev) == b.ts && ev_id(ev) == b.id@);
                assert(ev_rfq_id(event_v(*event)) == b.rfq_id@);
                assert(ev_ts(event_v(*event)) == b.ts);
                assert(ev_id(event_v(*event)) == b.id@);
            } else {
                if rfq == b.rfq_id@ && ev_ts(ev) == b.ts && ev_id(ev) == b.id@ {
                    assert(ek == k);
                }
            }
        }
        assert forall|id: Seq<char>| meta_cell(store.store_view(), id) == meta_cell(
            old(store).store_view(),
            id,
        ) by {
            lemma_meta_event_distinct(id, b.rfq_id@, b.ts, b.id@);
        }
        assert forall|id: Seq<char>| index_cell(store.store_view(), id) == index_cell(
            old(store).store_view(),
            id,
        ) by {
            lemma_index_event_distinct(id, b.rfq_id@, b.ts, b.id@);
        }
        assert forall|rfq: Seq<char>|
            key_safe_rfq(rfq) && rfq != b.rfq_id@ && events_area_wf(
                old(store).store_view(),
                rfq,
            ) implies events_area_wf(store.store_view(), rfq) by {
            assert forall|kk: Seq<char>|
                #[trigger] store.store_view().contains_key(kk) && has_prefix(
                    kk,
                    spec_events_prefix(rfq),
                ) implies area_entry_ok(store.store_view()[kk], rfq, kk) by {
                if kk == k {
                    lemma_prefix_facts(b.rfq_id@, b.ts, b.id@);
                    lemma_event_prefix_unique(rfq, b.rfq_id@, b.ts, b.id@);
                    assert(false);
                } else {
                    assert(old(store).store_view().contains_key(kk));
                    assert(store.store_view()[kk] == old(store).store_view()[kk]);
                    assert(area_entry_ok(old(store).store_view()[kk], rfq, kk));
                }
            }
        }
        if events_area_wf(old(store).store_view(), b.rfq_id@) {
            assert forall|kk: Seq<char>|
                #[trigger] store.store_view().contains_key(kk) && has_prefix(
                    kk,
                    spec_events_prefix(b.rfq_id@),
                ) implies area_entry_ok(store.store_view()[kk], b.rfq_id@, kk) by {
                if kk == k {
                    let ev = event_v(*event);
                    assert(spec_parse_event_full(store.store_view()[kk]) == Some(ev));
                    assert(ev_rfq_id(ev) == b.rfq_id@ && ev_ts(ev) == b.ts && ev_id(ev) == b.id@);
                } else {
                    assert(old(store).store_view().contains_key(kk));
                    assert(store.store_view()[kk] == old(store).store_view()[kk]);
                    assert(area_entry_ok(old(store).store_view()[kk], b.rfq_id@, kk));
                }
            }
        }
    }
}

/// The views of a list of events.
pub open spec fn evs_of(s: Seq<RfqEvent>) -> Seq<EventV> {
    s.map_values(|e: RfqEvent| event_v(e))
}

/// The page size a caller's limit clamps to.
pub open spec fn effective_limit(limit: Option<u32>) -> int {
    let want = match limit {
        Some(l) => l,
        None => EVENT_LIST_DEFAULT,
    };
    if want <= EVENT_LIST_CAP {
        want as int
    } else {
        EVENT_LIST_CAP as int
    }
}

/// What a listing is: sorted ascending by `(ts, id)`, only events of this
/// RFQ that pass the `since` filter, at most one page.  When the event
/// area is well kept, the page holds exactly the earliest matching events:
/// each entry is stored, no entry repeats, and anything stored, matching
/// and missing lies at or beyond a full page.
/// The record under key `k`, decoded and filtered: the event it holds
/// when it is a canonical event record of `rfq`, in range, passing the
/// `since` filter — whatever other records hold.
pub open spec fn decoded_match(
    m: Map<Seq<char>, Seq<char>>,
    rfq: Seq<char>,
    since: Option<u64>,
    k: Seq<char>,
) -> Option<EventV> {
    if m.contains_key(k) && has_prefix(k, spec_events_prefix(rfq)) {
        match spec_parse_event_full(m[k]) {
            Some(ev) => if ev_rfq_id(ev) == rfq && ev_ts(ev) <= TS_MAX_MILLIS && since_ok(
                ev,
                since,
            ) {
                Some(ev)
            } else {
                None
            },
            None => None,
        }
    } else {
        None
    }
}

/// What a listing is: sorted ascending by `(ts, id)`, only events of this
/// RFQ that pass the `since` filter, at most one page; and complete:
/// every record that decodes to a matching event is on the page, or the
/// page is full and that event lies at or beyond everything on it.  A
/// record that does not decode is skipped and blocks nothing.  When the
/// event area is well kept, every entry is a stored event and no entry
/// repeats.
pub open spec fn listing_ok(
    m: Map<Seq<char>, Seq<char>>,
    rfq: Seq<char>,
    since: Option<u64>,
    eff: int,
    evs: Seq<EventV>,
) -> bool {
    &&& forall|i: int, j: int| 0 <= i < j < evs.len() ==> ev_le(#[trigger] evs[i], #[trigger] evs[j])
    &&& evs.len() <= eff
    &&& forall|i: int|
        0 <= i < evs.len() ==> since_ok(#[trigger] evs[i], since) && ev_rfq_id(evs[i]) == rfq
            && ev_ts(evs[i]) <= TS_MAX_MILLIS
    &&& forall|k: Seq<char>|
        (match #[trigger] decoded_match(m, rfq, since, k) {
            Some(ev) => evs.contains(ev) || (evs.len() == eff && (forall|i: int|
                0 <= i < evs.len() ==> ev_le(#[trigger] evs[i], ev))),
            None => true,
        })
    &&& (events_area_wf(m, rfq) ==> {
        &&& forall|i: int| 0 <= i < evs.len() ==> has_event(m, rfq, #[trigger] evs[i])
        &&& forall|i: int, j: int| 0 <= i < j < evs.len() ==> #[trigger] evs[i] != #[trigger] evs[j]
        &&& forall|ev: EventV|
            has_event(m, rfq, ev) && since_ok(ev, since) && !evs.contains(ev) ==> evs.len() == eff
                && (forall|i: int| 0 <= i < evs.len() ==> ev_le(#[trigger] evs[i], ev))
    })
}

/// Whether `a` orders at or before `b`.
fn ev_le_exec(a: &RfqEvent, b: &RfqEvent) -> (r: bool)
    ensures
        r == ev_le(event_v(*a), event_v(*b)),
{
    let ta = a.timestamp();
    let tb = b.timestamp();
    if ta < tb {
        true
    } else if ta > tb {
        false
    } else {
        str_lex_le(a.id(), b.id())
    }
}

/// The position of a least event.
fn min_index(cand: &Vec<RfqEvent>) -> (r: usize)
    requires
        cand@.len() >= 1,
    ensures
        r < cand@.len(),
        forall|x: int| 0 <= x < cand@.len() ==> ev_le(event_v(cand@[r as int]), event_v(#[trigger] cand@[x])),
{
    let n = cand.len();
    let mut best: usize = 0;
    let mut j: usize = 1;
    proof {
        crate::text::lemma_lex_le_refl(ev_id(event_v(cand@[0])));
    }
    while j < n
        invariant
            best < j <= n,
            n == cand@.len(),
            forall|x: int| 0 <= x < j ==> ev_le(event_v(cand@[best as int]), event_v(#[trigger] cand@[x])),
        decreases n - j,
    {
        if !ev_le_exec(&cand[best], &cand[j]) {
            proof {
                crate::text::lemma_lex_le_total(
                    ev_id(event_v(cand@[best as int])),
                    ev_id(event_v(cand@[j as int])),
                );
                assert(ev_le(event_v(cand@[j as int]), event_v(cand@[best as int])));
                assert forall|x: int| 0 <= x < j implies ev_le(
                    event_v(cand@[j as int]),
                    event_v(#[trigger] cand@[x]),
                ) by {
                    lemma_ev_le_trans(
                        event_v(cand@[j as int]),
                        event_v(cand@[best as int]),
                        event_v(cand@[x]),
                    );
                }
            }
            best = j;
        }
        proof {
            crate::text::lemma_lex_le_refl(ev_id(event_v(cand@[best as int])));
        }
        j = j + 1;
    }
    proof {
        crate::text::lemma_lex_le_refl(ev_id(event_v(cand@[best as int])));
    }
    best
}

/// The event order is transitive.
pub proof fn lemma_ev_le_trans(a: EventV, b: EventV, c: EventV)
    requires
        ev_le(a, b),
        ev_le(b, c),
    ensures
        ev_le(a, c),
{
    if ev_ts(a) == ev_ts(b) && ev_ts(b) == ev_ts(c) {
        crate::text::lemma_lex_le_trans(ev_id(a), ev_id(b), ev_id(c));
    }
}

/// List a page of an RFQ's events in chronological `(ts, id)` order,
/// starting strictly after `since`, capped at the page limit.  Records
/// that do not read back as canonical events are skipped, never fatal.
#[verifier::rlimit(100)]
#[verifier::loop_isolation(false)]
pub fn list_rfq_events<S: BlobStore>(
    store: &S,
    rfq_id: &str,
    since: Option<u64>,
    limit: Option<u32>,
) -> (r: Vec<RfqEvent>)
    requires
        store.inv(),
    ensures
        listing_ok(store.store_view(), rfq_id@, since, effective_limit(limit), evs_of(r@)),
{
    let ghost m = store.store_view();
    let ghost rfq = rfq_id@;
    let eff_u32: u32 = match limit {
        Some(l) => if l <= EVENT_LIST_CAP {
            l
        } else {
            EVENT_LIST_CAP
        },
        None => EVENT_LIST_DEFAULT,
    };
    let eff = eff_u32 as usize;
    let prefix = events_prefix(rfq_id);
    let pairs = store.scan_prefix(prefix.as_str());
    let np = pairs.len();
    // Decode and filter.
    let mut cand: Vec<RfqEvent> = Vec::new();
    let ghost mut srcs: Seq<int> = Seq::empty();
    let mut i: usize = 0;
    while i < np
        invariant
            i <= np,
            srcs.len() == cand@.len(),
            forall|x: int|
                0 <= x < cand@.len() ==> {
                    &&& 0 <= #[trigger] srcs[x] < i
                    &&& spec_parse_event_full(pairs@[srcs[x]].1@) == Some(evs_of(cand@)[x])
                    &&& since_ok(evs_of(cand@)[x], since)
                    &&& ev_rfq_id(evs_of(cand@)[x]) == rfq
                    &&& ev_ts(evs_of(cand@)[x]) <= TS_MAX_MILLIS
                },
            forall|x: int, y: int| 0 <= x < y < cand@.len() ==> srcs[x] != srcs[y],
            forall|j: int|
                0 <= j < i ==> (match spec_parse_event_full((#[trigger] pairs@[j]).1@) {
                    Some(ev) => since_ok(ev, since) && ev_rfq_id(ev) == rfq && ev_ts(ev)
                        <= TS_MAX_MILLIS ==> exists|x: int|
                        0 <= x < srcs.len() && #[trigger] srcs[x] == j,
                    None => true,
                }),
        decreases np - i,
    {
        let raw = &pairs[i].1;
        let ghost prev_cand = cand@;
        let ghost prev_srcs = srcs;
        match parse_event(raw.as_str()) {
            Some(e) => {
                let ts = e.timestamp();
                let keep_since = match since {
                    Some(s) => ts > s,
                    None => true,
                };
                if keep_since && crate::text::str_eq(e.rfq_id(), rfq_id) {
                    proof {
                        srcs = srcs.push(i as int);
                        assert(evs_of(prev_cand.push(e)) =~= evs_of(prev_cand).push(event_v(e)));
                    }
                    cand.push(e);
                }
            },
            None => {},
        }
        proof {
            assert forall|j: int|
                0 <= j < i + 1 implies (match spec_parse_event_full((#[trigger] pairs@[j]).1@) {
                Some(ev) => since_ok(ev, since) && ev_rfq_id(ev) == rfq && ev_ts(ev)
                    <= TS_MAX_MILLIS ==> exists|x: int|
                    0 <= x < srcs.len() && #[trigger] srcs[x] == j,
                None => true,
            }) by {
                if j < i {
                    match spec_parse_event_full(pairs@[j].1@) {
                        Some(ev) => {
                            if since_ok(ev, since) && ev_rfq_id(ev) == rfq && ev_ts(ev)
                                <= TS_MAX_MILLIS {
                                let x = choose|x: int|
                                    0 <= x < prev_srcs.len() && #[trigger] prev_srcs[x] == j;
                                assert(srcs[x] == j);
                            }
                        },
                        None => {},
                    }
                } else {
                    match spec_parse_event_full(pairs@[j].1@) {
                        Some(ev) => {
                            if since_ok(ev, since) && ev_rfq_id(ev) == rfq && ev_ts(ev)
                                <= TS_MAX_MILLIS {
                                assert(srcs[srcs.len() - 1] == j);
                            }
                        },
                        None => {},
                    }
                }
            }
        }
        i = i + 1;
    }
    let ghost cand0 = evs_of(cand@);
    let ghost srcs0 = srcs;
    proof {
        // What every candidate satisfies, and, under a well-kept area,
        // that candidates are stored events, pairwise distinct.
        assert forall|x: int|
            0 <= x < cand0.len() implies since_ok(#[trigger] cand0[x], since) && ev_rfq_id(
            cand0[x],
        ) == rfq && ev_ts(cand0[x]) <= TS_MAX_MILLIS by {
            assert(0 <= srcs0[x] < np);
        }
        if events_area_wf(m, rfq) {
            assert forall|x: int| 0 <= x < cand0.len() implies has_event(
                m,
                rfq,
                #[trigger] cand0[x],
            ) && pairs@[srcs0[x]].0@ == spec_event_key(
                rfq,
                ev_ts(cand0[x]),
                ev_id(cand0[x]),
            ) by {
                let j = srcs0[x];
                assert(0 <= j < np);
                let k = pairs@[j].0@;
                assert(has_prefix(k, spec_events_prefix(rfq)) && m.contains_key(k) && pairs@[j].1@
                    == m[k]);
                lemma_cand_has_event(m, rfq, k, cand0[x]);
            }
            assert forall|x: int, y: int| 0 <= x < y < cand0.len() implies #[trigger] cand0[x]
                != #[trigger] cand0[y] by {
                if cand0[x] == cand0[y] {
                    assert(pairs@[srcs0[x]].0@ == pairs@[srcs0[y]].0@);
                    assert(srcs0[x] != srcs0[y]);
                    assert(pairs@[srcs0[x]].0@ != pairs@[srcs0[y]].0@);
                }
            }
        }
    }
    // Sort ascending by (ts, id).
    let out_full = sort_events(cand, Ghost(cand0));
    let mut out = out_full;
    let ghost sorted0 = evs_of(out@);
    proof {
        assert(forall|i: int|
            0 <= i < sorted0.len() ==> cand0.contains(#[trigger] sorted0[i]));
        assert(forall|i: int, j: int|
            0 <= i < j < sorted0.len() ==> ev_le(#[trigger] sorted0[i], #[trigger] sorted0[j]));
        assert(forall|ev: EventV| #[trigger] cand0.contains(ev) ==> sorted0.contains(ev));
        assert(sorted0.take(out@.len() as int) =~= sorted0);
    }

    // Clamp to the page limit.
    while out.len() > eff
        invariant
            out@.len() <= sorted0.len(),
            out@.len() == sorted0.len() || out@.len() >= eff,
            evs_of(out@) == sorted0.take(out@.len() as int),
        decreases out@.len(),
    {
        let ghost po = evs_of(out@);
        let _ = out.pop();
        proof {
            assert(evs_of(out@) =~= po.drop_last());
            assert(sorted0.take(out@.len() as int) =~= po.drop_last());
        }
    }
    proof {
        let eo = evs_of(out@);
        assert(eo == sorted0.take(out@.len() as int));
        assert(eo.len() <= eff);
        assert(forall|i: int| 0 <= i < eo.len() ==> #[trigger] eo[i] == sorted0[i]);
        assert forall|i: int| 0 <= i < eo.len() implies since_ok(#[trigger] eo[i], since)
            && ev_rfq_id(eo[i]) == rfq && ev_ts(eo[i]) <= TS_MAX_MILLIS by {
            assert(cand0.contains(sorted0[i]));
            let w = choose|w: int| 0 <= w < cand0.len() && cand0[w] == sorted0[i];
            assert(0 <= srcs0[w] < np);
        }
        // Completeness: every record that decodes to a matching event is
        // on the page, or the page is full and the event lies beyond it.
        assert forall|k: Seq<char>|
            (match #[trigger] decoded_match(m, rfq, since, k) {
                Some(ev) => eo.contains(ev) || (eo.len() == eff && (forall|i: int|
                    0 <= i < eo.len() ==> ev_le(#[trigger] eo[i], ev))),
                None => true,
            }) by {
            match decoded_match(m, rfq, since, k) {
                Some(ev) => {
                    assert(m.contains_key(k) && has_prefix(k, spec_events_prefix(rfq)));
                    let j = choose|j: int| 0 <= j < pairs@.len() && #[trigger] pairs@[j].0@ == k;
                    assert(pairs@[j].1@ == m[k]);
                    assert(spec_parse_event_full(pairs@[j].1@) == Some(ev));
                    let x = choose|x: int| 0 <= x < srcs0.len() && #[trigger] srcs0[x] == j;
                    assert(spec_parse_event_full(pairs@[srcs0[x]].1@) == Some(cand0[x]));
                    assert(cand0[x] == ev);
                    assert(cand0.contains(ev));
                    assert(sorted0.contains(ev));
                    let w = choose|w: int| 0 <= w < sorted0.len() && sorted0[w] == ev;
                    if w < eo.len() {
                        assert(eo[w] == ev);
                        assert(eo.contains(ev));
                    } else {
                        assert(eo.len() < sorted0.len());
                        assert(eo.len() == eff);
                        assert forall|i: int| 0 <= i < eo.len() implies ev_le(
                            #[trigger] eo[i],
                            ev,
                        ) by {
                            assert(eo[i] == sorted0[i]);
                            assert(ev_le(sorted0[i], sorted0[w]));
                        }
                        assert(!eo.contains(ev) ==> eo.len() == eff);
                    }
                },
                None => {},
            }
        }
        if events_area_wf(m, rfq) {
            assert forall|i: int| 0 <= i < eo.len() implies has_event(
                m,
                rfq,
                #[trigger] eo[i],
            ) by {
                assert(cand0.contains(sorted0[i]));
                let w = choose|w: int| 0 <= w < cand0.len() && cand0[w] == sorted0[i];
            }
            assert forall|i: int, j: int| 0 <= i < j < eo.len() implies #[trigger] eo[i]
                != #[trigger] eo[j] by {
                assert(eo[i] == sorted0[i]);
                assert(eo[j] == sorted0[j]);
            }
            assert forall|ev: EventV|
                has_event(m, rfq, ev) && since_ok(ev, since) && !eo.contains(ev) implies eo.len()
                == eff && (forall|i: int| 0 <= i < eo.len() ==> ev_le(#[trigger] eo[i], ev)) by {
                lemma_area_key_prefix(m, rfq, ev);
                let k = spec_event_key(rfq, ev_ts(ev), ev_id(ev));
                assert(decoded_match(m, rfq, since, k) == Some(ev));
            }
        }
    }
    out
}

/// Sort events ascending by `(ts, id)` by repeatedly extracting a least
/// element.  The result holds the same events; when the input is
/// duplicate-free, so is the result.
#[verifier::rlimit(100)]
#[verifier::loop_isolation(false)]
fn sort_events(input: Vec<RfqEvent>, Ghost(cand0): Ghost<Seq<EventV>>) -> (r: Vec<RfqEvent>)
    requires
        evs_of(input@) == cand0,
    ensures
        forall|i: int, j: int|
            0 <= i < j < evs_of(r@).len() ==> ev_le(
                #[trigger] evs_of(r@)[i],
                #[trigger] evs_of(r@)[j],
            ),
        r@.len() == cand0.len(),
        forall|i: int| 0 <= i < evs_of(r@).len() ==> cand0.contains(#[trigger] evs_of(r@)[i]),
        forall|ev: EventV| #[trigger] cand0.contains(ev) ==> evs_of(r@).contains(ev),
        (forall|x: int, y: int|
            0 <= x < y < cand0.len() ==> #[trigger] cand0[x] != #[trigger] cand0[y]) ==> (forall|
            i: int,
            j: int,
        |
            0 <= i < j < evs_of(r@).len() ==> #[trigger] evs_of(r@)[i] != #[trigger] evs_of(
                r@,
            )[j]),
{
    let ghost dfree = forall|x: int, y: int|
        0 <= x < y < cand0.len() ==> #[trigger] cand0[x] != #[trigger] cand0[y];
    let mut cand = input;
    let mut out: Vec<RfqEvent> = Vec::new();
    while cand.len() > 0
        invariant
            forall|i: int, j: int|
                0 <= i < j < evs_of(out@).len() ==> ev_le(
                    #[trigger] evs_of(out@)[i],
                    #[trigger] evs_of(out@)[j],
                ),
            forall|i: int, x: int|
                0 <= i < evs_of(out@).len() && 0 <= x < evs_of(cand@).len() ==> ev_le(
                    #[trigger] evs_of(out@)[i],
                    #[trigger] evs_of(cand@)[x],
                ),
            forall|ev: EventV|
                #[trigger] cand0.contains(ev) ==> (evs_of(out@).contains(ev) || evs_of(
                    cand@,
                ).contains(ev)),
            out@.len() + cand@.len() == cand0.len(),
            forall|i: int|
                0 <= i < evs_of(out@).len() ==> cand0.contains(#[trigger] evs_of(out@)[i]),
            forall|x: int|
                0 <= x < evs_of(cand@).len() ==> cand0.contains(#[trigger] evs_of(cand@)[x]),
            dfree ==> {
                &&& forall|i: int, j: int|
                    0 <= i < j < evs_of(out@).len() ==> #[trigger] evs_of(out@)[i]
                        != #[trigger] evs_of(out@)[j]
                &&& forall|i: int, x: int|
                    0 <= i < evs_of(out@).len() && 0 <= x < evs_of(cand@).len()
                        ==> #[trigger] evs_of(out@)[i] != #[trigger] evs_of(cand@)[x]
                &&& forall|x: int, y: int|
                    0 <= x < y < evs_of(cand@).len() ==> #[trigger] evs_of(cand@)[x]
                        != #[trigger] evs_of(cand@)[y]
            },
        decreases cand@.len(),
    {
        let mi = min_index(&cand);
        let ghost pc = evs_of(cand@);
        let ghost po = evs_of(out@);
        let ghost pmi = mi as int;
        let e = cand.remove(mi);
        out.push(e);
        proof {
            let ne = event_v(e);
            assert(ne == pc[pmi]);
            assert(evs_of(out@) =~= po.push(ne));
            assert(evs_of(cand@) =~= pc.remove(pmi));
            let eo = evs_of(out@);
            let ec = evs_of(cand@);
            assert forall|i: int, j: int| 0 <= i < j < eo.len() implies ev_le(
                #[trigger] eo[i],
                #[trigger] eo[j],
            ) by {
                if j == eo.len() - 1 {
                    assert(eo[i] == po[i]);
                    assert(ev_le(po[i], pc[pmi]));
                }
            }
            assert forall|i: int, x: int|
                0 <= i < eo.len() && 0 <= x < ec.len() implies ev_le(
                #[trigger] eo[i],
                #[trigger] ec[x],
            ) by {
                let xo = if x < pmi {
                    x
                } else {
                    x + 1
                };
                assert(ec[x] == pc[xo]);
                if i < eo.len() - 1 {
                    assert(eo[i] == po[i]);
                } else {
                    assert(eo[i] == ne);
                    assert(ev_le(pc[pmi], pc[xo]));
                }
            }
            lemma_remove_contains(pc, pmi);
            assert forall|ev: EventV| #[trigger] cand0.contains(ev) implies (eo.contains(ev)
                || ec.contains(ev)) by {
                if po.contains(ev) {
                    let w = choose|w: int| 0 <= w < po.len() && po[w] == ev;
                    assert(eo[w] == ev);
                } else if pc.contains(ev) {
                    if ev == pc[pmi] {
                        assert(eo[eo.len() - 1] == ev);
                    }
                }
            }
            assert forall|i: int| 0 <= i < eo.len() implies cand0.contains(#[trigger] eo[i]) by {
                if i < eo.len() - 1 {
                    assert(eo[i] == po[i]);
                } else {
                    assert(eo[i] == pc[pmi]);
                }
            }
            if dfree {
                assert forall|i: int, j: int| 0 <= i < j < eo.len() implies #[trigger] eo[i]
                    != #[trigger] eo[j] by {
                    if j == eo.len() - 1 {
                        assert(eo[i] == po[i]);
                        assert(po[i] != pc[pmi]);
                    }
                }
                assert forall|i: int, x: int|
                    0 <= i < eo.len() && 0 <= x < ec.len() implies #[trigger] eo[i]
                    != #[trigger] ec[x] by {
                    let xo = if x < pmi {
                        x
                    } else {
                        x + 1
                    };
                    assert(ec[x] == pc[xo]);
                    if i < eo.len() - 1 {
                        assert(eo[i] == po[i]);
                    } else {
                        assert(eo[i] == pc[pmi]);
                        assert(xo != pmi);
                    }
                }
                assert forall|x: int, y: int| 0 <= x < y < ec.len() implies #[trigger] ec[x]
                    != #[trigger] ec[y] by {
                    let xo = if x < pmi {
                        x
                    } else {
                        x + 1
                    };
                    let yo = if y < pmi {
                        y
                    } else {
                        y + 1
                    };
                    assert(ec[x] == pc[xo]);
                    assert(ec[y] == pc[yo]);
                }
            }
        }
    }
    proof {
        assert(evs_of(cand@).len() == 0);
        assert forall|ev: EventV| #[trigger] cand0.contains(ev) implies evs_of(out@).contains(
            ev,
        ) by {
            assert(!evs_of(cand@).contains(ev) ==> evs_of(out@).contains(ev));
        }
    }
    out
}

/// A decoded candidate whose source record lies in a well-kept areais a
/// stored event under its derived key.
proof fn lemma_cand_has_event(
    m: Map<Seq<char>, Seq<char>>,
    rfq: Seq<char>,
    k: Seq<char>,
    ev: EventV,
)
    requires
        events_area_wf(m, rfq),
        m.contains_key(k),
        has_prefix(k, spec_events_prefix(rfq)),
        spec_parse_event_full(m[k]) == Some(ev),
    ensures
        has_event(m, rfq, ev),
        k == spec_event_key(rfq, ev_ts(ev), ev_id(ev)),
{
    assert(area_entry_ok(m[k], rfq, k));
    let ev0 = choose|ev0: EventV|
        {
            &&& #[trigger] spec_parse_event_full(m[k]) == Some(ev0)
            &&& ev_rfq_id(ev0) == rfq
            &&& key_safe_id(ev_id(ev0))
            &&& ev_ts(ev0) <= TS_MAX_MILLIS
            &&& k == spec_event_key(rfq, ev_ts(ev0), ev_id(ev0))
        };
    assert(ev0 == ev);
}

/// A stored event's derived key carries its own prefix and its stamp is
/// in range.
proof fn lemma_area_key_prefix(m: Map<Seq<char>, Seq<char>>, rfq: Seq<char>, ev: EventV)
    requires
        events_area_wf(m, rfq),
        has_event(m, rfq, ev),
    ensures
        has_prefix(spec_event_key(rfq, ev_ts(ev), ev_id(ev)), spec_events_prefix(rfq)),
        ev_ts(ev) <= TS_MAX_MILLIS,
        key_safe_id(ev_id(ev)),
{
    let k = spec_event_key(rfq, ev_ts(ev), ev_id(ev));
    let p = spec_events_prefix(rfq);
    assert(k.take(p.len() as int) =~= p) by {
        reveal_strlit("rfq/");
        reveal_strlit("/events/");
    }
    assert(area_entry_ok(m[k], rfq, k));
    let ev0 = choose|ev0: EventV|
        {
            &&& #[trigger] spec_parse_event_full(m[k]) == Some(ev0)
            &&& ev_rfq_id(ev0) == rfq
            &&& key_safe_id(ev_id(ev0))
            &&& ev_ts(ev0) <= TS_MAX_MILLIS
            &&& k == spec_event_key(rfq, ev_ts(ev0), ev_id(ev0))
        };
    assert(ev0 == ev);
}

/// Removing a position from a duplicate-free sequence removes exactly
/// that element.
proof fn lemma_remove_contains(s: Seq<EventV>, i: int)
    requires
        0 <= i < s.len(),
    ensures
        forall|ev: EventV| #[trigger] s.remove(i).contains(ev) ==> s.contains(ev),
        forall|ev: EventV| s.contains(ev) ==> s.remove(i).contains(ev) || ev == s[i],
{
    assert forall|ev: EventV| #[trigger] s.remove(i).contains(ev) implies s.contains(ev) by {
        let w = choose|w: int| 0 <= w < s.remove(i).len() && s.remove(i)[w] == ev;
        if w < i {
            assert(s[w] == ev);
        } else {
            assert(s[w + 1] == ev);
        }
    }
    assert forall|ev: EventV| s.contains(ev) implies s.remove(i).contains(ev) || ev == s[i] by {
        let w = choose|w: int| 0 <= w < s.len() && s[w] == ev;
        if w < i {
            assert(s.remove(i)[w] == ev);
        } else if w > i {
            assert(s.remove(i)[w - 1] == ev);
        }
    }
}

/// Pagination: a first page of one event, then a page from its cursor,
/// covers every stored event of the RFQ exactly once — no duplicates, no
/// gaps.  The cursor is the first page's timestamp alone, so an event
/// sharing that exact millisecond with the first page's entry would be
/// skipped; a log with such a tie is the one input this law does not
/// speak of, and the second page is assumed not to have filled up.
pub proof fn lemma_pagination(
    m: Map<Seq<char>, Seq<char>>,
    rfq: Seq<char>,
    evs1: Seq<EventV>,
    evs2: Seq<EventV>,
    eff2: int,
)
    requires
        events_area_wf(m, rfq),
        listing_ok(m, rfq, None, 1, evs1),
        evs1.len() == 1,
        listing_ok(m, rfq, Some(ev_ts(evs1[0])), eff2, evs2),
        evs2.len() < eff2,
        forall|ev: EventV|
            has_event(m, rfq, ev) && ev_ts(ev) == ev_ts(evs1[0]) ==> ev == evs1[0],
    ensures
        forall|ev: EventV|
            #[trigger] has_event(m, rfq, ev) <==> (ev == evs1[0] || evs2.contains(ev)),
        !evs2.contains(evs1[0]),
        forall|i: int| 0 <= i < evs2.len() ==> ev_le(evs1[0], #[trigger] evs2[i]),
        forall|i: int, j: int| 0 <= i < j < evs2.len() ==> #[trigger] evs2[i] != #[trigger] evs2[j],
{
    let cursor = ev_ts(evs1[0]);
    assert forall|ev: EventV| #[trigger] has_event(m, rfq, ev) implies (ev == evs1[0]
        || evs2.contains(ev)) by {
        if ev != evs1[0] {
            // The first page is complete up to its own entry: everything
            // else lies at or beyond it.
            if !evs1.contains(ev) {
                assert(ev_le(evs1[0], ev));
            } else {
                let w = choose|w: int| 0 <= w < evs1.len() && evs1[w] == ev;
                assert(w == 0);
                assert(false);
            }
            if ev_ts(ev) == cursor {
                assert(ev == evs1[0]);
                assert(false);
            }
            assert(ev_ts(ev) > cursor);
            assert(since_ok(ev, Some(cursor)));
            // The second page was not full, so it holds every match.
            if !evs2.contains(ev) {
                assert(evs2.len() == eff2);
                assert(false);
            }
        }
    }
    assert forall|ev: EventV| (ev == evs1[0] || evs2.contains(ev)) implies has_event(
        m,
        rfq,
        ev,
    ) by {
        if ev == evs1[0] {
            assert(has_event(m, rfq, evs1[0]));
        } else {
            let w = choose|w: int| 0 <= w < evs2.len() && evs2[w] == ev;
            assert(has_event(m, rfq, evs2[w]));
        }
    }
    if evs2.contains(evs1[0]) {
        let w = choose|w: int| 0 <= w < evs2.len() && evs2[w] == evs1[0];
        assert(since_ok(evs2[w], Some(cursor)));
        assert(false);
    }
    assert forall|i: int| 0 <= i < evs2.len() implies ev_le(evs1[0], #[trigger] evs2[i]) by {
        assert(since_ok(evs2[i], Some(cursor)));
        assert(ev_ts(evs2[i]) > cursor);
    }
}

} // verus!
