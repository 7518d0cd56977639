//! The idempotency guard: content-hash-keyed dedupe of mutating
//! commands.  A record lives under `idem/` plus the SHA-256 of the
//! caller's key and holds the request's body hash and the cached
//! response; a reused key with a different body is a conflict, an
//! unreadable record is an internal fault, never a silent re-run.

use vstd::prelude::*;
use crate::error::DomainError;
use crate::event_codec::{EventV, ev_id, ev_ts};
use crate::hashing::{sha256_hex, sha256_hex_of};
use crate::keys::{idem_key, key_safe_id, lemma_idem_key_separate, spec_idem_key};
use crate::meta_codec::{parse_idem, render_idem, spec_parse_idem, spec_render_idem};
use crate::repo::{events_area_wf, has_event, index_cell, meta_cell, area_entry_ok};
use crate::store::{BlobStore, has_prefix};
use crate::text::str_eq;

verus! {

/// The storage key of the record for a caller's idempotency key.
pub open spec fn idem_store_key(key: Seq<char>) -> Seq<char> {
    spec_idem_key(sha256_hex_of(key))
}

/// The raw stored record for a caller's key, if any.
pub open spec fn idem_cell(m: Map<Seq<char>, Seq<char>>, key: Seq<char>) -> Option<Seq<char>> {
    if m.contains_key(idem_store_key(key)) {
        Some(m[idem_store_key(key)])
    } else {
        None
    }
}

/// Look up the cached response for `key`: the stored response when the
/// stored body hash matches, nothing when no record exists, a conflict
/// when the hashes differ, an internal fault when the record does not
/// read back.
pub fn check_idempotency<S: BlobStore>(store: &S, key: &str, body_hash: &str) -> (r: Result<
    Option<String>,
    DomainError,
>)
    requires
        store.inv(),
    ensures
        match r {
            Ok(Some(resp)) => idem_cell(store.store_view(), key@) matches Some(v)
                && spec_parse_idem(v) == Some((body_hash@, resp@)),
            Ok(None) => idem_cell(store.store_view(), key@) is None,
            Err(e) => idem_cell(store.store_view(), key@) matches Some(v) && (match e {
                DomainError::Conflict(_) => spec_parse_idem(v) matches Some((h, c)) && h
                    != body_hash@,
                DomainError::Internal(_) => spec_parse_idem(v) is None,
                _ => false,
            }),
        },
{
    let h = sha256_hex(key);
    let k = idem_key(h.as_str());
    match store.get(k.as_str()) {
        None => Ok(None),
        Some(raw) => match parse_idem(raw.as_str()) {
            None => Err(
                DomainError::Internal("Failed to deserialize idempotency record".to_owned()),
            ),
            Some((stored_hash, response)) => {
                if str_eq(stored_hash.as_str(), body_hash) {
                    Ok(Some(response))
                } else {
                    Err(
                        DomainError::Conflict(
                            "Idempotency key reused with different body".to_owned(),
                        ),
                    )
                }
            },
        },
    }
}

/// Store the response for `key` so a retried command replays it.  Only
/// the idempotency record changes: every snapshot, index and event cell
/// is untouched.
pub fn store_idempotency<S: BlobStore>(
    store: &mut S,
    key: &str,
    body_hash: &str,
    response: &str,
)
    requires
        old(store).inv(),
    ensures
        final(store).inv(),
        final(store).store_view() == old(store).store_view().insert(
            idem_store_key(key@),
            spec_render_idem(body_hash@, response@),
        ),
        idem_cell(final(store).store_view(), key@) matches Some(v) && spec_parse_idem(v) == Some(
            (body_hash@, response@),
        ),
        forall|id: Seq<char>|
            meta_cell(final(store).store_view(), id) == meta_cell(old(store).store_view(), id),
        forall|id: Seq<char>|
            index_cell(final(store).store_view(), id) == index_cell(old(store).store_view(), id),
        forall|rfq: Seq<char>, ev: EventV|
            key_safe_id(ev_id(ev)) ==> has_event(final(store).store_view(), rfq, ev) == has_event(
                old(store).store_view(),
                rfq,
                ev,
            ),
        forall|rfq: Seq<char>|
            events_area_wf(old(store).store_view(), rfq) ==> events_area_wf(
                final(store).store_view(),
                rfq,
            ),
{
    let h = sha256_hex(key);
    let k = idem_key(h.as_str());
    let record = render_idem(body_hash, response);
    store.put(k, record);
    proof {
        let ik = idem_store_key(key@);
        assert forall|id: Seq<char>| meta_cell(store.store_view(), id) == meta_cell(
            old(store).store_view(),
            id,
        ) by {
            lemma_idem_key_separate(sha256_hex_of(key@), id, 0, seq!['x']);
        }
        assert forall|id: Seq<char>| index_cell(store.store_view(), id) == index_cell(
            old(store).store_view(),
            id,
        ) by {
            lemma_idem_key_separate(sha256_hex_of(key@), id, 0, seq!['x']);
        }
        assert forall|rfq: Seq<char>, ev: EventV| key_safe_id(ev_id(ev)) implies has_event(
            store.store_view(),
            rfq,
            ev,
        ) == has_event(old(store).store_view(), rfq, ev) by {
            lemma_idem_key_separate(sha256_hex_of(key@), rfq, ev_ts(ev), ev_id(ev));
        }
        assert forall|rfq: Seq<char>| events_area_wf(old(store).store_view(), rfq)
            implies events_area_wf(store.store_view(), rfq) by {
            assert forall|kk: Seq<char>|
                #[trigger] store.store_view().contains_key(kk) && has_prefix(
                    kk,
                    crate::keys::spec_events_prefix(rfq),
                ) implies area_entry_ok(store.store_view()[kk], rfq, kk) by {
                if kk == ik {
                    lemma_idem_key_separate(sha256_hex_of(key@), rfq, 0, seq!['x']);
                    assert(false);
                } else {
                    assert(old(store).store_view().contains_key(kk));
                    assert(store.store_view()[kk] == old(store).store_view()[kk]);
                    assert(area_entry_ok(old(store).store_view()[kk], rfq, kk));
                }
            }
        }
    }
}

} // verus!
