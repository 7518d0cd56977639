//! The key layout, the wire format, and ordered retrieval over the
//! in-memory store.

use terra_backend::events::{EventAuthor, RfqEvent, StatusType};
use terra_backend::event_codec::{parse_event, render_event};
use terra_backend::keys;
use terra_backend::repo;
use terra_backend::store::MemStore;
use terra_backend::value_objects::{ManufacturerId, RfqId};
use terra_backend::entities::{Contact, Participant, ParticipantRole, RfqIndex, RfqMeta, RfqStatus};

#[test]
fn test_s3_key_formatting() {
    let rfq_id = RfqId::generate();
    let manufacturer_id = ManufacturerId::generate();
    let rfq_meta_key = keys::meta_key(rfq_id.as_str());
    assert!(rfq_meta_key.starts_with("rfq/"));
    assert!(rfq_meta_key.ends_with("/meta"));
    let mfg_key = keys::manufacturer_key(manufacturer_id.as_str());
    assert!(mfg_key.starts_with("manufacturer/"));
}

#[test]
fn test_catalog_key_generation() {
    let category = "machining";
    let state = "OH";
    let category_key = keys::category_key(category);
    assert_eq!(category_key, "catalog/category/machining");
    let category_state_key = keys::category_state_key(category, state);
    assert_eq!(category_state_key, "catalog/category_state/machining/OH");
    let manufacturer_id = ManufacturerId::generate();
    let mfg_key = keys::manufacturer_key(manufacturer_id.as_str());
    assert!(mfg_key.starts_with("manufacturer/mfg_"));
}

#[test]
fn test_image_manifest_key_generation() {
    let image_id = "test-image-123";
    let key = format!("tenants/shared/manifests/{}.json", image_id);
    assert_eq!(key, "tenants/shared/manifests/test-image-123.json");
    assert!(key.starts_with("tenants/"));
    assert!(key.contains("/manifests/"));
}

#[test]
fn test_event_key_generation() {
    let rfq_id = RfqId::generate();
    let event = RfqEvent::new_message(rfq_id.as_str().to_string(), EventAuthor::Buyer, "hello".to_string(), 1_700_000_000_000);
    let key = keys::event_key(rfq_id.as_str(), event.timestamp(), event.id());
    assert!(key.starts_with("rfq/"));
    assert!(key.contains("/events/"));
    assert!(key.contains(event.id()));
}

#[test]
fn test_event_round_trip() {
    let e = RfqEvent::new_message("r_AB12CD34".to_string(), EventAuthor::Buyer, "Please quote. \"specials\" \\ <ok\n".to_string(), 1_700_000_000_123);
    let wire = render_event(&e);
    let back = parse_event(&wire).expect("canonical record must parse");
    assert_eq!(back, e);
    let s = RfqEvent::new_status("r_AB12CD34".to_string(), EventAuthor::System, StatusType::RfqCreated, None, 7);
    let wire_s = render_event(&s);
    assert_eq!(parse_event(&wire_s).expect("status record must parse"), s);
}

#[test]
fn test_event_wire_shape() {
    // The discriminant and flattened base fields are what outside
    // consumers read; check them with an independent JSON parser.
    let e = RfqEvent::new_message("r_AB12CD34".to_string(), EventAuthor::Buyer, "Please quote.".to_string(), 0);
    let wire = render_event(&e);
    let v: serde_json::Value = serde_json::from_str(&wire).expect("valid JSON");
    assert_eq!(v["type"], "message");
    assert_eq!(v["rfq_id"], "r_AB12CD34");
    assert_eq!(v["by"], "buyer");
    assert_eq!(v["body"], "Please quote.");
    assert_eq!(v["ts"], "1970-01-01T00:00:00+00:00");
}

#[test]
fn test_list_events_sorted() {
    // Insert out of chronological order; the listing re-sorts by (ts, id).
    let mut store = MemStore::new();
    let r = "r_SORT0001";
    let e3 = RfqEvent::new_message(r.to_string(), EventAuthor::Buyer, "three".to_string(), 3000);
    let e1 = RfqEvent::new_status(r.to_string(), EventAuthor::System, StatusType::RfqCreated, None, 1000);
    let e2 = RfqEvent::new_message(r.to_string(), EventAuthor::Manufacturer, "two".to_string(), 2000);
    repo::save_rfq_event(&mut store, &e3);
    repo::save_rfq_event(&mut store, &e1);
    repo::save_rfq_event(&mut store, &e2);
    let listed = repo::list_rfq_events(&store, r, None, None);
    assert_eq!(listed.len(), 3);
    assert_eq!(listed[0].timestamp(), 1000);
    assert_eq!(listed[1].timestamp(), 2000);
    assert_eq!(listed[2].timestamp(), 3000);
    // Tie on the timestamp: identifiers break it.
    let t1 = RfqEvent::new_message(r.to_string(), EventAuthor::Buyer, "tie-a".to_string(), 2000);
    repo::save_rfq_event(&mut store, &t1);
    let listed2 = repo::list_rfq_events(&store, r, None, None);
    assert_eq!(listed2.len(), 4);
    for w in listed2.windows(2) {
        assert!(
            w[0].timestamp() < w[1].timestamp()
                || (w[0].timestamp() == w[1].timestamp() && w[0].id() <= w[1].id())
        );
    }
}

#[test]
fn test_list_events_pagination() {
    // A page of one, then the rest from the cursor: no duplicates, no gaps.
    let mut store = MemStore::new();
    let r = "r_PAGE0001";
    let e1 = RfqEvent::new_message(r.to_string(), EventAuthor::Buyer, "one".to_string(), 1000);
    let e2 = RfqEvent::new_message(r.to_string(), EventAuthor::Buyer, "two".to_string(), 2000);
    let e3 = RfqEvent::new_message(r.to_string(), EventAuthor::Buyer, "three".to_string(), 3000);
    repo::save_rfq_event(&mut store, &e2);
    repo::save_rfq_event(&mut store, &e3);
    repo::save_rfq_event(&mut store, &e1);
    let page1 = repo::list_rfq_events(&store, r, None, Some(1));
    assert_eq!(page1.len(), 1);
    assert_eq!(page1[0].timestamp(), 1000);
    let cursor = page1[0].timestamp();
    let page2 = repo::list_rfq_events(&store, r, Some(cursor), None);
    assert_eq!(page2.len(), 2);
    assert_eq!(page2[0].timestamp(), 2000);
    assert_eq!(page2[1].timestamp(), 3000);
}

#[test]
fn test_meta_and_index_round_trip() {
    let mut store = MemStore::new();
    let meta = RfqMeta {
        id: "r_AB12CD34".to_string(),
        tenant_id: "t1".to_string(),
        manufacturer_id: "mfg_ABC12345".to_string(),
        buyer: Contact { email: "buyer@x.com".to_string(), name: None },
        subject: "Need 500 units".to_string(),
        status: RfqStatus::Open,
        created_at: 1_700_000_000_000,
        last_event_ts: 1_700_000_000_000,
        participants: vec![
            Participant { role: ParticipantRole::Buyer, email: "buyer@x.com".to_string(), name: None },
            Participant { role: ParticipantRole::Manufacturer, email: "sales@mfg.example".to_string(), name: Some("Mfg".to_string()) },
        ],
        attachments: None,
    };
    repo::save_rfq_meta(&mut store, &meta);
    let loaded = repo::get_rfq_meta(&store, "r_AB12CD34").unwrap().unwrap();
    assert_eq!(loaded, meta);
    assert!(repo::get_rfq_meta(&store, "r_MISSING1").unwrap().is_none());
    let index = RfqIndex { last_event_ts: 1_700_000_000_000, count: 2 };
    repo::save_rfq_index(&mut store, "r_AB12CD34", &index);
    let loaded_idx = repo::get_rfq_index(&store, "r_AB12CD34").unwrap().unwrap();
    assert_eq!(loaded_idx, index);
}
