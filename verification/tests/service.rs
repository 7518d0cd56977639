//! The RFQ service commands and queries, end to end over the in-memory
//! store.

use terra_backend::dto::{ContactDto, CreateRfqRequest, PostMessageRequest, RfqEventDto};
use terra_backend::entities::ManufacturerProfile;
use terra_backend::error::DomainError;
use terra_backend::ports::{ManufacturerRepository, MemManufacturerRepository};
use terra_backend::service::{create_rfq, get_rfq, list_events, post_message};
use terra_backend::store::MemStore;

fn sample_profile() -> ManufacturerProfile {
    ManufacturerProfile {
        id: "mfg_ABC12345".to_string(),
        tenant_id: "t1".to_string(),
        name: "Acme Manufacturing".to_string(),
        description: None,
        categories: vec!["machining".to_string()],
        capabilities: None,
        contact_email: Some("sales@acme.example".to_string()),
        media: None,
        offerings: None,
        updated_at: 1_700_000_000_000,
    }
}

fn sample_request() -> CreateRfqRequest {
    CreateRfqRequest {
        tenant_id: "t1".to_string(),
        manufacturer_id: "mfg_ABC12345".to_string(),
        buyer: ContactDto { email: "buyer@x.com".to_string(), name: None },
        subject: "Need 500 units".to_string(),
        body: "Please quote.".to_string(),
        attachments: None,
    }
}

fn setup() -> (MemStore, MemManufacturerRepository) {
    let mut mans = MemManufacturerRepository::new();
    mans.save_manufacturer(sample_profile());
    (MemStore::new(), mans)
}

#[test]
fn test_create_rfq_scenario() {
    // Create, then read the log back: a status event by the system and a
    // message event by the buyer, in order.
    let (mut store, mans) = setup();
    let now = 1_700_000_000_000u64;
    let (resp, notices) = create_rfq(&mut store, &mans, &sample_request(), None, now).unwrap();
    assert!(resp.id.starts_with("r_"));
    assert_eq!(resp.id.len(), 10);
    assert!(chrono::DateTime::parse_from_rfc3339(&resp.last_event_ts).is_ok());
    assert_eq!(
        chrono::DateTime::parse_from_rfc3339(&resp.last_event_ts).unwrap().timestamp_millis(),
        now as i64
    );
    assert_eq!(notices.len(), 1);

    let meta = get_rfq(&store, &resp.id).unwrap().unwrap();
    assert_eq!(meta.tenant_id, "t1");
    assert_eq!(meta.manufacturer_id, "mfg_ABC12345");
    assert_eq!(meta.buyer.email, "buyer@x.com");
    assert_eq!(meta.participants.len(), 2);

    let page = list_events(&store, &resp.id, None, None).unwrap();
    assert_eq!(page.items.len(), 2);
    let mut saw_status = false;
    let mut saw_message = false;
    for item in &page.items {
        match item {
            RfqEventDto::Status { by, status, .. } => {
                assert_eq!(status, "rfq_created");
                assert_eq!(by, "system");
                saw_status = true;
            },
            RfqEventDto::Message { by, body, .. } => {
                assert_eq!(body, "Please quote.");
                assert_eq!(by, "buyer");
                saw_message = true;
            },
            RfqEventDto::Attachment { .. } => panic!("no attachment event was appended"),
        }
    }
    assert!(saw_status && saw_message);
}

#[test]
fn test_post_message_scenario() {
    // A manufacturer reply appends a third event, bumps the count to
    // three, and lists last in chronological order.
    let (mut store, mans) = setup();
    let (resp, _) = create_rfq(&mut store, &mans, &sample_request(), None, 1_000).unwrap();
    let req = PostMessageRequest {
        by: "manufacturer".to_string(),
        body: "We can do 500 units.".to_string(),
        attachments: None,
    };
    let (posted, notices) = post_message(&mut store, &resp.id, &req, None, 2_000).unwrap();
    assert!(chrono::DateTime::parse_from_rfc3339(&posted.ts).is_ok());
    assert_eq!(notices.len(), 1);

    let index = terra_backend::repo::get_rfq_index(&store, &resp.id).unwrap().unwrap();
    assert_eq!(index.count, 3);
    assert_eq!(index.last_event_ts, 2_000);

    let page = list_events(&store, &resp.id, None, None).unwrap();
    assert_eq!(page.items.len(), 3);
    match &page.items[2] {
        RfqEventDto::Message { by, body, .. } => {
            assert_eq!(by, "manufacturer");
            assert_eq!(body, "We can do 500 units.");
        },
        _ => panic!("the reply must list last"),
    }
}

#[test]
fn test_create_rfq_idempotent_replay() {
    // The identical request under the same key answers identically and
    // appends nothing.
    let (mut store, mans) = setup();
    let key = Some("retry-key-1");
    let (r1, _) = create_rfq(&mut store, &mans, &sample_request(), key, 5_000).unwrap();
    let (r2, n2) = create_rfq(&mut store, &mans, &sample_request(), key, 9_999).unwrap();
    assert_eq!(r1, r2);
    assert!(n2.is_empty());
    let page = list_events(&store, &r1.id, None, None).unwrap();
    assert_eq!(page.items.len(), 2);
}

#[test]
fn test_create_rfq_conflict() {
    // The same key with a different body is a conflict.
    let (mut store, mans) = setup();
    let key = Some("retry-key-2");
    create_rfq(&mut store, &mans, &sample_request(), key, 5_000).unwrap();
    let mut other = sample_request();
    other.body = "Please quote twice.".to_string();
    match create_rfq(&mut store, &mans, &other, key, 6_000) {
        Err(DomainError::Conflict(_)) => {},
        _ => panic!("a reused key with another body must conflict"),
    }
}

#[test]
fn test_create_rfq_validation_and_not_found() {
    let (mut store, mans) = setup();
    let mut bad = sample_request();
    bad.buyer.email = "not-an-email".to_string();
    match create_rfq(&mut store, &mans, &bad, None, 1_000) {
        Err(DomainError::ValidationFailed(_)) => {},
        _ => panic!("a bad address must fail validation"),
    }
    let mut unknown = sample_request();
    unknown.manufacturer_id = "mfg_NOBODY99".to_string();
    match create_rfq(&mut store, &mans, &unknown, None, 1_000) {
        Err(DomainError::NotFound(_)) => {},
        _ => panic!("an unknown manufacturer must be absent"),
    }
    let req = PostMessageRequest {
        by: "intruder".to_string(),
        body: "hello".to_string(),
        attachments: None,
    };
    let (resp, _) = create_rfq(&mut store, &mans, &sample_request(), None, 1_000).unwrap();
    match post_message(&mut store, &resp.id, &req, None, 2_000) {
        Err(DomainError::ValidationFailed(_)) => {},
        _ => panic!("an unknown author role must fail validation"),
    }
    match post_message(&mut store, "r_MISSING9", &req, None, 2_000) {
        Err(DomainError::NotFound(_)) => {},
        _ => panic!("an absent RFQ is reported before the author role is read"),
    }
}

#[test]
fn test_create_rfq_with_attachments() {
    let (mut store, mans) = setup();
    let mut req = sample_request();
    req.attachments = Some(vec![terra_backend::dto::AttachmentDto {
        upload_key: "tenants/t1/images/raw/u1".to_string(),
        file_name: "drawing.pdf".to_string(),
        content_type: "application/pdf".to_string(),
        size_bytes: 2048,
    }]);
    let (resp, _) = create_rfq(&mut store, &mans, &req, None, 1_000).unwrap();
    let index = terra_backend::repo::get_rfq_index(&store, &resp.id).unwrap().unwrap();
    assert_eq!(index.count, 3);
    let page = list_events(&store, &resp.id, None, None).unwrap();
    assert_eq!(page.items.len(), 3);
    let meta = get_rfq(&store, &resp.id).unwrap().unwrap();
    let atts = meta.attachments.unwrap();
    assert_eq!(atts.len(), 1);
    assert_eq!(atts[0].file_name, "drawing.pdf");
    // An empty list is the same as no attachments at all.
    let mut req2 = sample_request();
    req2.attachments = Some(vec![]);
    let (resp2, _) = create_rfq(&mut store, &mans, &req2, None, 1_000).unwrap();
    let page2 = list_events(&store, &resp2.id, None, None).unwrap();
    assert_eq!(page2.items.len(), 2);
}
