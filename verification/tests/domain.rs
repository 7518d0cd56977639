//! Value objects and the event model.

use terra_backend::value_objects::{ContentType, Email, FileSize, ManufacturerId, MessageBody, RfqId, S3Key, TenantId};

#[test]
fn test_email_validation() {
    assert!(Email::new("test@example.com").is_ok());
    assert!(Email::new("user+tag@domain.co.uk").is_ok());
    assert!(Email::new("invalid-email").is_err());
    assert!(Email::new("@example.com").is_err());
    assert!(Email::new("test@").is_err());
    assert!(Email::new("").is_err());
}

#[test]
fn test_rfq_id_generation() {
    let rfq_id = RfqId::generate();
    assert!(rfq_id.as_str().starts_with("r_"));
    assert_eq!(rfq_id.as_str().len(), 10);
    let rfq_id2 = RfqId::generate();
    assert_ne!(rfq_id.as_str(), rfq_id2.as_str());
}

#[test]
fn test_manufacturer_id_generation() {
    let mfg_id = ManufacturerId::generate();
    assert!(mfg_id.as_str().starts_with("mfg_"));
    let mfg_id2 = ManufacturerId::generate();
    assert_ne!(mfg_id.as_str(), mfg_id2.as_str());
}

#[test]
fn test_content_type_validation() {
    assert!(ContentType::new("image/jpeg").is_ok());
    assert!(ContentType::new("image/png").is_ok());
    assert!(ContentType::new("application/pdf").is_ok());
    assert!(ContentType::new("application/javascript").is_err());
    assert!(ContentType::new("text/html").is_err());
    assert!(ContentType::new("").is_err());
}

#[test]
fn test_file_size_validation() {
    assert!(FileSize::new(1024).is_ok());
    assert!(FileSize::new(15 * 1024 * 1024).is_ok());
    assert!(FileSize::new(0).is_err());
    assert!(FileSize::new(16 * 1024 * 1024).is_err());
}

#[test]
fn test_file_size_limits() {
    let max_size = 15 * 1024 * 1024;
    assert!(FileSize::new(1024).is_ok());
    assert!(FileSize::new(max_size).is_ok());
    assert!(FileSize::new(max_size + 1).is_err());
    assert!(FileSize::new(0).is_err());
}

#[test]
fn test_content_type_validation_in_image_service() {
    let valid_types = vec!["image/jpeg", "image/png", "image/webp", "image/avif", "application/pdf"];
    for content_type in valid_types {
        assert!(ContentType::new(content_type).is_ok(), "Expected {} to be valid", content_type);
    }
    let invalid_types = vec!["application/javascript", "text/html", "video/mp4", "audio/mpeg"];
    for content_type in invalid_types {
        assert!(ContentType::new(content_type).is_err(), "Expected {} to be invalid", content_type);
    }
}

#[test]
fn test_message_body_boundaries() {
    assert!(MessageBody::new("").is_err());
    let exactly = "a".repeat(8000);
    assert!(MessageBody::new(&exactly).is_ok());
    let over = "a".repeat(8001);
    assert!(MessageBody::new(&over).is_err());
    assert!(MessageBody::new("no tags here").is_ok());
    assert!(MessageBody::new("a < b and b > c").is_err());
    assert!(MessageBody::new("a < b only").is_ok());
}

#[test]
fn test_tenant_and_s3_key_rules() {
    assert!(TenantId::new("t1").is_ok());
    assert!(TenantId::new("").is_err());
    assert!(TenantId::new(&"x".repeat(51)).is_err());
    assert!(TenantId::new("bad tenant!").is_err());
    assert!(S3Key::new("tenants/t1/images/raw/abc").is_ok());
    assert!(S3Key::new("/leading").is_err());
    assert!(S3Key::new("double//slash").is_err());
    assert!(S3Key::new("").is_err());
    assert!(ContentType::new("image/webp").unwrap().is_image());
    assert!(!ContentType::new("application/pdf").unwrap().is_image());
}
