//! The marketplace surface: configuration, errors, auth helpers.

use terra_backend::auth::{AuthService, Claims};
use terra_backend::config::{AppConfig, AuthConfig, AwsConfig, Config, DatabaseConfig, EmailConfig, Environment, PaymentConfig, StorageConfig};
use terra_backend::errors::ApiError;
use terra_backend::utils::{calculate_offset, is_valid_email, is_valid_file_extension, parse_pagination_params, sanitize_string, validate_password_strength};

fn sample_config() -> Config {
    Config {
        database: DatabaseConfig { dynamodb_table_prefix: "test".to_string(), region: "us-east-1".to_string() },
        auth: AuthConfig { jwt_secret: "secret".to_string(), jwt_expiration_hours: 24, password_salt_rounds: 12 },
        aws: AwsConfig { region: "us-east-1".to_string(), access_key_id: None, secret_access_key: None },
        email: EmailConfig {
            smtp_host: "smtp.gmail.com".to_string(),
            smtp_port: 587,
            smtp_username: "".to_string(),
            smtp_password: "".to_string(),
            from_email: "test@example.com".to_string(),
            from_name: "Test".to_string(),
        },
        storage: StorageConfig {
            s3_bucket: "test-bucket".to_string(),
            s3_region: "us-east-1".to_string(),
            max_file_size_mb: 10,
            allowed_file_types: vec!["jpg".to_string(), "png".to_string()],
        },
        payment: PaymentConfig { stripe_secret_key: "".to_string(), stripe_webhook_secret: "".to_string(), currency: "usd".to_string() },
        app: AppConfig {
            name: "Test App".to_string(),
            version: "1.0.0".to_string(),
            environment: Environment::Development,
            cors_origins: vec!["http://localhost:3000".to_string()],
            rate_limit_requests_per_minute: 100,
        },
    }
}

#[test]
fn test_config_creation() {
    let config = terra_backend::infra::Config {
        environment: "test".to_string(),
        public_bucket: "test-public-bucket".to_string(),
        private_bucket: "test-private-bucket".to_string(),
        from_email: "test@example.com".to_string(),
    };
    assert_eq!(config.environment, "test");
    assert_eq!(config.public_bucket, "test-public-bucket");
    assert_eq!(config.private_bucket, "test-private-bucket");
    assert_eq!(config.from_email, "test@example.com");
}

#[test]
fn test_environment_parsing() {
    assert_eq!("development".parse::<Environment>().unwrap(), Environment::Development);
    assert_eq!("staging".parse::<Environment>().unwrap(), Environment::Staging);
    assert_eq!("production".parse::<Environment>().unwrap(), Environment::Production);
    assert!("invalid".parse::<Environment>().is_err());
}

#[test]
fn test_table_name() {
    let config = sample_config();
    assert_eq!(config.table_name("products"), "test_products");
    assert!(config.is_development());
    assert!(!config.is_production());
}

#[test]
fn test_error_codes() {
    assert_eq!(ApiError::ValidationError("test".to_string()).error_code(), "VALIDATION_ERROR");
    assert_eq!(ApiError::NotFound("test".to_string()).error_code(), "NOT_FOUND");
    assert_eq!(ApiError::AuthenticationFailed("test".to_string()).error_code(), "AUTHENTICATION_FAILED");
}

#[test]
fn test_error_status_codes() {
    assert_eq!(ApiError::ValidationError("test".to_string()).status_code(), 400);
    assert_eq!(ApiError::NotFound("test".to_string()).status_code(), 404);
    assert_eq!(ApiError::AuthenticationFailed("test".to_string()).status_code(), 401);
}

#[test]
fn test_extract_token_from_header() {
    let header = "Bearer eyJhbGciOiJIUzI1NiJ9.test";
    let token = AuthService::extract_token_from_header(header).unwrap();
    assert_eq!(token, "eyJhbGciOiJIUzI1NiJ9.test");
    let invalid_header = "Invalid header";
    assert!(AuthService::extract_token_from_header(invalid_header).is_err());
}

#[test]
fn test_require_seller() {
    let seller_claims = Claims {
        sub: "u1".to_string(),
        email: "seller@example.com".to_string(),
        username: "seller".to_string(),
        is_seller: true,
        exp: 0,
        iat: 0,
    };
    assert!(terra_backend::auth::require_seller(&seller_claims).is_ok());
    let buyer_claims = Claims {
        sub: "u2".to_string(),
        email: "buyer@example.com".to_string(),
        username: "buyer".to_string(),
        is_seller: false,
        exp: 0,
        iat: 0,
    };
    assert!(terra_backend::auth::require_seller(&buyer_claims).is_err());
}

#[test]
fn test_is_valid_email() {
    assert!(is_valid_email("test@example.com"));
    assert!(is_valid_email("user.name@domain.co.uk"));
    assert!(!is_valid_email("invalid"));
    assert!(!is_valid_email("user@"));
}

#[test]
fn test_parse_pagination_params() {
    assert_eq!(parse_pagination_params(Some(1), Some(10)), (1, 10));
    assert_eq!(parse_pagination_params(None, None), (1, 20));
    assert_eq!(parse_pagination_params(Some(0), Some(200)), (1, 100));
}

#[test]
fn test_calculate_offset() {
    assert_eq!(calculate_offset(1, 10), 0);
    assert_eq!(calculate_offset(2, 10), 10);
    assert_eq!(calculate_offset(3, 25), 50);
}

#[test]
fn test_sanitize_string() {
    assert_eq!(sanitize_string("  hello world  "), "hello world");
    assert_eq!(sanitize_string("\t\ntest\r\n"), "test");
}

#[test]
fn test_is_valid_file_extension() {
    let allowed = vec!["jpg".to_string(), "png".to_string(), "gif".to_string()];
    assert!(is_valid_file_extension("image.jpg", &allowed));
    assert!(is_valid_file_extension("photo.PNG", &allowed));
    assert!(!is_valid_file_extension("document.pdf", &allowed));
    assert!(!is_valid_file_extension("noextension", &allowed));
}

#[test]
fn test_validate_password_strength() {
    assert!(validate_password_strength("Password123").is_ok());
    assert!(validate_password_strength("short").is_err());
    assert!(validate_password_strength("alllowercase123").is_err());
    assert!(validate_password_strength("ALLUPPERCASE123").is_err());
    assert!(validate_password_strength("NoNumbers").is_err());
}

#[test]
fn test_idempotency_key_validation() {
    let valid_key = "user-action-2024-01-01";
    assert!(valid_key.len() > 0 && valid_key.len() <= 255);
    assert!(valid_key.chars().all(|c| c.is_alphanumeric() || c == '-' || c == '_'));
    let invalid_key = "";
    assert!(invalid_key.is_empty());
    let too_long = "a".repeat(256);
    assert!(too_long.len() > 255);
}

#[test]
fn test_rate_limiting_headers() {
    let rate_limit_headers = vec![
        ("X-RateLimit-Limit", "10"),
        ("X-RateLimit-Remaining", "5"),
        ("X-RateLimit-Reset", "1640995200"),
    ];
    for (header_name, header_value) in rate_limit_headers {
        assert!(!header_name.is_empty());
        assert!(!header_value.is_empty());
        assert!(header_name.starts_with("X-RateLimit-"));
    }
}

#[test]
fn test_content_type_validation_middleware() {
    let valid_json_type = "application/json";
    let valid_form_type = "multipart/form-data";
    assert_eq!(valid_json_type, "application/json");
    assert!(valid_form_type.starts_with("multipart/"));
    let invalid_types = vec!["text/html", "application/xml", "image/jpeg"];
    for invalid_type in invalid_types {
        assert_ne!(invalid_type, "application/json");
    }
}
