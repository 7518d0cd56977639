//! Application configuration as plain data, with the pure helpers on it.
//! Reading the process environment happens at the process edge, not here.

use vstd::prelude::*;

verus! {

#[derive(Debug, Clone, PartialEq, Eq)]
pub struct DatabaseConfig {
    pub dynamodb_table_prefix: String,
    pub region: String,
}

#[derive(Debug, Clone, PartialEq, Eq)]
pub struct AuthConfig {
    pub jwt_secret: String,
    pub jwt_expiration_hours: u64,
    pub password_salt_rounds: u32,
}

#[derive(Debug, Clone, PartialEq, Eq)]
pub struct AwsConfig {
    pub region: String,
    pub access_key_id: Option<String>,
    pub secret_access_key: Option<String>,
}

#[derive(Debug, Clone, PartialEq, Eq)]
pub struct EmailConfig {
    pub smtp_host: String,
    pub smtp_port: u16,
    pub smtp_username: String,
    pub smtp_password: String,
    pub from_email: String,
    pub from_name: String,
}

#[derive(Debug, Clone, PartialEq, Eq)]
pub struct StorageConfig {
    pub s3_bucket: String,
    pub s3_region: String,
    pub max_file_size_mb: usize,
    pub allowed_file_types: Vec<String>,
}

#[derive(Debug, Clone, PartialEq, Eq)]
pub struct PaymentConfig {
    pub stripe_secret_key: String,
    pub stripe_webhook_secret: String,
    pub currency: String,
}

#[derive(Debug, Clone, PartialEq, Eq)]
pub struct AppConfig {
    pub name: String,
    pub version: String,
    pub environment: Environment,
    pub cors_origins: Vec<String>,
    pub rate_limit_requests_per_minute: u32,
}

/// The deployment environment.
#[derive(Debug, Clone, Copy, PartialEq, Eq, Structural)]
pub enum Environment {
    Development,
    Staging,
    Production,
}

/// Application configuration.
#[derive(Debug, Clone, PartialEq, Eq)]
pub struct Config {
    pub database: DatabaseConfig,
    pub auth: AuthConfig,
    pub aws: AwsConfig,
    pub email: EmailConfig,
    pub storage: StorageConfig,
    pub payment: PaymentConfig,
    pub app: AppConfig,
}

impl Config {
    /// The table name under this deployment's prefix.
    pub fn table_name(&self, table: &str) -> (r: String)
        ensures
            r@ == self.database.dynamodb_table_prefix@ + "_"@ + table@,
    {
        let mut s = self.database.dynamodb_table_prefix.clone();
        s.append("_");
        s.append(table);
        s
    }

    /// Whether this deployment is production.
    pub fn is_production(&self) -> (r: bool)
        ensures
            r == (self.app.environment == Environment::Production),
    {
        match self.app.environment {
            Environment::Production => true,
            _ => false,
        }
    }

    /// Whether this deployment is development.
    pub fn is_development(&self) -> (r: bool)
        ensures
            r == (self.app.environment == Environment::Development),
    {
        match self.app.environment {
            Environment::Development => true,
            _ => false,
        }
    }
}

/// The environment a configuration word names.
pub fn parse_environment(s: &str) -> (r: Result<Environment, String>)
    ensures
        ({
            ||| (r matches Ok(Environment::Development) && (s@ == "development"@ || s@ == "dev"@))
            ||| (r matches Ok(Environment::Staging) && (s@ == "staging"@ || s@ == "stage"@))
            ||| (r matches Ok(Environment::Production) && (s@ == "production"@ || s@ == "prod"@))
            ||| (r is Err && s@ != "development"@ && s@ != "dev"@ && s@ != "staging"@ && s@
                != "stage"@ && s@ != "production"@ && s@ != "prod"@)
        }),
{
    if crate::text::str_eq(s, "development") || crate::text::str_eq(s, "dev") {
        Ok(Environment::Development)
    } else if crate::text::str_eq(s, "staging") || crate::text::str_eq(s, "stage") {
        Ok(Environment::Staging)
    } else if crate::text::str_eq(s, "production") || crate::text::str_eq(s, "prod") {
        Ok(Environment::Production)
    } else {
        Err("Invalid environment".to_owned())
    }
}

impl core::str::FromStr for Environment {
    type Err = String;

    fn from_str(s: &str) -> Result<Self, Self::Err> {
        parse_environment(s)
    }
}

} // verus!
