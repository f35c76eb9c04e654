use vstd::prelude::*;
use vstd::string::StringExecFns;

verus! {

/// Connection settings for the download-log metrics store.
pub struct InfluxConfig {
    pub url: String,
    pub token: String,
    pub org: String,
    pub bucket: String,
}

/// Credentials for one OneDrive account.
#[derive(Clone)]
pub struct OnedriveConfig {
    pub drive_type: String,
    pub refresh_token: String,
    pub client_id: String,
    pub client_secret: String,
}

/// One configured drive.
#[derive(Clone)]
pub enum DriveConfig {
    Onedrive(OnedriveConfig),
}

pub struct EncryptionConfig {
    pub enabled: bool,
    pub method: EncryptMethod,
    pub key: String,
}

pub enum EncryptMethod {
    RSA,
}

/// Snapshot refresh settings; the interval is in seconds.
pub struct CacheSetting {
    pub refresh_interval: u64,
}

/// Which captcha service guards downloads, if any.
pub enum SupportedCaptcha {
    CloudflareTurnstile,
}

pub struct CaptchaConfig {
    pub enabled: bool,
    pub service: SupportedCaptcha,
    pub key: String,
}

/// The raw configuration file: optional sections still unset.
pub struct ConfigFile {
    pub influx: Option<InfluxConfig>,
    pub drives: Vec<DriveConfig>,
    pub encryption: Option<EncryptionConfig>,
    pub cache: Option<CacheSetting>,
    pub captcha: Option<CaptchaConfig>,
}

/// The effective configuration, defaults applied.
pub struct Config {
    pub influx: Option<InfluxConfig>,
    pub drives: Vec<DriveConfig>,
    pub cache: CacheSetting,
    pub captcha: Option<CaptchaConfig>,
}

/// The refresh interval used when the file does not set one.
pub const DEFAULT_REFRESH_INTERVAL: u64 = 600;

impl Config {
    /// Applies the defaults to a parsed configuration file: a missing cache
    /// section means the default refresh interval.
    pub fn from_file(file: ConfigFile) -> (r: Config)
        ensures
            file.cache is None ==> r.cache.refresh_interval == DEFAULT_REFRESH_INTERVAL,
            forall|c: CacheSetting| file.cache == Some(c) ==> r.cache == c,
            r.influx == file.influx,
            r.drives == file.drives,
            r.captcha == file.captcha,
    {
        let ConfigFile { influx, drives, encryption: _, cache, captcha } = file;
        match cache {
            None => Config {
                influx,
                drives,
                cache: CacheSetting { refresh_interval: DEFAULT_REFRESH_INTERVAL },
                captcha,
            },
            Some(cache) => Config { influx, drives, cache, captcha },
        }
    }
}

impl DriveConfig {
    /// Validates the fields collected from one drive section: only the
    /// `onedrive` drive type is supported.
    pub fn from_parts(
        drive_type: String,
        refresh_token: String,
        client_id: String,
        client_secret: String,
    ) -> (r: Result<DriveConfig, ConfigError>)
        ensures
            drive_type@ == "onedrive"@ <==> r is Ok,
            forall|c: DriveConfig|
                r == Ok::<DriveConfig, ConfigError>(c) ==> (c matches DriveConfig::Onedrive(o)
                    && o.drive_type@ == drive_type@ && o.refresh_token@ == refresh_token@
                    && o.client_id@ == client_id@ && o.client_secret@ == client_secret@),
            r is Err ==> r == Err::<DriveConfig, ConfigError>(ConfigError::UnsupportedDriveType),
    {
        let expected = String::from_str("onedrive");
        if drive_type == expected {
            Ok(
                DriveConfig::Onedrive(
                    OnedriveConfig { drive_type, refresh_token, client_id, client_secret },
                ),
            )
        } else {
            Err(ConfigError::UnsupportedDriveType)
        }
    }
}

/// Why a configuration section was rejected.
pub enum ConfigError {
    UnsupportedDriveType,
}

} // verus!
