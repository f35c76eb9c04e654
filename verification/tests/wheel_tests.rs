use unidrive::captcha::{load_captcha, CaptchaService, CloudflareTurnstile, NoCaptcha, Verify};
use unidrive::config_loader::{
    CacheSetting, CaptchaConfig, Config, ConfigFile, DriveConfig, SupportedCaptcha,
};
use unidrive::drive_wheel::{DriveWheel, Snapshot, StopSignal};
use unidrive::path_compress::TryPathResult;
use unidrive::side_effects::LogEffect;
use unidrive::vfs::{CombinableVfsDir, CombinableVfsFile};

fn file(name: &str, size: u64, lm: i64, links: Vec<&str>) -> CombinableVfsFile {
    CombinableVfsFile::new(
        links.into_iter().map(|l| l.to_string()).collect(),
        name.to_string(),
        size,
        lm,
    )
}

fn root_with(file_name: &str) -> CombinableVfsDir {
    CombinableVfsDir::new(
        "".to_string(),
        vec![],
        vec![file(file_name, 1, 1, vec!["https://dl/x"])],
        0,
    )
}

#[test]
fn snapshot_build_with_no_trees_serves_empty_aggregate() {
    let snapshot = Snapshot::build(vec![]);
    assert_eq!(snapshot.tree().name, "");
    assert_eq!(snapshot.tree().sub_dirs.len(), 0);
    assert_eq!(snapshot.tree().files.len(), 0);
    assert!(matches!(snapshot.index.try_path("/anything"), TryPathResult::NotFound));
}

#[test]
fn wheel_serves_first_snapshot_and_publishes_refresh() {
    let mut wheel = DriveWheel::new(vec![], vec![root_with("old.txt")]);
    assert!(matches!(wheel.get_snapshot().index.try_path("/old.txt"), TryPathResult::File(_)));
    wheel.refresh(vec![root_with("new.txt")]);
    assert!(matches!(wheel.get_snapshot().index.try_path("/old.txt"), TryPathResult::NotFound));
    assert!(matches!(wheel.get_snapshot().index.try_path("/new.txt"), TryPathResult::File(_)));
}

// A reader that took its snapshot before a publish keeps seeing the old
// tree; a reader that starts after the publish sees only the new one.
#[test]
fn reader_keeps_old_snapshot_across_publish() {
    let mut wheel = DriveWheel::new(vec![], vec![root_with("old.txt")]);
    let reader = wheel.get_snapshot().clone();
    wheel.refresh(vec![root_with("new.txt")]);
    assert!(matches!(reader.index.try_path("/old.txt"), TryPathResult::File(_)));
    assert!(matches!(reader.index.try_path("/new.txt"), TryPathResult::NotFound));
    let late_reader = wheel.get_snapshot();
    assert!(matches!(late_reader.index.try_path("/new.txt"), TryPathResult::File(_)));
    assert!(matches!(late_reader.index.try_path("/old.txt"), TryPathResult::NotFound));
}

#[test]
fn stop_signal_starts_low_and_latches() {
    let mut s = StopSignal::new();
    assert!(!s.is_stop());
    s.stop();
    assert!(s.is_stop());
}

#[test]
fn config_defaults_refresh_interval() {
    let cfg = Config::from_file(ConfigFile {
        influx: None,
        drives: vec![],
        encryption: None,
        cache: None,
        captcha: None,
    });
    assert_eq!(cfg.cache.refresh_interval, 600);
}

#[test]
fn config_keeps_explicit_refresh_interval() {
    let cfg = Config::from_file(ConfigFile {
        influx: None,
        drives: vec![],
        encryption: None,
        cache: Some(CacheSetting { refresh_interval: 42 }),
        captcha: None,
    });
    assert_eq!(cfg.cache.refresh_interval, 42);
}

#[test]
fn drive_config_from_parts_accepts_onedrive() {
    let r = DriveConfig::from_parts(
        "onedrive".to_string(),
        "someToken".to_string(),
        "someId".to_string(),
        "secret".to_string(),
    );
    match r {
        Ok(DriveConfig::Onedrive(c)) => {
            assert_eq!(c.drive_type, "onedrive");
            assert_eq!(c.refresh_token, "someToken");
            assert_eq!(c.client_id, "someId");
            assert_eq!(c.client_secret, "secret");
        }
        _ => panic!("Expected Onedrive config"),
    }
}

#[test]
fn drive_config_from_parts_rejects_other_types() {
    let r = DriveConfig::from_parts(
        "gdrive".to_string(),
        "t".to_string(),
        "i".to_string(),
        "s".to_string(),
    );
    assert!(r.is_err());
}

#[test]
fn no_captcha_when_unconfigured_or_disabled() {
    assert!(matches!(load_captcha(None), CaptchaService::NoCaptcha(_)));
    let disabled = CaptchaConfig {
        enabled: false,
        service: SupportedCaptcha::CloudflareTurnstile,
        key: "k".to_string(),
    };
    assert!(matches!(load_captcha(Some(disabled)), CaptchaService::NoCaptcha(_)));
}

#[test]
fn turnstile_when_enabled() {
    let enabled = CaptchaConfig {
        enabled: true,
        service: SupportedCaptcha::CloudflareTurnstile,
        key: "site-key".to_string(),
    };
    match load_captcha(Some(enabled)) {
        CaptchaService::Turnstile(t) => assert_eq!(t.secret, "site-key"),
        _ => panic!("expected the turnstile service"),
    }
}

#[test]
fn captcha_decisions() {
    assert!(NoCaptcha.verify_decision(false));
    assert!(NoCaptcha.verify_decision(true));
    let t = CloudflareTurnstile::new("s".to_string());
    assert!(t.verify_decision(true));
    assert!(!t.verify_decision(false));
}

#[test]
fn log_effect_enabled_only_with_config() {
    let off = LogEffect::new(None);
    assert!(!off.is_enabled());
    let on = LogEffect::new(Some(unidrive::config_loader::InfluxConfig {
        url: "http://localhost:8086".to_string(),
        token: "t".to_string(),
        org: "o".to_string(),
        bucket: "b".to_string(),
    }));
    assert!(on.is_enabled());
}
