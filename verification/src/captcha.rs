use vstd::prelude::*;

use crate::config_loader::{CaptchaConfig, SupportedCaptcha};

verus! {

/// A captcha verdict oracle. Implementations that stand for "no captcha
/// configured" must always answer `true`.
pub trait Verify: Sized {
    /// Whether this verifier waves every request through.
    spec fn always_passes(&self) -> bool;

    fn verify_decision(&self, passed_remote_check: bool) -> (r: bool)
        ensures
            self.always_passes() ==> r,
            !self.always_passes() ==> r == passed_remote_check,
    ;
}

/// The verifier used when no captcha is configured: every request passes.
pub struct NoCaptcha;

impl Verify for NoCaptcha {
    open spec fn always_passes(&self) -> bool {
        true
    }

    fn verify_decision(&self, _passed_remote_check: bool) -> (r: bool) {
        true
    }
}

/// Cloudflare Turnstile: the verdict is whatever the remote check said.
pub struct CloudflareTurnstile {
    pub secret: String,
}

impl CloudflareTurnstile {
    pub fn new(secret: String) -> (r: Self)
        ensures
            r.secret@ == secret@,
    {
        CloudflareTurnstile { secret }
    }
}

impl Verify for CloudflareTurnstile {
    open spec fn always_passes(&self) -> bool {
        false
    }

    fn verify_decision(&self, passed_remote_check: bool) -> (r: bool) {
        passed_remote_check
    }
}

/// The captcha service chosen from the configuration.
pub enum CaptchaService {
    NoCaptcha(NoCaptcha),
    Turnstile(CloudflareTurnstile),
}

/// Chooses the captcha service: absent or disabled configuration means no
/// captcha; an enabled Turnstile section carries its site key.
pub fn load_captcha(captcha_config: Option<CaptchaConfig>) -> (r: CaptchaService)
    ensures
        captcha_config is None ==> r is NoCaptcha,
        forall|c: CaptchaConfig|
            captcha_config == Some(c) && !c.enabled ==> r is NoCaptcha,
        forall|c: CaptchaConfig|
            captcha_config == Some(c) && c.enabled ==> (r matches CaptchaService::Turnstile(t)
                && t.secret@ == c.key@),
{
    match captcha_config {
        Some(config) => {
            if !config.enabled {
                CaptchaService::NoCaptcha(NoCaptcha)
            } else {
                match config.service {
                    SupportedCaptcha::CloudflareTurnstile => CaptchaService::Turnstile(
                        CloudflareTurnstile::new(config.key),
                    ),
                }
            }
        },
        None => CaptchaService::NoCaptcha(NoCaptcha),
    }
}

} // verus!
