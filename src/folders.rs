//! Standard configuration paths.

use vstd::prelude::*;
use crate::text::{chars_of, push_str_chars, same_chars, string_of};

verus! {

/// Application details, used for paths on some platforms.
pub struct AppDetails {
    pub name: String,
    pub organization: String,
    pub tld: String,
}

/// Why no configuration path could be given.
#[derive(PartialEq, Eq, Structural, Clone, Copy, Debug)]
pub enum ConfigError {
    UnsupportedPlatform,
}

impl ConfigError {
    /// The message describing the error.
    pub fn message(&self) -> (r: String)
        ensures
            r@ == "Unsupported platform for system configuration path"@,
    {
        String::from_str("Unsupported platform for system configuration path")
    }
}

/// The system path for the application's configuration on `platform` (the
/// operating system's name as `std::env::consts::OS` gives it): only Linux
/// has one, `/etc/<name>`.
pub fn system_configuration(app: &AppDetails, platform: &str) -> (r: Result<String, ConfigError>)
    ensures
        platform@ == "linux"@ ==> (r matches Ok(p) && p@ == "/etc/"@ + app.name@),
        platform@ != "linux"@ ==> r == Err::<String, ConfigError>(ConfigError::UnsupportedPlatform),
{
    let linux = chars_of("linux");
    if same_chars(&chars_of(platform), &linux) {
        let mut p = chars_of("/etc/");
        push_str_chars(&mut p, app.name.as_str());
        Ok(string_of(&p))
    } else {
        Err(ConfigError::UnsupportedPlatform)
    }
}

} // verus!
