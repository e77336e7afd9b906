//! The application's name, version and addresses.
use vstd::prelude::*;
use crate::chars::{extend_str, lit, string_of};

verus! {

/// The application id: GApplication, `.desktop`, icons, D-Bus.
pub const APP_ID: &'static str = "app.melogold.Melogold";

/// The version; the package's one.
pub const VERSION: &'static str = "0.4.0";

pub const REPOSITORY_URL: &'static str = "https://github.com/melogold-app/melogoldLinux";

pub const ISSUES_URL: &'static str = "https://github.com/melogold-app/melogoldLinux/issues";

/// `platform` in `DeviceInput` and in the server's User-Agent.
pub const PLATFORM: &'static str = "linux";

/// The working server by default: a build constant.
pub const DEFAULT_SERVER_URL: &'static str = "https://178-250-187-202.sslip.io";

/// The User-Agent of requests to the Melogold server: `melogold-linux/<semver>`.
pub fn server_user_agent() -> (r: String)
    ensures
        r@ == "melogold-"@ + PLATFORM@ + "/"@ + VERSION@,
{
    let mut v = lit("melogold-");
    extend_str(&mut v, PLATFORM);
    extend_str(&mut v, "/");
    extend_str(&mut v, VERSION);
    string_of(&v)
}

/// The User-Agent for LrcLib, KuGou and GitHub.
pub fn tool_user_agent() -> (r: String)
    ensures
        r@ == "Melogold/"@ + VERSION@ + " (+"@ + REPOSITORY_URL@ + ")"@,
{
    let mut v = lit("Melogold/");
    extend_str(&mut v, VERSION);
    extend_str(&mut v, " (+");
    extend_str(&mut v, REPOSITORY_URL);
    extend_str(&mut v, ")");
    string_of(&v)
}

} // verus!
