//! The application settings that drive page titles and authentication.

use vstd::prelude::*;

verus! {

/// Application settings.
pub struct Settings {
    pub title: String,
    pub auth: Option<Auth>,
}

/// How members authenticate.
pub struct Auth {
    pub anonymous: Option<bool>,
    pub proxy: Option<Proxy>,
}

/// Authentication by a reverse proxy that names the member in a header.
pub struct Proxy {
    pub enabled: bool,
    pub auto_sign_up: bool,
    pub headers: ProxyHeaders,
}

/// The names of the headers the proxy fills in.
pub struct ProxyHeaders {
    pub email: String,
    pub name: String,
}

impl Default for Settings {
    fn default() -> (s: Settings)
        ensures
            s.title@ == "Bookclub"@,
            s.auth is None,
    {
        Settings { title: String::from_str("Bookclub"), auth: None }
    }
}

impl Settings {
    /// The title of the picks page: that of the settings when they could be
    /// read, else that of the default settings.
    pub fn title_or_default(settings: Option<Settings>) -> (title: String)
        ensures
            match settings {
                Some(s) => title == s.title,
                None => title@ == "Bookclub"@,
            },
    {
        match settings {
            Some(s) => s.title,
            None => Settings::default().title,
        }
    }
}

} // verus!
