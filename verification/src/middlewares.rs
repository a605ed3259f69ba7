//! The authentication decision taken for every request.

use vstd::prelude::*;
use crate::settings::Settings;
use vstd::utf8::{
    decode_utf8, encode_utf8, encode_utf8_decode_utf8, encode_utf8_valid_utf8, is_ascii_chars,
    is_ascii_chars_encode_utf8, valid_utf8,
};

verus! {

/// The member a request acts as.
pub struct Auth<T> {
    pub user: T,
}

/// How a request is to be authenticated under the settings.
pub enum AuthMethod {
    /// No authentication is configured.
    NotConfigured,
    /// Every request acts as the anonymous member.
    Anonymous,
    /// The member is named by the email in the header `header_name`.
    Proxy { header_name: String, auto_sign_up: bool },
    /// Authentication is configured, but no method is enabled.
    Unknown,
}

/// What the request carries under the proxy header.
pub enum HeaderValue {
    Missing,
    /// The header is present but holds a byte that is not visible ASCII.
    NotText,
    Text { value: String },
}

/// Who the request acts as, or why it is refused.
pub enum AuthOutcome {
    AnonymousUser,
    FindOrCreateByEmail { email: String },
    FindByEmail { email: String },
    Unauthorized { message: String },
}

/// A header byte that reads as text: visible ASCII or a tab.
pub open spec fn is_visible_ascii(b: u8) -> bool {
    (32 <= b && b < 127) || b == 9
}

/// Every byte is visible ASCII or a tab.
pub open spec fn all_visible_ascii(bytes: Seq<u8>) -> bool {
    forall|i: int| 0 <= i < bytes.len() ==> is_visible_ascii(#[trigger] bytes[i])
}

/// The characters of ASCII bytes.
pub open spec fn ascii_chars(bytes: Seq<u8>) -> Seq<char> {
    bytes.map_values(|b: u8| b as char)
}

/// Calls `String::from_utf8`: its documentation returns the string the bytes
/// encode when they are valid UTF-8, and an error otherwise.
#[verifier::external_body]
fn utf8_string(bytes: Vec<u8>) -> (r: Option<String>)
    ensures
        r is Some <==> valid_utf8(bytes@),
        r matches Some(s) ==> s@ == decode_utf8(bytes@),
{
    String::from_utf8(bytes).ok()
}

/// What the request carries under the proxy header, from the header's bytes
/// (`None` when the request has no such header): text only when every byte
/// is visible ASCII or a tab.
pub fn read_header(bytes: Option<Vec<u8>>) -> (h: HeaderValue)
    ensures
        bytes is None ==> h is Missing,
        bytes is Some && all_visible_ascii(bytes->0@) ==> h is Text && h->value@ == ascii_chars(bytes->0@),
        bytes is Some && !all_visible_ascii(bytes->0@) ==> h is NotText,
{
    let raw = match bytes {
        None => {
            return HeaderValue::Missing;
        },
        Some(b) => b,
    };
    let mut i: usize = 0;
    while i < raw.len()
        invariant
            i <= raw.len(),
            bytes == Some(raw),
            forall|j: int| 0 <= j < i ==> is_visible_ascii(#[trigger] raw@[j]),
        decreases raw.len() - i,
    {
        let b = raw[i];
        if !((32 <= b && b < 127) || b == 9) {
            assert(!is_visible_ascii(raw@[i as int]));
            assert(!all_visible_ascii(raw@));
            return HeaderValue::NotText;
        }
        i += 1;
    }
    let ghost chars = ascii_chars(raw@);
    proof {
        assert forall|j: int| 0 <= j < chars.len() implies '\0' <= #[trigger] chars[j] <= '\u{7f}' by {
            let b = raw@[j];
            assert(is_visible_ascii(b));
        }
        assert(is_ascii_chars(chars));
        is_ascii_chars_encode_utf8(chars);
        assert forall|j: int| 0 <= j < chars.len() implies #[trigger] encode_utf8(chars)[j] == raw@[j] by {
            let b = raw@[j];
            assert(is_visible_ascii(b));
            assert(chars[j] as u8 == encode_utf8(chars)[j]);
        }
        assert(encode_utf8(chars) =~= raw@);
        encode_utf8_valid_utf8(chars);
        encode_utf8_decode_utf8(chars);
    }
    match utf8_string(raw) {
        Some(value) => HeaderValue::Text { value },
        None => {
            assert(false);
            HeaderValue::NotText
        },
    }
}

/// The method the settings select: anonymous access when it is switched on,
/// else the proxy when it is enabled.
pub open spec fn spec_auth_method(settings: Settings) -> AuthMethod {
    match settings.auth {
        None => AuthMethod::NotConfigured,
        Some(auth) => if auth.anonymous == Some(true) {
            AuthMethod::Anonymous
        } else if auth.proxy is Some && auth.proxy->0.enabled {
            AuthMethod::Proxy {
                header_name: auth.proxy->0.headers.email,
                auto_sign_up: auth.proxy->0.auto_sign_up,
            }
        } else {
            AuthMethod::Unknown
        },
    }
}

/// Which method the settings select, read from their fields: none without
/// authentication settings; anonymous access when it is switched on; else
/// the proxy, with its email header and sign-up choice, when one is enabled
/// (whether `anonymous` is absent or off); else no known method.
pub proof fn law_auth_method_selection(settings: Settings)
    ensures
        settings.auth is None ==> spec_auth_method(settings) is NotConfigured,
        settings.auth is Some && settings.auth->0.anonymous == Some(true) ==> spec_auth_method(settings) is Anonymous,
        settings.auth is Some && settings.auth->0.anonymous != Some(true) && settings.auth->0.proxy is Some
            && settings.auth->0.proxy->0.enabled ==> spec_auth_method(settings) == (AuthMethod::Proxy {
            header_name: settings.auth->0.proxy->0.headers.email,
            auto_sign_up: settings.auth->0.proxy->0.auto_sign_up,
        }),
        settings.auth is Some && settings.auth->0.anonymous != Some(true) && !(settings.auth->0.proxy is Some
            && settings.auth->0.proxy->0.enabled) ==> spec_auth_method(settings) is Unknown,
{
}

/// The authentication method the settings select.
pub fn auth_method(settings: &Settings) -> (m: AuthMethod)
    ensures
        m == spec_auth_method(*settings),
{
    match &settings.auth {
        None => AuthMethod::NotConfigured,
        Some(auth) => {
            if let Some(anonymous) = auth.anonymous {
                if anonymous {
                    return AuthMethod::Anonymous;
                }
            }
            if let Some(proxy) = &auth.proxy {
                if proxy.enabled {
                    return AuthMethod::Proxy {
                        header_name: proxy.headers.email.clone(),
                        auto_sign_up: proxy.auto_sign_up,
                    };
                }
            }
            AuthMethod::Unknown
        },
    }
}

/// The outcome of authentication under `method`; `header` is what the
/// request carries under the proxy header, and is read only for the proxy.
pub fn auth_outcome(method: AuthMethod, header: HeaderValue) -> (o: AuthOutcome)
    ensures
        method is NotConfigured ==> o is Unauthorized && o->message@ == "auth is not configured"@,
        method is Unknown ==> o is Unauthorized && o->message@ == "unknown auth method"@,
        method is Anonymous ==> o is AnonymousUser,
        method is Proxy ==> match header {
            HeaderValue::Missing => o is Unauthorized && o->message@ == "Auth header not found"@,
            HeaderValue::NotText => o is Unauthorized && o->message@ == "failed to convert header to a str"@,
            HeaderValue::Text { value } => if method->auto_sign_up {
                o == (AuthOutcome::FindOrCreateByEmail { email: value })
            } else {
                o == (AuthOutcome::FindByEmail { email: value })
            },
        },
{
    match method {
        AuthMethod::NotConfigured => AuthOutcome::Unauthorized {
            message: String::from_str("auth is not configured"),
        },
        AuthMethod::Unknown => AuthOutcome::Unauthorized {
            message: String::from_str("unknown auth method"),
        },
        AuthMethod::Anonymous => AuthOutcome::AnonymousUser,
        AuthMethod::Proxy { header_name: _, auto_sign_up } => match header {
            HeaderValue::Missing => AuthOutcome::Unauthorized {
                message: String::from_str("Auth header not found"),
            },
            HeaderValue::NotText => AuthOutcome::Unauthorized {
                message: String::from_str("failed to convert header to a str"),
            },
            HeaderValue::Text { value } => if auto_sign_up {
                AuthOutcome::FindOrCreateByEmail { email: value }
            } else {
                AuthOutcome::FindByEmail { email: value }
            },
        },
    }
}

} // verus!
