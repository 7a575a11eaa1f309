//! The slide-export helpers that compute rather than call: the sign-in URL,
//! the token-expiry decision, and the result shapes. The OAuth exchanges and
//! the slide uploads themselves are plain HTTP the shell performs.

use vstd::prelude::*;
use vstd::string::StringExecFns;

verus! {

/// A signed-in session's tokens.
#[derive(Debug, Clone)]
pub struct GoogleTokens {
    pub access_token: String,
    pub refresh_token: Option<String>,
    pub expires_at: i64,
}

/// One slide of an exported presentation.
#[derive(Debug, Clone)]
pub struct SlideContent {
    pub title: String,
    pub content: Vec<String>,
}

/// What creating a presentation reports.
#[derive(Debug, Clone)]
pub struct GoogleSlidesResult {
    pub presentation_id: String,
    pub presentation_url: String,
    pub slide_count: usize,
}

/// What exporting a sheet reports.
#[derive(Debug, Clone)]
pub struct SheetsExportResult {
    pub url: String,
}

/// The percent-encoding of a text, as urlencoding produces it; a function
/// of the text alone.
pub uninterp spec fn url_encoded(s: Seq<char>) -> Seq<char>;

/// Relies on urlencoding::encode: the percent-encoded form of the text; an
/// empty text encodes to an empty text.
#[verifier::external_body]
fn url_encode(s: &str) -> (r: String)
    ensures
        r@ == url_encoded(s@),
        s@.len() == 0 ==> r@.len() == 0,
{
    urlencoding::encode(s).into_owned()
}

/// The callback address the sign-in flow returns to.
pub open spec fn spec_redirect_uri() -> Seq<char> {
    "http://localhost:8585/callback"@
}

/// The scopes the sign-in flow asks for.
pub open spec fn spec_auth_scope() -> Seq<char> {
    "https://www.googleapis.com/auth/presentations https://www.googleapis.com/auth/drive.file"@
}

/// The sign-in URL: the authorization endpoint with the percent-encoded
/// client id, callback address and scopes, asking for offline access.
pub open spec fn spec_auth_url(client_id: Seq<char>) -> Seq<char> {
    "https://accounts.google.com/o/oauth2/v2/auth?client_id="@ + url_encoded(client_id)
        + "&redirect_uri="@ + url_encoded(spec_redirect_uri()) + "&response_type=code&scope="@
        + url_encoded(spec_auth_scope()) + "&access_type=offline&prompt=consent"@
}

/// Builds the sign-in URL for a client id.
pub fn get_google_auth_url(client_id: &str) -> (r: String)
    ensures
        r@ == spec_auth_url(client_id@),
{
    let mut out = "https://accounts.google.com/o/oauth2/v2/auth?client_id=".to_owned();
    out.append(url_encode(client_id).as_str());
    out.append("&redirect_uri=");
    let redirect = url_encode("http://localhost:8585/callback");
    out.append(redirect.as_str());
    out.append("&response_type=code&scope=");
    let scope = url_encode(
        "https://www.googleapis.com/auth/presentations https://www.googleapis.com/auth/drive.file",
    );
    out.append(scope.as_str());
    out.append("&access_type=offline&prompt=consent");
    out
}

/// True when the tokens have run out at the given time and a refresh is
/// due before the next call.
pub fn tokens_expired(tokens: &GoogleTokens, now_ts: i64) -> (r: bool)
    ensures
        r == (tokens.expires_at < now_ts),
{
    tokens.expires_at < now_ts
}

} // verus!
