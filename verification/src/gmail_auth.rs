//! Gmail OAuth state: the cached token, the client credentials file, where
//! the token is cached, and the token a refresh yields.

use vstd::prelude::*;
use std::path::{Path, PathBuf};
use crate::paths::{joined_path, path_join};
use crate::text::{append_str, chars_of, string_of};

verus! {

/// Google OAuth2 token state, cached to disk.
#[derive(Debug, Clone)]
pub struct TokenCache {
    pub access_token: String,
    pub refresh_token: Option<String>,
    pub expires_at: Option<i64>,
}

/// Google OAuth2 client credentials (the downloaded JSON file).
#[derive(Debug, Clone)]
pub struct ClientCredentials {
    pub installed: Option<InstalledCredentials>,
}

/// The credentials of an installed application.
#[derive(Debug, Clone)]
pub struct InstalledCredentials {
    pub client_id: String,
    pub client_secret: String,
    pub auth_uri: String,
    pub token_uri: String,
}

/// The file name of an account's cached token: `{account_id}-token.json`.
pub fn token_file_name(account_id: &str) -> (r: String)
    ensures
        r@ == account_id@ + "-token.json"@,
{
    let mut v = chars_of(account_id);
    append_str(&mut v, "-token.json");
    string_of(&v)
}

/// Where an account's token is cached: [`token_file_name`] under
/// `store_path`.
pub fn token_cache_path(store_path: &Path, account_id: &str) -> (r: PathBuf)
    ensures
        r == joined_path(store_path, account_id@ + "-token.json"@),
{
    let name = token_file_name(account_id);
    path_join(store_path, name.as_str())
}

/// The installed-application credentials of a credentials file, or the
/// error when the file has no `installed` key.
pub fn installed_credentials(creds: ClientCredentials) -> (r: Result<InstalledCredentials, String>)
    ensures
        match creds.installed {
            Some(i) => r == Ok::<InstalledCredentials, String>(i),
            None => r matches Err(e) && e@ == "credentials file missing 'installed' key"@,
        },
{
    match creds.installed {
        Some(i) => Ok(i),
        None => Err(String::from_str("credentials file missing 'installed' key")),
    }
}

/// The token a refresh yields: the access token of the response (an error
/// when it has none), the refresh token used, and an expiry `expires_in`
/// seconds (3600 when absent) after `now`.
pub fn token_from_refresh(access_token: Option<&str>, expires_in: Option<i64>, now: i64, refresh_token: &str) -> (r: Result<TokenCache, String>)
    requires
        i64::MIN <= now + match expires_in {
            Some(e) => e,
            None => 3600,
        } <= i64::MAX,
    ensures
        match access_token {
            Some(a) => r matches Ok(t) && t.access_token@ == a@ && t.refresh_token is Some
                && t.refresh_token->0@ == refresh_token@ && t.expires_at == Some((now + match expires_in {
                Some(e) => e,
                None => 3600,
            }) as i64),
            None => r matches Err(e) && e@ == "no access_token in refresh response"@,
        },
{
    let a = match access_token {
        Some(a) => a,
        None => {
            return Err(String::from_str("no access_token in refresh response"));
        },
    };
    let e = match expires_in {
        Some(e) => e,
        None => 3600,
    };
    Ok(TokenCache {
        access_token: String::from_str(a),
        refresh_token: Some(String::from_str(refresh_token)),
        expires_at: Some(now + e),
    })
}

} // verus!
