//! Authentication configuration and token validation for the surrounding
//! transport, as explicit values: no ambient state, the caller constructs
//! the configuration once and passes it in.

use vstd::prelude::*;

use crate::mcp::McpError;
use crate::mcp::authentication_error;
use crate::seqs::spec_contains_str;
use crate::seqs::vec_contains_str;
use crate::strings::spec_starts_with;
use crate::strings::spec_views;
use crate::strings::str_eq;
use crate::strings::str_starts_with;
use crate::wrappers::hex_encode;
use crate::wrappers::sha256_str;
use crate::wrappers::spec_hex_lower;
use crate::wrappers::spec_sha256_str;
use vstd::string::StrSliceExecFns;
use vstd::string::StringExecFns;

verus! {

/// Authentication settings: whether auth is on, the accepted tokens, the
/// environment variable the caller may load one more token from, and the
/// methods open to everyone.
#[derive(Debug, Clone)]
pub struct AuthConfig {
    pub enabled: bool,
    pub static_tokens: Vec<String>,
    pub token_env_var: String,
    pub public_methods: Vec<String>,
}

impl Default for AuthConfig {
    fn default() -> (r: Self)
        ensures
            !r.enabled,
            r.static_tokens@.len() == 0,
            r.token_env_var@ == "MCP_TOKEN"@,
            spec_views(r.public_methods@) == seq!["initialize"@, "tools/list"@],
    {
        let mut public_methods: Vec<String> = Vec::new();
        public_methods.push(String::from_str("initialize"));
        public_methods.push(String::from_str("tools/list"));
        assert(spec_views(public_methods@) =~= seq!["initialize"@, "tools/list"@]);
        AuthConfig {
            enabled: false,
            static_tokens: Vec::new(),
            token_env_var: String::from_str("MCP_TOKEN"),
            public_methods,
        }
    }
}

/// Whether requests must authenticate under this configuration.
pub fn is_auth_enabled(config: &AuthConfig) -> (r: bool)
    ensures
        r == config.enabled,
{
    config.enabled
}

/// The identity a validated request runs under.
#[derive(Debug, Clone)]
pub struct Credentials {
    pub cred_type: String,
    pub subject: Option<String>,
    pub token_hash: Option<String>,
}

impl Credentials {
    /// The identity of an unauthenticated request.
    pub fn anonymous() -> (r: Self)
        ensures
            r.cred_type@ == "anonymous"@,
            r.subject is None,
            r.token_hash is None,
    {
        Credentials { cred_type: String::from_str("anonymous"), subject: None, token_hash: None }
    }

    /// The identity of a request bearing a known static token.
    pub fn static_token(subject: &str, token_hash: &str) -> (r: Self)
        ensures
            r.cred_type@ == "static_token"@,
            (match r.subject {
                Some(s) => s@ == subject@,
                None => false,
            }),
            (match r.token_hash {
                Some(h) => h@ == token_hash@,
                None => false,
            }),
    {
        Credentials {
            cred_type: String::from_str("static_token"),
            subject: Some(String::from_str(subject)),
            token_hash: Some(String::from_str(token_hash)),
        }
    }
}

/// A short token fingerprint for reporting: the first eight digest bytes
/// of the token, as lowercase hex.
pub open spec fn spec_token_hash(token: Seq<char>) -> Seq<char> {
    spec_hex_lower(spec_sha256_str(token).take(8))
}

pub fn hash_token(token: &str) -> (r: String)
    ensures
        r@ == spec_token_hash(token@),
{
    let digest = sha256_str(token);
    let mut prefix: Vec<u8> = Vec::new();
    let mut i: usize = 0;
    while i < 8
        invariant
            i <= 8,
            digest@.len() == 32,
            prefix@ == digest@.subrange(0, i as int),
        decreases 8 - i,
    {
        prefix.push(digest[i]);
        assert(digest@.subrange(0, i as int).push(digest@[i as int]) =~= digest@.subrange(
            0,
            i + 1,
        ));
        i = i + 1;
    }
    assert(prefix@ =~= digest@.take(8));
    hex_encode(&prefix)
}

/// The first header under the given name, if any.
pub open spec fn spec_header_value(headers: Seq<(String, String)>, key: Seq<char>) -> Option<
    Seq<char>,
>
    decreases headers.len(),
{
    if headers.len() == 0 {
        None
    } else if headers.first().0@ == key {
        Some(headers.first().1@)
    } else {
        spec_header_value(headers.drop_first(), key)
    }
}

fn header_value<'a>(headers: &'a Vec<(String, String)>, key: &str) -> (r: Option<&'a String>)
    ensures
        (match r {
            Some(v) => spec_header_value(headers@, key@) == Some(v@),
            None => spec_header_value(headers@, key@) is None,
        }),
{
    let mut i: usize = 0;
    assert(headers@.skip(0) =~= headers@);
    while i < headers.len()
        invariant
            i <= headers@.len(),
            spec_header_value(headers@, key@) == spec_header_value(
                headers@.skip(i as int),
                key@,
            ),
        decreases headers@.len() - i,
    {
        proof {
            assert(headers@.skip(i as int).first() == headers@[i as int]);
            assert(headers@.skip(i as int).drop_first() =~= headers@.skip(i + 1));
        }
        if str_eq(headers[i].0.as_str(), key) {
            return Some(&headers[i].1);
        }
        i = i + 1;
    }
    assert(headers@.skip(headers@.len() as int).len() == 0);
    None
}

/// The token carried by an authorization header: the text after a Bearer
/// prefix, or the whole header value.
pub open spec fn spec_bearer_token(h: Seq<char>) -> Seq<char> {
    if spec_starts_with(h, "Bearer "@) {
        h.skip("Bearer "@.len() as int)
    } else {
        h
    }
}

/// Validates one request: with auth off or on a public method everyone
/// passes as anonymous; otherwise the authorization header must carry a
/// known static token, which is acknowledged under its fingerprint.
pub fn validate_auth(config: &AuthConfig, method: &str, headers: &Vec<(String, String)>) -> (r:
    Result<Credentials, McpError>)
    ensures
        ({
            let auth_header = (match spec_header_value(headers@, "Authorization"@) {
                Some(v) => Some(v),
                None => spec_header_value(headers@, "authorization"@),
            });
            if !config.enabled || spec_contains_str(config.public_methods@, method@) {
                match r {
                    Ok(c) => c.cred_type@ == "anonymous"@,
                    Err(e) => false,
                }
            } else {
                match auth_header {
                    None => r is Err,
                    Some(h) => {
                        let token = spec_bearer_token(h);
                        if spec_contains_str(config.static_tokens@, token) {
                            match r {
                                Ok(c) => {
                                    &&& c.cred_type@ == "static_token"@
                                    &&& (match c.subject {
                                        Some(s) => s@ == "mcp-client"@,
                                        None => false,
                                    })
                                    &&& (match c.token_hash {
                                        Some(th) => th@ == spec_token_hash(token),
                                        None => false,
                                    })
                                },
                                Err(e) => false,
                            }
                        } else {
                            r is Err
                        }
                    },
                }
            }
        }),
{
    if !config.enabled {
        return Ok(Credentials::anonymous());
    }
    if vec_contains_str(&config.public_methods, method) {
        return Ok(Credentials::anonymous());
    }
    let header = match header_value(headers, "Authorization") {
        Some(h) => Some(h),
        None => header_value(headers, "authorization"),
    };
    let header = match header {
        Some(h) => h,
        None => {
            return Err(
                authentication_error("Authentication required: No authorization header"),
            );
        },
    };
    let token: String = if str_starts_with(header.as_str(), "Bearer ") {
        proof {
            reveal_strlit("Bearer ");
        }
        let n = header.as_str().unicode_len();
        let t = header.as_str().substring_char(7, n);
        String::from_str(t)
    } else {
        proof {
            reveal_strlit("Bearer ");
        }
        header.clone()
    };
    assert(token@ == spec_bearer_token(header@));
    if vec_contains_str(&config.static_tokens, token.as_str()) {
        let h = hash_token(token.as_str());
        Ok(Credentials::static_token("mcp-client", h.as_str()))
    } else {
        Err(authentication_error("Invalid token"))
    }
}

} // verus!
