//! JWT authentication: checking a JWT configuration, reading the payload of
//! a token to judge whether it is still valid, and issuing a signed
//! token (a mock signature, as no signing library is involved).

use vstd::prelude::*;
use vstd::utf8::encode_utf8;
use crate::text::{owned, concat, concat3, copy_string, decimal, decimal_text, base64_encode, base64_text, str_equal, new_uuid, chars_of, chars_between};
use crate::configuration::{base64_decode, base64_error_text};
use crate::strmap::StrMap;
use crate::json::{JsonValue, JsonView, json_text, members_view, lemma_members_view};
use crate::auth_plugin::{AuthConfig, AuthResult, AuthFailure, AuthToken, now_millis};
use crate::auth_chain_executor::{is_final_failure, final_failure};
use crate::basic_auth_plugin::{is_init_failure, is_plain_token, apply_bearer_auth, kept_token, metadata_of, entries_map};
use crate::error::PluginError;
use crate::plugin::PluginConfig;
use crate::data_source::text_views;

verus! {

/// JWT authentication plugin.
pub struct JwtAuthPlugin {}

/// Whether `alg` is a JWT algorithm the plugin accepts in a configuration.
pub open spec fn supported_algorithm(alg: Seq<char>) -> bool {
    alg == "HS256"@ || alg == "HS384"@ || alg == "HS512"@ || alg == "RS256"@ || alg == "RS384"@ || alg == "RS512"@
}

/// A text claim, or null.
pub open spec fn opt_claim(v: Option<String>) -> JsonView {
    match v {
        Some(s) => JsonView::String(s@),
        None => JsonView::Null,
    }
}

/// The custom claims, in the map's order.
pub open spec fn claim_members(claims: StrMap<JsonValue>) -> Seq<(Seq<char>, JsonView)> {
    claims.key_order().map_values(|k: Seq<char>| (k, claims@[k].view()))
}

/// The JWT header as JSON text.
pub open spec fn jwt_header_text(alg: Seq<char>) -> Seq<char> {
    json_text(JsonView::Object(seq![("alg"@, JsonView::String(alg)), ("typ"@, JsonView::String("JWT"@))]))
}

/// The JWT payload as JSON text: issuer, audience, expiry, issue and
/// not-before times, no subject, the token identifier, then the custom claims.
pub open spec fn jwt_payload_text(
    issuer: Option<String>,
    audience: Option<String>,
    exp: u64,
    now: u64,
    jti: Seq<char>,
    claims: StrMap<JsonValue>,
) -> Seq<char> {
    json_text(JsonView::Object(seq![
        ("iss"@, opt_claim(issuer)),
        ("aud"@, opt_claim(audience)),
        ("exp"@, JsonView::Number(decimal(exp as nat))),
        ("iat"@, JsonView::Number(decimal(now as nat))),
        ("nbf"@, JsonView::Number(decimal(now as nat))),
        ("sub"@, JsonView::Null),
        ("jti"@, JsonView::String(jti)),
    ] + claim_members(claims)))
}

/// The mock signature of a signing input for an algorithm, if the algorithm
/// can sign: HS256 and RS256.
pub open spec fn mock_signature(alg: Seq<char>, signing_input: Seq<char>, secret: Seq<char>) -> Option<Seq<char>> {
    let n = encode_utf8(signing_input).len();
    if alg == "HS256"@ {
        Some(base64_text(encode_utf8("mock_signature_"@ + decimal(n) + "_"@ + decimal(encode_utf8(secret).len()))))
    } else if alg == "RS256"@ {
        Some(base64_text(encode_utf8("mock_rsa_signature_"@ + decimal(n))))
    } else {
        None
    }
}

/// The token issued: the base64 header, payload and signature joined by
/// dots; none for an algorithm that cannot sign.
pub open spec fn jwt_text(
    alg: Seq<char>,
    secret: Seq<char>,
    issuer: Option<String>,
    audience: Option<String>,
    exp: u64,
    now: u64,
    jti: Seq<char>,
    claims: StrMap<JsonValue>,
) -> Option<Seq<char>> {
    let h = base64_text(encode_utf8(jwt_header_text(alg)));
    let p = base64_text(encode_utf8(jwt_payload_text(issuer, audience, exp, now, jti, claims)));
    let input = h + "."@ + p;
    match mock_signature(alg, input, secret) {
        Some(sig) => Some(input + "."@ + sig),
        None => None,
    }
}

/// The expiry of a token issued at `now` (seconds): after the configured
/// lifetime, or after an hour.
pub open spec fn expiry_of(expiration: Option<u64>, now: u64) -> int {
    match expiration {
        Some(e) => now + e,
        None => now + 3600,
    }
}

fn str_value(s: &String) -> (r: JsonValue)
    ensures
        r.view() == JsonView::String(s@),
{
    JsonValue::String(copy_string(s))
}

fn opt_value(s: &Option<String>) -> (r: JsonValue)
    ensures
        r.view() == opt_claim(*s),
{
    match s {
        Some(x) => JsonValue::String(copy_string(x)),
        None => JsonValue::Null,
    }
}

fn num_value(n: u64) -> (r: JsonValue)
    ensures
        r.view() == JsonView::Number(decimal(n as nat)),
{
    JsonValue::Number(decimal_text(n))
}

fn push_member(m: &mut Vec<(String, JsonValue)>, k: &str, v: JsonValue)
    ensures
        members_view(final(m)@) == members_view(old(m)@).push((k@, v.view())),
{
    let ghost before = m@;
    m.push((owned(k), v));
    proof {
        assert(m@.drop_last() =~= before);
    }
}

fn base64_of_text(s: &String) -> (r: String)
    ensures
        r@ == base64_text(encode_utf8(s@)),
{
    base64_encode(s.as_str().as_bytes())
}

/// The JWT header as JSON text.
fn header_json(algorithm: &String) -> (r: String)
    ensures
        r@ == jwt_header_text(algorithm@),
{
    let mut header: Vec<(String, JsonValue)> = Vec::new();
    assert(members_view(header@) =~= Seq::<(Seq<char>, JsonView)>::empty());
    push_member(&mut header, "alg", str_value(algorithm));
    push_member(&mut header, "typ", JsonValue::String(owned("JWT")));
    let hv = JsonValue::Object(header);
    assert(members_view(header@) =~= seq![("alg"@, JsonView::String(algorithm@)), ("typ"@, JsonView::String("JWT"@))]);
    hv.to_json_string()
}

/// The JWT payload as JSON text.
fn payload_json(
    issuer: &Option<String>,
    audience: &Option<String>,
    exp: u64,
    now: u64,
    jti: String,
    custom_claims: &StrMap<JsonValue>,
) -> (r: String)
    ensures
        r@ == jwt_payload_text(*issuer, *audience, exp, now, jti@, *custom_claims),
{
    let mut payload: Vec<(String, JsonValue)> = Vec::new();
    assert(members_view(payload@) =~= Seq::<(Seq<char>, JsonView)>::empty());
    push_member(&mut payload, "iss", opt_value(issuer));
    push_member(&mut payload, "aud", opt_value(audience));
    push_member(&mut payload, "exp", num_value(exp));
    push_member(&mut payload, "iat", num_value(now));
    push_member(&mut payload, "nbf", num_value(now));
    push_member(&mut payload, "sub", JsonValue::Null);
    let ghost jv = jti@;
    push_member(&mut payload, "jti", JsonValue::String(jti));
    let ghost fixed = members_view(payload@);
    assert(fixed =~= seq![
        ("iss"@, opt_claim(*issuer)),
        ("aud"@, opt_claim(*audience)),
        ("exp"@, JsonView::Number(decimal(exp as nat))),
        ("iat"@, JsonView::Number(decimal(now as nat))),
        ("nbf"@, JsonView::Number(decimal(now as nat))),
        ("sub"@, JsonView::Null),
        ("jti"@, JsonView::String(jv)),
    ]);
    let n = custom_claims.len();
    let mut i: usize = 0;
    proof {
        assert(custom_claims.key_order().take(0).map_values(|k: Seq<char>| (k, custom_claims@[k].view()))
            =~= Seq::<(Seq<char>, JsonView)>::empty());
        assert(fixed + Seq::<(Seq<char>, JsonView)>::empty() =~= fixed);
    }
    while i < n
        invariant
            i <= n,
            n == custom_claims.key_order().len(),
            members_view(payload@) == fixed + custom_claims.key_order().take(i as int).map_values(
                |k: Seq<char>| (k, custom_claims@[k].view()),
            ),
        decreases n - i,
    {
        let (k, v) = custom_claims.entry_at(i);
        let ghost kv = k@;
        let val = v.duplicate();
        let key = copy_string(k);
        let ghost pb = payload@;
        payload.push((key, val));
        proof {
            assert(payload@.drop_last() =~= pb);
            let ko = custom_claims.key_order();
            assert(ko.take(i + 1).drop_last() =~= ko.take(i as int));
            assert(ko[i as int] == kv);
            assert(ko.take(i + 1).map_values(|k: Seq<char>| (k, custom_claims@[k].view()))
                =~= ko.take(i as int).map_values(|k: Seq<char>| (k, custom_claims@[k].view())).push(
                    (kv, custom_claims@[kv].view()),
                ));
            assert(members_view(payload@) =~= fixed + ko.take(i + 1).map_values(
                |k: Seq<char>| (k, custom_claims@[k].view()),
            ));
        }
        i = i + 1;
    }
    proof {
        assert(custom_claims.key_order().take(n as int) =~= custom_claims.key_order());
    }
    let pv = JsonValue::Object(payload);
    pv.to_json_string()
}

/// The mock signature of a signing input, if the algorithm can sign.
fn sign(algorithm: &String, signing_input: &String, secret: &String) -> (r: Option<String>)
    ensures
        match mock_signature(algorithm@, signing_input@, secret@) {
            Some(s) => r matches Some(x) && x@ == s,
            None => r is None,
        },
{
    let input_len = signing_input.as_str().as_bytes().len();
    if str_equal(algorithm.as_str(), "HS256") {
        let secret_len = secret.as_str().as_bytes().len();
        let mut m = concat("mock_signature_", decimal_text(input_len as u64).as_str());
        m.append("_");
        m.append(decimal_text(secret_len as u64).as_str());
        Some(base64_of_text(&m))
    } else if str_equal(algorithm.as_str(), "RS256") {
        let m = concat("mock_rsa_signature_", decimal_text(input_len as u64).as_str());
        Some(base64_of_text(&m))
    } else {
        None
    }
}

impl JwtAuthPlugin {
    /// The plugin.
    pub fn new() -> (r: Self) {
        JwtAuthPlugin {}
    }

    /// The plugin's name.
    pub fn name(&self) -> (r: String)
        ensures
            r@ == "jwt-auth"@,
    {
        owned("jwt-auth")
    }

    /// The plugin's version.
    pub fn version(&self) -> (r: String)
        ensures
            r@ == "1.0.0"@,
    {
        owned("1.0.0")
    }

    /// The plugins this plugin needs: none.
    pub fn dependencies(&self) -> (r: Vec<String>)
        ensures
            r@.len() == 0,
    {
        Vec::new()
    }

    /// Prepares the plugin; there is nothing to set up.
    pub fn initialize(&mut self, config: &PluginConfig) -> (r: Result<(), PluginError>)
        ensures
            r is Ok,
    {
        Ok(())
    }

    /// Releases the plugin; there is nothing to release.
    pub fn shutdown(&mut self) -> (r: Result<(), PluginError>)
        ensures
            r is Ok,
    {
        Ok(())
    }

    /// The authentication type the plugin handles.
    pub fn auth_type(&self) -> (r: String)
        ensures
            r@ == "jwt"@,
    {
        owned("jwt")
    }

    /// JWTs are regenerated when they expire.
    pub fn supports_refresh(&self) -> (r: bool)
        ensures
            r,
    {
        true
    }

    /// Checks a JWT configuration: a secret and a supported algorithm are needed.
    pub fn validate_config(&self, config: &AuthConfig) -> (r: Result<(), PluginError>)
        ensures
            match config {
                AuthConfig::Jwt { secret, algorithm, .. } => {
                    &&& secret@.len() == 0 ==> (r matches Err(e) && is_init_failure(e, "secret cannot be empty"@))
                    &&& secret@.len() > 0 && !supported_algorithm(algorithm@) ==> (r matches Err(e)
                        && is_init_failure(e, "Unsupported JWT algorithm: "@ + algorithm@))
                    &&& secret@.len() > 0 && supported_algorithm(algorithm@) ==> r is Ok
                },
                _ => r matches Err(e) && is_init_failure(e, "Expected JWT configuration"@),
            },
    {
        match config {
            AuthConfig::Jwt { secret, algorithm, .. } => {
                if secret.as_str().is_empty() {
                    return Err(PluginError::InitializationFailed(owned("secret cannot be empty")));
                }
                let a = algorithm.as_str();
                if str_equal(a, "HS256") || str_equal(a, "HS384") || str_equal(a, "HS512") || str_equal(a, "RS256")
                    || str_equal(a, "RS384") || str_equal(a, "RS512") {
                    Ok(())
                } else {
                    Err(PluginError::InitializationFailed(concat("Unsupported JWT algorithm: ", a)))
                }
            },
            _ => Err(PluginError::InitializationFailed(owned("Expected JWT configuration"))),
        }
    }

    /// Issues a token at `now` (seconds since the Unix epoch) with identifier
    /// `jti`: a bearer token expiring after the configured lifetime (an hour
    /// by default), with the algorithm, issuer and audience as metadata.
    pub fn generate_jwt_at(&self, config: &AuthConfig, now: u64, jti: String) -> (r: Result<AuthResult, AuthFailure>)
        requires
            config matches AuthConfig::Jwt { expiration, .. } ==> expiry_of(*expiration, now) * 1000 <= u64::MAX,
        ensures
            match config {
                AuthConfig::Jwt { secret, algorithm, issuer, audience, expiration, custom_claims } => {
                    let exp = expiry_of(*expiration, now) as u64;
                    match jwt_text(algorithm@, secret@, *issuer, *audience, exp, now, jti@, *custom_claims) {
                        Some(t) => r matches Ok(a) && a.token.token@ == t && a.token.token_type@ == "Bearer"@
                            && a.token.expires_at == Some((exp * 1000) as u64)
                            && a.token.refresh_token is None && a.token.scope is None
                            && text_views(a.metadata@) == {
                                let m0 = map!["algorithm"@ => algorithm@];
                                let m1 = match *issuer { Some(i) => m0.insert("issuer"@, i@), None => m0 };
                                match *audience { Some(au) => m1.insert("audience"@, au@), None => m1 }
                            },
                        None => r matches Err(f) && is_final_failure(
                            f,
                            "UNSUPPORTED_ALGORITHM"@,
                            "Algorithm '"@ + algorithm@ + "' not supported"@,
                        ),
                    }
                },
                _ => r matches Err(f) && is_final_failure(f, "INVALID_CONFIG"@, "Expected JWT configuration"@),
            },
    {
        match config {
            AuthConfig::Jwt { secret, algorithm, issuer, audience, expiration, custom_claims } => {
                let exp: u64 = match expiration {
                    Some(e) => now + *e,
                    None => now + 3600,
                };
                let hj = header_json(algorithm);
                let pj = payload_json(issuer, audience, exp, now, jti, custom_claims);
                let header_b64 = base64_of_text(&hj);
                let payload_b64 = base64_of_text(&pj);
                let signing_input = concat3(header_b64.as_str(), ".", payload_b64.as_str());
                let signature = match sign(algorithm, &signing_input, secret) {
                    Some(sig) => sig,
                    None => {
                        return Err(final_failure(
                            "UNSUPPORTED_ALGORITHM",
                            concat3("Algorithm '", algorithm.as_str(), "' not supported"),
                        ));
                    },
                };
                let token_text = concat3(signing_input.as_str(), ".", signature.as_str());
                let token = AuthToken {
                    token: token_text,
                    token_type: owned("Bearer"),
                    expires_at: Some(exp * 1000),
                    refresh_token: None,
                    scope: None,
                };
                let mut metadata: StrMap<String> = StrMap::new();
                metadata.insert(owned("algorithm"), copy_string(algorithm));
                match issuer {
                    Some(iss) => { metadata.insert(owned("issuer"), copy_string(iss)); },
                    None => {},
                }
                match audience {
                    Some(aud) => { metadata.insert(owned("audience"), copy_string(aud)); },
                    None => {},
                }
                proof {
                    let m0 = map!["algorithm"@ => algorithm@];
                    let m1 = match issuer { Some(i) => m0.insert("issuer"@, i@), None => m0 };
                    let m2 = match audience { Some(au) => m1.insert("audience"@, au@), None => m1 };
                    assert(text_views(metadata@) =~= m2);
                }
                Ok(AuthResult { token, metadata })
            },
            _ => Err(final_failure("INVALID_CONFIG", owned("Expected JWT configuration"))),
        }
    }

    /// Issues a token now, with a fresh identifier; a lifetime that reaches
    /// beyond the range of the token's expiry is refused.
    pub fn generate_jwt(&self, config: &AuthConfig) -> (r: Result<AuthResult, AuthFailure>)
        ensures
            !(config is Jwt) ==> (r matches Err(f) && is_final_failure(f, "INVALID_CONFIG"@, "Expected JWT configuration"@)),
    {
        let now = now_millis() / 1000;
        match config {
            AuthConfig::Jwt { expiration, .. } => {
                let lifetime: u64 = match expiration {
                    Some(e) => *e,
                    None => 3600,
                };
                if now > u64::MAX / 1000 || lifetime > u64::MAX / 1000 - now {
                    return Err(final_failure("INVALID_CONFIG", owned("JWT expiration out of range")));
                }
            },
            _ => {},
        }
        self.generate_jwt_at(config, now, new_uuid())
    }

    /// A refreshed token, given whether the current one is still valid: a
    /// valid token is handed back with metadata saying so; otherwise a new
    /// token is issued, with metadata saying it was regenerated.
    pub fn refresh_with_validity(
        &self,
        token: &AuthToken,
        config: &AuthConfig,
        validity: Result<bool, AuthFailure>,
    ) -> (r: Result<AuthResult, AuthFailure>)
        ensures
            validity == Ok::<bool, AuthFailure>(true) ==> kept_token(*token, r, "token_still_valid"@),
            validity != Ok::<bool, AuthFailure>(true) && !(config is Jwt) ==> (r matches Err(f) && is_final_failure(
                f,
                "INVALID_CONFIG"@,
                "Expected JWT configuration"@,
            )),
            validity != Ok::<bool, AuthFailure>(true) ==> (r matches Ok(a) ==> {
                let m = text_views(a.metadata@);
                &&& m.dom().contains("refreshed"@) && m["refreshed"@] == "true"@
                &&& m.dom().contains("reason"@) && m["reason"@] == "token_regenerated"@
            }),
    {
        let still_valid = match &validity {
            Ok(v) => *v,
            Err(_) => false,
        };
        if still_valid {
            let mut entries: Vec<(&str, String)> = Vec::new();
            entries.push(("refreshed", owned("false")));
            entries.push(("reason", owned("token_still_valid")));
            let metadata = metadata_of(entries);
            proof {
                reveal_with_fuel(entries_map, 3);
                assert(text_views(metadata@) =~= map!["refreshed"@ => "false"@, "reason"@ => "token_still_valid"@]);
            }
            return Ok(AuthResult { token: token.duplicate(), metadata });
        }
        let mut result = self.generate_jwt(config)?;
        result.metadata.insert(owned("refreshed"), owned("true"));
        result.metadata.insert(owned("reason"), owned("token_regenerated"));
        proof {
            reveal_strlit("refreshed");
            reveal_strlit("reason");
            assert("refreshed"@ != "reason"@) by {
                assert("refreshed"@[2] != "reason"@[2]);
            }
        }
        Ok(result)
    }

    /// Issues a token for a JWT configuration.
    pub fn authenticate(&self, config: &AuthConfig) -> (r: Result<AuthResult, AuthFailure>)
        ensures
            !(config is Jwt) ==> (r matches Err(f) && is_final_failure(f, "INVALID_CONFIG"@, "Expected JWT configuration"@)),
    {
        self.generate_jwt(config)
    }

    /// Sets the `Authorization` header for a token.
    pub fn apply_auth(&self, headers: &mut StrMap<String>, token: &AuthToken)
        ensures
            text_views(final(headers)@) == text_views(old(headers)@).insert(
                "Authorization"@,
                token.token_type@ + " "@ + token.token@,
            ),
    {
        apply_bearer_auth(headers, token);
    }
}

/// Whether the dots at `i` and `j` are the only dots of `s`, so that they
/// part it into three pieces.
pub open spec fn three_parts(s: Seq<char>, i: int, j: int) -> bool {
    &&& 0 <= i < j < s.len()
    &&& s[i] == '.'
    &&& s[j] == '.'
    &&& forall|k: int| 0 <= k < s.len() && k != i && k != j ==> s[k] != '.'
}

/// Whether `s` has exactly two dots.
pub open spec fn has_three_parts(s: Seq<char>) -> bool {
    exists|i: int, j: int| #[trigger] three_parts(s, i, j)
}

/// The middle piece (the payload) of a JWT, for a JWT configuration: the
/// text between its two dots. A token that does not have three pieces is
/// refused.
pub fn jwt_payload_part(token: &str, config: &AuthConfig) -> (r: Result<String, AuthFailure>)
    ensures
        !(config is Jwt) ==> (r matches Err(f) && is_final_failure(f, "INVALID_CONFIG"@, "Expected JWT configuration"@)),
        config is Jwt && !has_three_parts(token@) ==> (r matches Err(f) && is_final_failure(
            f,
            "INVALID_TOKEN_FORMAT"@,
            "JWT must have 3 parts separated by dots"@,
        )),
        config is Jwt && has_three_parts(token@) ==> (r matches Ok(m)
            && exists|i: int, j: int| #[trigger] three_parts(token@, i, j) && m@ == token@.subrange(i + 1, j)),
{
    if !matches!(config, AuthConfig::Jwt { .. }) {
        return Err(final_failure("INVALID_CONFIG", owned("Expected JWT configuration")));
    }
    let cs = chars_of(token);
    let ghost t = token@;
    let mut count: usize = 0;
    let mut d1: usize = 0;
    let mut d2: usize = 0;
    let mut k: usize = 0;
    while k < cs.len()
        invariant
            cs@ == t,
            t == token@,
            config is Jwt,
            k <= t.len(),
            count <= 2,
            count == 0 ==> forall|q: int| 0 <= q < k ==> t[q] != '.',
            count == 1 ==> d1 < k && t[d1 as int] == '.' && forall|q: int| 0 <= q < k && q != d1 ==> t[q] != '.',
            count == 2 ==> d1 < d2 < k && t[d1 as int] == '.' && t[d2 as int] == '.'
                && forall|q: int| 0 <= q < k && q != d1 && q != d2 ==> t[q] != '.',
        decreases cs.len() - k,
    {
        if cs[k] == '.' {
            if count == 2 {
                proof {
                    assert forall|i: int, j: int| !three_parts(t, i, j) by {
                        if three_parts(t, i, j) {
                            if i != d1 as int && j != d1 as int {
                                assert(t[d1 as int] != '.');
                            } else if i != d2 as int && j != d2 as int {
                                assert(t[d2 as int] != '.');
                            } else {
                                assert(t[k as int] != '.');
                            }
                        }
                    }
                }
                return Err(final_failure("INVALID_TOKEN_FORMAT", owned("JWT must have 3 parts separated by dots")));
            } else if count == 1 {
                d2 = k;
            } else {
                d1 = k;
            }
            count = count + 1;
        }
        k = k + 1;
    }
    if count != 2 {
        proof {
            assert forall|i: int, j: int| !three_parts(t, i, j) by {
                if three_parts(t, i, j) {
                    if count == 1 {
                        if i != d1 as int {
                            assert(t[i] != '.');
                        } else {
                            assert(t[j] != '.');
                        }
                    } else {
                        assert(t[i] != '.');
                    }
                }
            }
        }
        return Err(final_failure("INVALID_TOKEN_FORMAT", owned("JWT must have 3 parts separated by dots")));
    }
    let m = chars_between(&cs, d1 + 1, d2);
    assert(three_parts(t, d1 as int, d2 as int));
    Ok(m)
}

/// The decoded payload bytes of a JWT, for a JWT configuration: its middle
/// piece read as standard base64.
pub fn jwt_payload_bytes(token: &str, config: &AuthConfig) -> (r: Result<Vec<u8>, AuthFailure>)
    ensures
        !(config is Jwt) ==> (r matches Err(f) && is_final_failure(f, "INVALID_CONFIG"@, "Expected JWT configuration"@)),
        config is Jwt && !has_three_parts(token@) ==> (r matches Err(f) && is_final_failure(
            f,
            "INVALID_TOKEN_FORMAT"@,
            "JWT must have 3 parts separated by dots"@,
        )),
        config is Jwt && has_three_parts(token@) ==> exists|i: int, j: int| #[trigger] three_parts(token@, i, j) && {
            let m = token@.subrange(i + 1, j);
            match r {
                Ok(b) => base64_text(b@) == m,
                Err(f) => (forall|b: Seq<u8>| base64_text(b) != m) && is_final_failure(
                    f,
                    "PAYLOAD_DECODE_ERROR"@,
                    "Failed to decode JWT payload: "@ + base64_error_text(m),
                ),
            }
        },
{
    let m = jwt_payload_part(token, config)?;
    match base64_decode(m.as_str()) {
        Ok(b) => Ok(b),
        Err(e) => Err(final_failure("PAYLOAD_DECODE_ERROR", concat("Failed to decode JWT payload: ", e.as_str()))),
    }
}

/// Whether a JWT is still valid at `now` (seconds since the Unix epoch),
/// given how its payload parsed: a payload that did not parse is reported,
/// as is an expiry that has passed.
pub fn jwt_validity(parsed: Result<Option<u64>, String>, now: u64) -> (r: Result<bool, AuthFailure>)
    ensures
        match parsed {
            Err(e) => r matches Err(f) && is_final_failure(f, "PAYLOAD_PARSE_ERROR"@, "Failed to parse JWT payload: "@ + e@),
            Ok(Some(exp)) => if now >= exp {
                r matches Err(f) && is_final_failure(f, "TOKEN_EXPIRED"@, "JWT token has expired"@)
            } else {
                r == Ok::<bool, AuthFailure>(true)
            },
            Ok(None) => r == Ok::<bool, AuthFailure>(true),
        },
{
    match parsed {
        Err(e) => Err(final_failure("PAYLOAD_PARSE_ERROR", concat("Failed to parse JWT payload: ", e.as_str()))),
        Ok(Some(exp)) => if now >= exp {
            Err(final_failure("TOKEN_EXPIRED", owned("JWT token has expired")))
        } else {
            Ok(true)
        },
        Ok(None) => Ok(true),
    }
}

} // verus!
