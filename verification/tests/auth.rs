use binkflix::auth::{
    allowed, callback_token, check_service, dev_session, find_key, is_public_path, jwks_fresh, login_name,
    new_sid, require_kid, require_perm, require_session, token_kid, urlencode, AuthConfig,
    CallbackError, Gate, Session, Sessions, LIBRARY_WRITE, PLAYBACK_WRITE, SESSION_TTL_MS,
};
use binkflix::registration::{
    binkflix_perms, kid_of, new_keypair, new_kid, poll_answer, register_answer, register_outcome, register_url,
    status_of, status_url, RegistrationStatus,
};

fn session(user: &str, created_at: u64) -> Session {
    Session { user_sub: user.into(), login: user.into(), perms: vec![], created_at }
}

#[test]
fn scans_ask_for_a_permission() {
    let perms = vec!["playback:write".to_string(), "library:write".to_string()];
    assert!(allowed(&perms, "library:write"));
    assert!(!allowed(&perms, "library"));
    assert!(!allowed(&vec![], "library:write"));
    assert_eq!(require_perm(&session("alice", 0), LIBRARY_WRITE), Err(403));
    let mut s = session("alice", 0);
    s.perms = vec![LIBRARY_WRITE.to_string()];
    assert_eq!(require_perm(&s, "library:write"), Ok(()));
    assert_eq!(require_perm(&s, PLAYBACK_WRITE), Err(403));
    assert_eq!(require_perm(&dev_session(0), LIBRARY_WRITE), Ok(()));
    assert_eq!(require_perm(&dev_session(0), PLAYBACK_WRITE), Ok(()));
}

#[test]
fn settings_from_the_environment() {
    assert!(AuthConfig::from_env(None, Some("x")).is_none());
    let c = AuthConfig::from_env(Some("https://id.example"), None).unwrap();
    assert_eq!(c.service_slug, "binkflix");
    assert_eq!(c.jwks_url(), "https://id.example/.well-known/jwks.json");
    let c = AuthConfig::from_env(Some("https://id.example"), Some("my app")).unwrap();
    assert_eq!(c.login_url(), "https://id.example/auth/login?service=my%20app");
}

#[test]
fn text_in_addresses() {
    assert_eq!(urlencode("aZ09-_.~"), "aZ09-_.~");
    assert_eq!(urlencode("a b/é"), "a%20b%2F%C3%A9");
    assert_eq!(urlencode("(!)"), "%28%21%29");
}

#[test]
fn who_is_let_in() {
    assert!(is_public_path("/static/player.js"));
    assert!(!is_public_path("/api/me"));
    assert_eq!(require_session("/static/x", "", true, false), Gate::Open);
    assert_eq!(require_session("/api/me", "", false, false), Gate::Dev);
    assert_eq!(require_session("/api/me", "", true, true), Gate::User);
    assert_eq!(require_session("/api/me", "text/html", true, false), Gate::Unauthorized);
    assert_eq!(require_session("/media/1", "text/html,*/*", true, false), Gate::ToLogin);
    assert_eq!(require_session("/media/1", "*/*", true, false), Gate::Unauthorized);
}

#[test]
fn sessions_come_and_go() {
    let mut s = Sessions::new();
    assert!(s.session_of(Some("a"), 0).is_none());
    s.insert("a".into(), session("alice", 100));
    s.insert("b".into(), session("bob", 100));
    assert_eq!(s.session_of(Some("a"), 200).unwrap().user_sub, "alice");
    assert!(s.session_of(None, 200).is_none());
    assert!(s.session_of(Some("a"), 100 + SESSION_TTL_MS + 1).is_none());
    s.insert("a".into(), session("carol", 300));
    assert_eq!(s.session_of(Some("a"), 300).unwrap().user_sub, "carol");
    s.remove("a");
    assert!(s.session_of(Some("a"), 300).is_none());
    assert_eq!(s.session_of(Some("b"), 300).unwrap().login, "bob");
    assert_eq!(dev_session(5).user_sub, "dev");
}

#[test]
fn keys_are_kept_for_a_while() {
    assert!(!jwks_fresh(None));
    assert!(jwks_fresh(Some(299_999)));
    assert!(!jwks_fresh(Some(300_001)));
}

#[test]
fn names_of_users() {
    assert_eq!(login_name(Some("alice".into()), "0123456789"), "alice");
    assert_eq!(login_name(None, "0123456789"), "user:01234567");
    assert_eq!(login_name(None, "012"), "user:012");
}

#[test]
fn cookies_are_fresh_ids() {
    let a = new_sid();
    assert_eq!(a.len(), 32);
    assert!(a.chars().all(|c| c.is_ascii_digit() || ('a'..='f').contains(&c)));
    assert_ne!(a, new_sid());
}

#[test]
fn tokens_name_their_key() {
    // {"alg":"RS256","kid":"k1"} and {"alg":"RS256"}, each with a body and a signature.
    assert_eq!(token_kid("eyJhbGciOiJSUzI1NiIsImtpZCI6ImsxIn0.e30.c2ln"), Ok("k1".to_string()));
    assert_eq!(
        token_kid("eyJhbGciOiJSUzI1NiJ9.e30.c2ln"),
        Err("token missing kid".to_string())
    );
    assert!(token_kid("nonsense").is_err());
    assert_eq!(require_kid(Ok(Some("a".into()))), Ok("a".to_string()));
    assert_eq!(require_kid(Err("bad".into())), Err("bad".to_string()));
}

#[test]
fn keys_are_found_by_their_id() {
    let kids = vec![None, Some("a".to_string()), Some("b".to_string()), Some("b".to_string())];
    assert_eq!(find_key(&kids, "b"), Ok(2));
    assert_eq!(find_key(&kids, "z"), Err("unknown kid z".to_string()));
}

#[test]
fn tokens_are_for_one_service() {
    assert_eq!(check_service("binkflix", "binkflix"), Ok(()));
    assert_eq!(check_service("other", "binkflix"), Err("token svc claim mismatch".to_string()));
}

#[test]
fn coming_back_from_signing_in() {
    assert_eq!(callback_token(false, Some("t".into())), Err(CallbackError::Disabled));
    assert_eq!(callback_token(true, None), Err(CallbackError::MissingToken));
    assert_eq!(callback_token(true, Some("t".into())), Ok("t".to_string()));
    assert_eq!(CallbackError::Disabled.answer(), (404, "auth disabled"));
    assert_eq!(CallbackError::MissingToken.answer(), (400, "missing bastion_token"));
}

#[test]
fn registering_the_service() {
    assert_eq!(register_url("https://id.example//"), "https://id.example/api/services/register");
    assert_eq!(
        status_url("https://id.example/", "binkflix"),
        "https://id.example/api/services/binkflix/status"
    );
    let p = binkflix_perms();
    assert_eq!((p[0].key.as_str(), p[0].default_allow), ("library:write", false));
    assert_eq!((p[1].key.as_str(), p[1].default_allow), ("playback:write", true));
}

#[test]
fn what_the_sign_in_service_decided() {
    assert_eq!(status_of(Some("approved")), RegistrationStatus::Approved);
    assert_eq!(status_of(Some("denied")), RegistrationStatus::Denied);
    assert_eq!(status_of(Some("unknown")), RegistrationStatus::Pending);
    assert_eq!(status_of(None), RegistrationStatus::Pending);
    assert_eq!(
        register_outcome(true, "200 OK", "", Some("approved")),
        Ok(RegistrationStatus::Approved)
    );
    assert_eq!(
        register_answer(true, "200 OK", "{\"status\":\"approved\"}"),
        Ok(RegistrationStatus::Approved)
    );
    assert_eq!(register_answer(true, "202 Accepted", "not json"), Ok(RegistrationStatus::Pending));
    assert_eq!(
        register_answer(false, "409 Conflict", "{\"status\":\"approved\"}"),
        Err("bastion /api/services/register returned 409 Conflict: {\"status\":\"approved\"}"
            .to_string())
    );
    assert_eq!(poll_answer(Some("{\"status\":\"denied\"}")), RegistrationStatus::Denied);
    assert_eq!(poll_answer(Some("{\"status\":5}")), RegistrationStatus::Pending);
    assert_eq!(poll_answer(Some("[]")), RegistrationStatus::Pending);
    assert_eq!(poll_answer(None), RegistrationStatus::Pending);
}

#[test]
fn ids_of_keys() {
    assert_eq!(kid_of(&vec![]), "");
    assert_eq!(kid_of(&vec![0x66]), "my");
    assert_eq!(kid_of(&b"foobar".to_vec()), "mzxw6ytboi");
    let k = new_kid();
    assert_eq!(k.len(), 20);
    assert!(k.chars().all(|c| ('a'..='z').contains(&c) || ('2'..='7').contains(&c)));
    assert_ne!(k, new_kid());
}

#[test]
fn new_keys_are_pairs() {
    let keys = new_keypair().unwrap();
    let secret: serde_json::Value = serde_json::from_str(&keys.private_jwk).unwrap();
    let public: serde_json::Value = serde_json::from_str(&keys.public_jwk).unwrap();
    assert_eq!(public["kid"], keys.kid.as_str());
    assert_eq!(secret["kid"], keys.kid.as_str());
    assert_eq!(public["alg"], "RS256");
    assert_eq!(secret["alg"], "RS256");
    assert_eq!(public["use"], "sig");
    assert_eq!(public["kty"], "RSA");
    assert_eq!(public["n"], secret["n"]);
    assert_eq!(public["e"], secret["e"]);
    // 2048 bits are 256 bytes.
    assert_eq!(public["n"].as_str().unwrap().len(), 342);
    for name in ["d", "p", "q", "dp", "dq", "qi"] {
        assert!(secret[name].is_string() && public[name].is_null());
    }
    assert_ne!(keys.kid, new_keypair().unwrap().kid);
}
