//! Signing in: who may see what, and the sessions of those who have signed in.

use crate::ids;
use crate::text;
use crate::types;
use vstd::prelude::*;

verus! {

pub const COOKIE_NAME: &'static str = "binkflix_session";

/// For how long the keys of the sign-in service are kept, in milliseconds.
pub const JWKS_TTL_MS: u64 = 300_000;

/// For how long a session lasts, in milliseconds.
pub const SESSION_TTL_MS: u64 = 2_592_000_000;

/// Where users sign in, and under which name this service is known there.
#[derive(Debug)]
pub struct AuthConfig {
    pub bastion_origin: String,
    pub service_slug: String,
}

impl AuthConfig {
    /// The settings, from what the environment says: signing in is off where it names no
    /// origin.
    pub fn from_env(origin: Option<&str>, slug: Option<&str>) -> (r: Option<Self>)
        ensures
            match origin {
                None => r is None,
                Some(o) => {
                    &&& r is Some
                    &&& (r->0).bastion_origin@ == o@
                    &&& (r->0).service_slug@ == match slug {
                        Some(s) => s@,
                        None => "binkflix"@,
                    }
                },
            },
    {
        match origin {
            None => None,
            Some(o) => Some(
                AuthConfig {
                    bastion_origin: text::own(o),
                    service_slug: match slug {
                        Some(s) => text::own(s),
                        None => text::own("binkflix"),
                    },
                },
            ),
        }
    }

    /// Where the keys of the sign-in service are found.
    pub fn jwks_url(&self) -> (r: String)
        ensures
            r@ == self.bastion_origin@ + "/.well-known/jwks.json"@,
    {
        let mut out = text::own(self.bastion_origin.as_str());
        out.push_str("/.well-known/jwks.json");
        out
    }

    /// Where a user is sent to sign in.
    pub fn login_url(&self) -> (r: String)
        ensures
            r@ == self.bastion_origin@ + "/auth/login?service="@ + url_encoded(
                vstd::utf8::encode_utf8(self.service_slug@),
            ),
    {
        let mut out = text::own(self.bastion_origin.as_str());
        out.push_str("/auth/login?service=");
        out.push_str(urlencode(self.service_slug.as_str()).as_str());
        out
    }
}

// ---- text in addresses ----

/// A byte that stands for itself in an address.
pub open spec fn is_plain_byte(b: u8) -> bool {
    (65 <= b <= 90) || (97 <= b <= 122) || (48 <= b <= 57) || b == 45 || b == 95 || b == 46 || b
        == 126
}

/// An upper-case hexadecimal digit.
pub open spec fn hex_digit(d: int) -> char {
    if d < 10 {
        (48 + d) as char
    } else {
        (55 + d) as char
    }
}

/// A byte as it is written in an address.
pub open spec fn encoded_byte(b: u8) -> Seq<char> {
    if is_plain_byte(b) {
        seq![b as char]
    } else {
        seq!['%', hex_digit(b as int / 16), hex_digit(b as int % 16)]
    }
}

/// Bytes as they are written in an address.
pub open spec fn url_encoded(bytes: Seq<u8>) -> Seq<char>
    decreases bytes.len(),
{
    if bytes.len() == 0 {
        Seq::empty()
    } else {
        url_encoded(bytes.drop_last()) + encoded_byte(bytes.last())
    }
}

fn hex(d: u8) -> (r: char)
    requires
        d < 16,
    ensures
        r == hex_digit(d as int),
{
    if d < 10 {
        (48 + d) as char
    } else {
        (55 + d) as char
    }
}

pub(crate) fn push_byte(out: &mut String, b: u8)
    ensures
        final(out)@ == old(out)@ + encoded_byte(b),
{
    if (65 <= b && b <= 90) || (97 <= b && b <= 122) || (48 <= b && b <= 57) || b == 45 || b == 95
        || b == 46 || b == 126 {
        out.push(b as char);
    } else {
        out.push('%');
        out.push(hex(b / 16));
        out.push(hex(b % 16));
    }
    assert(out@ =~= old(out)@ + encoded_byte(b));
}

/// A text as it is written in an address.
pub fn urlencode(s: &str) -> (r: String)
    ensures
        r@ == url_encoded(vstd::utf8::encode_utf8(s@)),
{
    let bytes = s.as_bytes();
    let ghost all = bytes@;
    let mut out = String::new();
    let mut i: usize = 0;
    assert(all.take(0) =~= Seq::<u8>::empty());
    assert(out@ =~= url_encoded(all.take(0)));
    while i < bytes.len()
        invariant
            i <= bytes@.len(),
            all == bytes@,
            out@ == url_encoded(all.take(i as int)),
        decreases bytes@.len() - i,
    {
        let b: u8 = bytes[i];
        push_byte(&mut out, b);
        assert(all.take(i + 1).drop_last() =~= all.take(i as int));
        i += 1;
    }
    assert(all.take(i as int) =~= all);
    out
}

// ---- who may see what ----

/// A path that everyone may see.
pub open spec fn is_public(path: Seq<char>) -> bool {
    text::begins_with(path, "/auth/"@) || text::begins_with(path, "/jassub/"@)
        || text::begins_with(path, "/static/"@) || path == "/favicon.ico"@
}

/// Whether a path can be read without signing in.
pub fn is_public_path(path: &str) -> (r: bool)
    ensures
        r == is_public(path@),
{
    text::starts_with(path, "/auth/") || text::starts_with(path, "/jassub/") || text::starts_with(
        path,
        "/static/",
    ) || *path == *"/favicon.ico"
}

/// What becomes of a request.
#[derive(Debug, Clone, Copy, PartialEq, Eq, Structural)]
pub enum Gate {
    /// It is let through.
    Open,
    /// It is let through as that of the one user there is.
    Dev,
    /// It is let through as that of the session's user.
    User,
    /// It is refused.
    Unauthorized,
    /// It is sent to sign in.
    ToLogin,
}

/// What becomes of a request: calls of the interface are refused, visits of a page are
/// sent to sign in.
pub open spec fn gate_for(
    path: Seq<char>,
    accept: Seq<char>,
    auth_enabled: bool,
    has_session: bool,
) -> Gate {
    if is_public(path) {
        Gate::Open
    } else if !auth_enabled {
        Gate::Dev
    } else if has_session {
        Gate::User
    } else if text::begins_with(path, "/api/"@) || !text::has_text(accept, "text/html"@) {
        Gate::Unauthorized
    } else {
        Gate::ToLogin
    }
}

/// Decides what becomes of a request for `path`; `accept` says what the client takes.
pub fn require_session(path: &str, accept: &str, auth_enabled: bool, has_session: bool) -> (r: Gate)
    ensures
        r == gate_for(path@, accept@, auth_enabled, has_session),
{
    if is_public_path(path) {
        Gate::Open
    } else if !auth_enabled {
        Gate::Dev
    } else if has_session {
        Gate::User
    } else if text::starts_with(path, "/api/") || !text::contains(accept, "text/html") {
        Gate::Unauthorized
    } else {
        Gate::ToLogin
    }
}

/// Without a session, nothing that is not public is let through while signing in is on.
pub proof fn no_session_no_entry(path: Seq<char>, accept: Seq<char>)
    ensures
        !is_public(path) ==> gate_for(path, accept, true, false) is Unauthorized || gate_for(
            path,
            accept,
            true,
            false,
        ) is ToLogin,
        text::begins_with(path, "/api/"@) ==> gate_for(path, accept, true, false) is Unauthorized,
{
    reveal_strlit("/api/");
    reveal_strlit("/auth/");
    reveal_strlit("/jassub/");
    reveal_strlit("/static/");
    reveal_strlit("/favicon.ico");
    if text::begins_with(path, "/api/"@) {
        assert(path[1] == "/api/"@[1]);
        assert(path[2] == "/api/"@[2]);
        if text::begins_with(path, "/auth/"@) {
            assert(path[2] == "/auth/"@[2]);
        }
        if text::begins_with(path, "/jassub/"@) {
            assert(path[1] == "/jassub/"@[1]);
        }
        if text::begins_with(path, "/static/"@) {
            assert(path[1] == "/static/"@[1]);
        }
    }
}

// ---- sessions ----

/// Someone who has signed in.
#[derive(Debug)]
pub struct Session {
    /// The user's lasting identity.
    pub user_sub: String,
    pub login: String,
    /// The keys of the permissions that the user has.
    pub perms: Vec<String>,
    /// By a clock that counts milliseconds.
    pub created_at: u64,
}

#[verifier::ext_equal]
pub struct SessionView {
    pub user_sub: Seq<char>,
    pub login: Seq<char>,
    pub perms: Seq<Seq<char>>,
    pub created_at: u64,
}

impl View for Session {
    type V = SessionView;

    open spec fn view(&self) -> SessionView {
        SessionView {
            user_sub: self.user_sub@,
            login: self.login@,
            perms: types::texts(self.perms@),
            created_at: self.created_at,
        }
    }
}

fn copy_session(s: &Session) -> (r: Session)
    ensures
        r@ == s@,
{
    Session {
        user_sub: text::own(s.user_sub.as_str()),
        login: text::own(s.login.as_str()),
        perms: types::copy_texts(&s.perms),
        created_at: s.created_at,
    }
}

/// The permission to start scans and to change the library.
pub const LIBRARY_WRITE: &'static str = "library:write";

/// The permission to report what was watched.
pub const PLAYBACK_WRITE: &'static str = "playback:write";

/// The session of the one user there is while signing in is off: that user may do all.
pub fn dev_session(now: u64) -> (r: Session)
    ensures
        r@ == (SessionView {
            user_sub: "dev"@,
            login: "dev"@,
            perms: seq![LIBRARY_WRITE@, PLAYBACK_WRITE@],
            created_at: now,
        }),
{
    let mut perms: Vec<String> = Vec::new();
    types::push_text(&mut perms, LIBRARY_WRITE);
    types::push_text(&mut perms, PLAYBACK_WRITE);
    let r = Session { user_sub: text::own("dev"), login: text::own("dev"), perms, created_at: now };
    assert(r@.perms =~= seq![LIBRARY_WRITE@, PLAYBACK_WRITE@]);
    r
}

/// Whether a permission is among those that a user has.
pub fn allowed(perms: &Vec<String>, key: &str) -> (r: bool)
    ensures
        r == types::texts(perms@).contains(key@),
{
    types::holds_text(perms, key)
}

/// Lets a user do what asks for a permission, or says with which status it is refused.
pub fn require_perm(session: &Session, key: &str) -> (r: Result<(), u16>)
    ensures
        match r {
            Ok(_) => session@.perms.contains(key@),
            Err(status) => !session@.perms.contains(key@) && status == 403,
        },
{
    if allowed(&session.perms, key) {
        Ok(())
    } else {
        Err(403)
    }
}

/// The sessions of all who have signed in, each under the value of its cookie.
#[derive(Debug)]
pub struct Sessions {
    entries: Vec<(String, Session)>,
}

/// The entry with a key, from the last one down.
pub open spec fn entry_of(v: Seq<(String, Session)>, key: Seq<char>) -> Option<SessionView>
    decreases v.len(),
{
    if v.len() == 0 {
        None
    } else if v.last().0@ == key {
        Some(v.last().1@)
    } else {
        entry_of(v.drop_last(), key)
    }
}

impl Sessions {
    /// The session under a key, however old.
    pub closed spec fn lookup(&self, key: Seq<char>) -> Option<SessionView> {
        entry_of(self.entries@, key)
    }

    /// A store that knows no one.
    pub fn new() -> (r: Self)
        ensures
            forall|k: Seq<char>| r.lookup(k) is None,
    {
        Sessions { entries: Vec::new() }
    }

    /// Stores a session. One that stood under the key goes.
    pub fn insert(&mut self, sid: String, session: Session)
        ensures
            forall|k: Seq<char>|
                #[trigger] final(self).lookup(k) == if k == sid@ {
                    Some(session@)
                } else {
                    old(self).lookup(k)
                },
    {
        self.remove(sid.as_str());
        let ghost mid = *self;
        self.entries.push((sid, session));
        proof {
            assert(self.entries@.drop_last() =~= mid.entries@);
            assert forall|k: Seq<char>| #[trigger] self.lookup(k) == if k == sid@ {
                Some(session@)
            } else {
                old(self).lookup(k)
            } by {
                assert(mid.lookup(k) == if k == sid@ {
                    None
                } else {
                    old(self).lookup(k)
                });
            }
        }
    }

    /// Forgets a session.
    pub fn remove(&mut self, sid: &str)
        ensures
            forall|k: Seq<char>|
                #[trigger] final(self).lookup(k) == if k == sid@ {
                    None
                } else {
                    old(self).lookup(k)
                },
    {
        let ghost before = self.entries@;
        let mut kept: Vec<(String, Session)> = Vec::new();
        let mut i: usize = 0;
        assert(before.take(0) =~= Seq::<(String, Session)>::empty());
        while i < self.entries.len()
            invariant
                i <= self.entries@.len(),
                self.entries@ == before,
                forall|k: Seq<char>|
                    #[trigger] entry_of(kept@, k) == if k == sid@ {
                        None
                    } else {
                        entry_of(before.take(i as int), k)
                    },
            decreases self.entries@.len() - i,
        {
            let ghost prev = kept@;
            proof {
                assert(before.take(i + 1).drop_last() =~= before.take(i as int));
                assert(before.take(i + 1).last() == before[i as int]);
            }
            if *self.entries[i].0.as_str() != *sid {
                let key = text::own(self.entries[i].0.as_str());
                let s = copy_session(&self.entries[i].1);
                kept.push((key, s));
                assert(kept@.drop_last() =~= prev);
            }
            proof {
                assert forall|k: Seq<char>| #[trigger] entry_of(kept@, k) == if k == sid@ {
                    None
                } else {
                    entry_of(before.take(i + 1), k)
                } by {
                    assert(entry_of(prev, k) == if k == sid@ {
                        None
                    } else {
                        entry_of(before.take(i as int), k)
                    });
                }
            }
            i += 1;
        }
        assert(before.take(i as int) =~= before);
        self.entries = kept;
    }

    /// The session under the value of a cookie at `now`: none that is too old.
    pub fn session_of(&self, sid: Option<&str>, now: u64) -> (r: Option<Session>)
        ensures
            match r {
                Some(s) => sid matches Some(k) && self.lookup(k@) == Some(s@) && !is_expired(
                    s@,
                    now,
                ),
                None => match sid {
                    Some(k) => match self.lookup(k@) {
                        Some(s) => is_expired(s, now),
                        None => true,
                    },
                    None => true,
                },
            },
    {
        let key = match sid {
            Some(k) => k,
            None => {
                return None;
            },
        };
        let mut i: usize = self.entries.len();
        assert(self.entries@.take(i as int) =~= self.entries@);
        while i > 0
            invariant
                i <= self.entries@.len(),
                sid == Some(key),
                self.lookup(key@) == entry_of(self.entries@.take(i as int), key@),
            decreases i,
        {
            proof {
                assert(self.entries@.take(i as int).drop_last() =~= self.entries@.take(i - 1));
                assert(self.entries@.take(i as int).last() == self.entries@[i - 1]);
            }
            if *self.entries[i - 1].0.as_str() == *key {
                let s = copy_session(&self.entries[i - 1].1);
                if now > s.created_at && now - s.created_at > SESSION_TTL_MS {
                    return None;
                }
                return Some(s);
            }
            i -= 1;
        }
        None
    }
}

/// A session that was made too long ago.
pub open spec fn is_expired(s: SessionView, now: u64) -> bool {
    now - s.created_at > SESSION_TTL_MS
}

/// Whether keys that were fetched `age` milliseconds ago are used again.
pub fn jwks_fresh(age_ms: Option<u64>) -> (r: bool)
    ensures
        r == (age_ms matches Some(a) && a < JWKS_TTL_MS),
{
    match age_ms {
        Some(a) => a < JWKS_TTL_MS,
        None => false,
    }
}

// ---- coming back from the sign-in service ----

/// The name by which someone without one is shown.
pub open spec fn fallback_name(user_sub: Seq<char>) -> Seq<char> {
    "user:"@ + text::byte_prefix(user_sub, 8)
}

/// The name by which a user is shown: their own, else the start of their identity.
pub fn login_name(username: Option<String>, user_sub: &str) -> (r: String)
    requires
        username is None ==> text::splits_at(user_sub@, 8),
    ensures
        r@ == match username {
            Some(n) => n@,
            None => fallback_name(user_sub@),
        },
{
    match username {
        Some(n) => n,
        None => {
            let mut out = text::own("user:");
            let head = text::first_bytes(user_sub, 8);
            out.push_str(head.as_str());
            out
        },
    }
}

/// The value of a new session's cookie.
pub fn new_sid() -> (r: String)
    ensures
        ids::is_simple_uuid(r@),
{
    ids::fresh_simple_uuid()
}

/// What `jsonwebtoken` reads from the header of a token: the id of its key, if it names
/// one, or what is wrong with it.
pub uninterp spec fn header_of(token: Seq<char>) -> Result<Option<Seq<char>>, Seq<char>>;

/// `jsonwebtoken::decode_header`, and the `kid` of the header it gives, or the text of
/// its error. Which tokens it can read is left to `jsonwebtoken`.
#[verifier::external_body]
fn read_header(token: &str) -> (r: Result<Option<String>, String>)
    ensures
        match r {
            Ok(kid) => header_of(token@) == Ok::<Option<Seq<char>>, Seq<char>>(
                types::opt_text(kid),
            ),
            Err(why) => header_of(token@) == Err::<Option<Seq<char>>, Seq<char>>(why@),
        },
{
    jsonwebtoken::decode_header(token).map(|h| h.kid).map_err(|e| e.to_string())
}

/// The id of the key that signed a token, or what is wrong with the token.
pub fn token_kid(token: &str) -> (r: Result<String, String>)
    ensures
        match header_of(token@) {
            Ok(Some(k)) => r matches Ok(s) && s@ == k,
            Ok(None) => r matches Err(e) && e@ == "token missing kid"@,
            Err(why) => r matches Err(e) && e@ == why,
        },
{
    require_kid(read_header(token))
}

/// The id that a token's header names, or what is wrong with the token.
pub fn require_kid(header: Result<Option<String>, String>) -> (r: Result<String, String>)
    ensures
        match header {
            Ok(Some(k)) => r matches Ok(s) && s@ == k@,
            Ok(None) => r matches Err(e) && e@ == "token missing kid"@,
            Err(why) => r matches Err(e) && e@ == why@,
        },
{
    match header {
        Ok(kid) => match kid {
            Some(k) => Ok(k),
            None => Err(text::own("token missing kid")),
        },
        Err(e) => Err(e),
    }
}

/// The index of the first key with an id, or the number of keys.
pub open spec fn key_index(kids: Seq<Option<String>>, kid: Seq<char>, i: int) -> int
    decreases kids.len() - i,
{
    if i < 0 || i >= kids.len() || types::opt_text(kids[i]) == Some(kid) {
        i
    } else {
        key_index(kids, kid, i + 1)
    }
}

/// Which of the keys a token was signed with.
pub fn find_key(kids: &Vec<Option<String>>, kid: &str) -> (r: Result<usize, String>)
    ensures
        match r {
            Ok(i) => i < kids@.len() && i == key_index(kids@, kid@, 0),
            Err(why) => key_index(kids@, kid@, 0) == kids@.len() && why@ == "unknown kid "@ + kid@,
        },
{
    let mut i: usize = 0;
    while i < kids.len()
        invariant
            i <= kids@.len(),
            key_index(kids@, kid@, 0) == key_index(kids@, kid@, i as int),
        decreases kids@.len() - i,
    {
        if let Some(k) = &kids[i] {
            if *k.as_str() == *kid {
                return Ok(i);
            }
        }
        i += 1;
    }
    let mut why = text::own("unknown kid ");
    why.push_str(kid);
    Err(why)
}

/// A token is for this service.
pub fn check_service(svc: &str, service_slug: &str) -> (r: Result<(), String>)
    ensures
        match r {
            Ok(_) => svc@ == service_slug@,
            Err(why) => svc@ != service_slug@ && why@ == "token svc claim mismatch"@,
        },
{
    if *svc != *service_slug {
        Err(text::own("token svc claim mismatch"))
    } else {
        Ok(())
    }
}

/// Why someone who comes back from the sign-in service is turned away at once.
#[derive(Debug, Clone, Copy, PartialEq, Eq, Structural)]
pub enum CallbackError {
    /// Signing in is off.
    Disabled,
    /// They bring no token.
    MissingToken,
}

impl CallbackError {
    /// The status and the text of the answer.
    pub fn answer(self) -> (r: (u16, &'static str))
        ensures
            match self {
                CallbackError::Disabled => r.0 == 404 && r.1@ == "auth disabled"@,
                CallbackError::MissingToken => r.0 == 400 && r.1@ == "missing bastion_token"@,
            },
    {
        match self {
            CallbackError::Disabled => (404, "auth disabled"),
            CallbackError::MissingToken => (400, "missing bastion_token"),
        }
    }
}

/// The token that someone brings back.
pub fn callback_token(auth_enabled: bool, token: Option<String>) -> (r: Result<
    String,
    CallbackError,
>)
    ensures
        match (auth_enabled, token) {
            (false, _) => r == Err::<String, CallbackError>(CallbackError::Disabled),
            (true, None) => r == Err::<String, CallbackError>(CallbackError::MissingToken),
            (true, Some(t)) => r == Ok::<String, CallbackError>(t),
        },
{
    if !auth_enabled {
        return Err(CallbackError::Disabled);
    }
    match token {
        Some(t) => Ok(t),
        None => Err(CallbackError::MissingToken),
    }
}

// ---- further laws ----

proof fn begins_the_same(s: Seq<char>, prefix: Seq<char>, i: int)
    requires
        0 <= i < prefix.len(),
    ensures
        text::begins_with(s, prefix) ==> s[i] == prefix[i],
{
    if text::begins_with(s, prefix) {
        assert(s.subrange(0, prefix.len() as int)[i] == s[i]);
    }
}

/// Nothing of the interface is public, nor the first page; what is public is open to all,
/// and whoever has a session gets in everywhere.
pub proof fn the_interface_is_never_public(path: Seq<char>, accept: Seq<char>, enabled: bool)
    ensures
        text::begins_with(path, "/api/"@) ==> !is_public(path),
        !is_public("/"@),
        is_public(path) ==> gate_for(path, accept, enabled, false) is Open,
        !is_public(path) ==> gate_for(path, accept, true, true) is User,
        !is_public(path) ==> gate_for(path, accept, false, false) is Dev,
        gate_for(path, accept, true, false) is ToLogin ==> text::has_text(accept, "text/html"@)
            && !text::begins_with(path, "/api/"@),
        !is_public(path) && !text::has_text(accept, "text/html"@) ==> gate_for(
            path,
            accept,
            true,
            false,
        ) is Unauthorized,
{
    reveal_strlit("/api/");
    reveal_strlit("/auth/");
    reveal_strlit("/jassub/");
    reveal_strlit("/static/");
    reveal_strlit("/favicon.ico");
    reveal_strlit("/");
    if text::begins_with(path, "/api/"@) {
        begins_the_same(path, "/api/"@, 1);
        begins_the_same(path, "/api/"@, 2);
        begins_the_same(path, "/auth/"@, 2);
        begins_the_same(path, "/jassub/"@, 1);
        begins_the_same(path, "/static/"@, 1);
        if path == "/favicon.ico"@ {
            assert(path[1] == 'f');
        }
    }
    assert("/"@.len() == 1);
}

/// A session lasts thirty days to the millisecond.
pub proof fn sessions_last_thirty_days(s: SessionView, now: u64)
    ensures
        is_expired(s, now) <==> now > s.created_at + 30 * 24 * 3_600_000,
{
}

/// The key that is taken is the first with the id of the token; none is where no key has it.
pub proof fn first_key_with_the_id(kids: Seq<Option<String>>, kid: Seq<char>, from: int)
    requires
        0 <= from <= kids.len(),
    ensures
        ({
            let i = key_index(kids, kid, from);
            &&& from <= i <= kids.len()
            &&& i < kids.len() ==> types::opt_text(kids[i]) == Some(kid)
            &&& forall|j: int| from <= j < i ==> types::opt_text(#[trigger] kids[j]) != Some(kid)
        }),
    decreases kids.len() - from,
{
    if from < kids.len() && types::opt_text(kids[from]) != Some(kid) {
        first_key_with_the_id(kids, kid, from + 1);
    }
}

/// The value of a hexadecimal digit.
pub open spec fn hex_value(c: char) -> int {
    if '0' <= c <= '9' {
        c as int - 48
    } else {
        c as int - 55
    }
}

/// The bytes that a text in an address stands for.
pub open spec fn url_decoded(s: Seq<char>) -> Seq<u8>
    decreases s.len(),
{
    if s.len() == 0 {
        Seq::empty()
    } else if s[0] == '%' && s.len() >= 3 {
        seq![(16 * hex_value(s[1]) + hex_value(s[2])) as u8] + url_decoded(s.skip(3))
    } else {
        seq![s[0] as u8] + url_decoded(s.skip(1))
    }
}

proof fn first_byte_is_written_first(b: u8, rest: Seq<u8>)
    ensures
        url_encoded(seq![b] + rest) == encoded_byte(b) + url_encoded(rest),
    decreases rest.len(),
{
    let all = seq![b] + rest;
    if rest.len() == 0 {
        assert(all.drop_last() =~= Seq::empty());
        assert(url_encoded(all.drop_last()) =~= Seq::empty());
        assert(url_encoded(all) =~= encoded_byte(b) + url_encoded(rest));
    } else {
        first_byte_is_written_first(b, rest.drop_last());
        assert(all.drop_last() =~= seq![b] + rest.drop_last());
        assert(all.last() == rest.last());
        assert(url_encoded(all) =~= encoded_byte(b) + url_encoded(rest));
    }
}

proof fn hex_digit_is_read(d: int)
    requires
        0 <= d < 16,
    ensures
        hex_value(hex_digit(d)) == d,
{
}

proof fn written_byte_is_read(b: u8, rest: Seq<char>)
    ensures
        url_decoded(encoded_byte(b) + rest) == seq![b] + url_decoded(rest),
{
    let e = encoded_byte(b);
    let s = e + rest;
    assert(s[0] == e[0]);
    if is_plain_byte(b) {
        assert(s.skip(1) =~= rest);
        assert(s[0] == b as char);
        assert((b as char) as u8 == b);
    } else {
        let h = b as int / 16;
        let l = b as int % 16;
        hex_digit_is_read(h);
        hex_digit_is_read(l);
        assert(s.skip(3) =~= rest);
        assert(s[1] == e[1] && s[2] == e[2]);
        assert(16 * h + l == b);
    }
}

/// What is written in an address is read back as it was, whatever bytes it has.
pub proof fn encoded_text_is_read_back(bytes: Seq<u8>)
    ensures
        url_decoded(url_encoded(bytes)) == bytes,
    decreases bytes.len(),
{
    if bytes.len() > 0 {
        let b = bytes[0];
        let rest = bytes.skip(1);
        assert(bytes =~= seq![b] + rest);
        first_byte_is_written_first(b, rest);
        encoded_text_is_read_back(rest);
        written_byte_is_read(b, url_encoded(rest));
        assert(url_decoded(url_encoded(bytes)) =~= bytes);
    } else {
        assert(url_decoded(url_encoded(bytes)) =~= bytes);
    }
}

/// Nothing that means something else in an address is written: only letters, digits, four
/// marks, and the percent sign of an escape.
pub proof fn encoded_text_is_harmless(bytes: Seq<u8>)
    ensures
        forall|i: int|
            0 <= i < url_encoded(bytes).len() ==> text::is_ascii_alnum(
                #[trigger] url_encoded(bytes)[i],
            ) || url_encoded(bytes)[i] == '-' || url_encoded(bytes)[i] == '_' || url_encoded(
                bytes,
            )[i] == '.' || url_encoded(bytes)[i] == '~' || url_encoded(bytes)[i] == '%',
    decreases bytes.len(),
{
    if bytes.len() > 0 {
        encoded_text_is_harmless(bytes.drop_last());
        let front = url_encoded(bytes.drop_last());
        let last = encoded_byte(bytes.last());
        let all = url_encoded(bytes);
        assert forall|i: int| 0 <= i < all.len() implies text::is_ascii_alnum(#[trigger] all[i])
            || all[i] == '-' || all[i] == '_' || all[i] == '.' || all[i] == '~' || all[i]
            == '%' by {
            if i < front.len() {
                assert(all[i] == front[i]);
            } else {
                assert(all[i] == last[i - front.len()]);
            }
        }
    }
}

/// Someone without a name is called by the first eight characters of what identifies them.
pub proof fn nameless_users_are_told_apart(sub: Seq<char>)
    requires
        sub.len() >= 8,
        forall|i: int| 0 <= i < 8 ==> text::is_ascii_char(#[trigger] sub[i]),
    ensures
        fallback_name(sub) == "user:"@ + sub.take(8),
{
    text::ascii_prefix_is_by_character(sub, 8);
}

} // verus!
