//! Registering this service with the sign-in service.

use crate::text;
use crate::types;
use vstd::prelude::*;

verus! {

/// How often the sign-in service is asked whether it has decided, in seconds.
pub const POLL_INTERVAL_SECS: u64 = 30;

/// A key pair's public half.
#[derive(Debug)]
pub struct Keypair {
    pub public_jwk_json: String,
}

/// What the sign-in service thinks of this service.
#[derive(Debug, Clone, Copy, PartialEq, Eq, Structural)]
pub enum RegistrationStatus {
    Pending,
    Approved,
    Denied,
}

/// A permission that users can be given.
#[derive(Debug)]
pub struct Permission {
    pub key: String,
    pub description: String,
    /// Every user has it until it is taken away.
    pub default_allow: bool,
}

/// The permissions that this service knows.
pub fn binkflix_perms() -> (r: Vec<Permission>)
    ensures
        r@.len() == 2,
        r@[0].key@ == "library:write"@,
        r@[0].description@ == "Trigger scans, edit library metadata"@,
        !r@[0].default_allow,
        r@[1].key@ == "playback:write"@,
        r@[1].description@ == "Submit playback progress and history"@,
        r@[1].default_allow,
{
    let mut v: Vec<Permission> = Vec::new();
    v.push(
        Permission {
            key: text::own("library:write"),
            description: text::own("Trigger scans, edit library metadata"),
            default_allow: false,
        },
    );
    v.push(
        Permission {
            key: text::own("playback:write"),
            description: text::own("Submit playback progress and history"),
            default_allow: true,
        },
    );
    v
}

// ---- addresses ----

/// `s` without the separators at its end.
pub open spec fn without_slashes(s: Seq<char>) -> Seq<char>
    decreases s.len(),
{
    if s.len() > 0 && s.last() == '/' {
        without_slashes(s.drop_last())
    } else {
        s
    }
}

fn trim_slashes(s: &str) -> (r: String)
    ensures
        r@ == without_slashes(s@),
{
    let v = text::chars_of(s);
    let mut n: usize = v.len();
    assert(v@.take(n as int) =~= v@);
    while n > 0 && v[n - 1] == '/'
        invariant
            n <= v@.len(),
            without_slashes(v@.take(n as int)) == without_slashes(v@),
        decreases n,
    {
        assert(v@.take(n as int).drop_last() =~= v@.take(n - 1));
        n -= 1;
    }
    let out = text::string_of(&v, 0, n);
    assert(out@ =~= v@.take(n as int));
    out
}

/// Where this service asks to be let in.
pub fn register_url(bastion_origin: &str) -> (r: String)
    ensures
        r@ == without_slashes(bastion_origin@) + "/api/services/register"@,
{
    let mut out = trim_slashes(bastion_origin);
    out.push_str("/api/services/register");
    out
}

/// Where this service asks how its request stands.
pub fn status_url(bastion_origin: &str, slug: &str) -> (r: String)
    ensures
        r@ == without_slashes(bastion_origin@) + "/api/services/"@ + slug@ + "/status"@,
{
    let mut out = trim_slashes(bastion_origin);
    out.push_str("/api/services/");
    out.push_str(slug);
    out.push_str("/status");
    out
}

// ---- answers ----

/// The status that a word names. Any other word, and none, means that nothing is decided.
pub open spec fn status_named(word: Option<Seq<char>>) -> RegistrationStatus {
    match word {
        Some(w) => if w == "approved"@ {
            RegistrationStatus::Approved
        } else if w == "denied"@ {
            RegistrationStatus::Denied
        } else {
            RegistrationStatus::Pending
        },
        None => RegistrationStatus::Pending,
    }
}

/// How a request stands, by the word that says it.
pub fn status_of(word: Option<&str>) -> (r: RegistrationStatus)
    ensures
        r == status_named(types::opt_str(word)),
{
    match word {
        Some(w) => if *w == *"approved" {
            RegistrationStatus::Approved
        } else if *w == *"denied" {
            RegistrationStatus::Denied
        } else {
            RegistrationStatus::Pending
        },
        None => RegistrationStatus::Pending,
    }
}

/// The text under a key of a JSON object.
pub uninterp spec fn json_text(document: Seq<char>, key: Seq<char>) -> Option<Seq<char>>;

/// `serde_json::from_str` into a `Value`, and of it `get` and `as_str`: the text that stands
/// under a key of an object. There is none where the document is not JSON, is no object,
/// lacks the key or has something other than a text there. What the text is goes by the
/// document and the key alone.
#[verifier::external_body]
fn text_in_json(document: &str, key: &str) -> (r: Option<String>)
    ensures
        types::opt_text(r) == json_text(document@, key@),
{
    let value: serde_json::Value = serde_json::from_str(document).ok()?;
    value.get(key).and_then(|v| v.as_str()).map(|s| s.to_string())
}

/// What the answer to a registration says. `status` is the answer's status line.
pub fn register_answer(success: bool, status: &str, body: &str) -> (r: Result<
    RegistrationStatus,
    String,
>)
    ensures
        match r {
            Ok(s) => success && s == status_named(json_text(body@, "status"@)),
            Err(why) => !success && why@ == "bastion /api/services/register returned "@ + status@
                + ": "@ + body@,
        },
{
    let word = text_in_json(body, "status");
    match &word {
        Some(w) => register_outcome(success, status, body, Some(w.as_str())),
        None => register_outcome(success, status, body, None),
    }
}

/// What has been decided, by the body of an answer where the sign-in service answered as it
/// should. It is asked again until something is.
pub fn poll_answer(body: Option<&str>) -> (r: RegistrationStatus)
    ensures
        r == match types::opt_str(body) {
            Some(b) => status_named(json_text(b, "status"@)),
            None => RegistrationStatus::Pending,
        },
{
    match body {
        None => RegistrationStatus::Pending,
        Some(b) => {
            let word = text_in_json(b, "status");
            match &word {
                Some(w) => status_of(Some(w.as_str())),
                None => status_of(None),
            }
        },
    }
}

/// What the answer to a registration says. `status` is the answer's status line, `word`
/// the status that its body names, where it names one.
pub fn register_outcome(success: bool, status: &str, body: &str, word: Option<&str>) -> (r: Result<
    RegistrationStatus,
    String,
>)
    ensures
        match r {
            Ok(s) => success && s == status_named(types::opt_str(word)),
            Err(why) => !success && why@ == "bastion /api/services/register returned "@ + status@
                + ": "@ + body@,
        },
{
    if !success {
        let mut why = text::own("bastion /api/services/register returned ");
        why.push_str(status);
        why.push_str(": ");
        why.push_str(body);
        return Err(why);
    }
    Ok(status_of(word))
}

// ---- the id of a key ----

/// The bit `k` of bytes, the highest of the first one first. Beyond them, nothing.
pub open spec fn bit_of(bytes: Seq<u8>, k: int) -> int {
    if 0 <= k < 8 * bytes.len() {
        let shift = 7 - k % 8;
        let b = bytes[k / 8] as int;
        (if shift == 7 {
            b / 128
        } else if shift == 6 {
            b / 64
        } else if shift == 5 {
            b / 32
        } else if shift == 4 {
            b / 16
        } else if shift == 3 {
            b / 8
        } else if shift == 2 {
            b / 4
        } else if shift == 1 {
            b / 2
        } else {
            b
        }) % 2
    } else {
        0
    }
}

/// The number that the five bits from `k` on make.
pub open spec fn five_bits(bytes: Seq<u8>, k: int) -> int {
    16 * bit_of(bytes, k) + 8 * bit_of(bytes, k + 1) + 4 * bit_of(bytes, k + 2) + 2 * bit_of(
        bytes,
        k + 3,
    ) + bit_of(bytes, k + 4)
}

/// The character for five bits: the letters, then the digits from two on.
pub open spec fn base32_char(n: int) -> char {
    if n < 26 {
        (65 + n) as char
    } else {
        (24 + n) as char
    }
}

/// Bytes in base 32, without padding.
pub open spec fn base32_text(bytes: Seq<u8>) -> Seq<char> {
    Seq::new(
        ((8 * bytes.len() + 4) / 5) as nat,
        |i: int| base32_char(five_bits(bytes, 5 * i)),
    )
}

/// `data_encoding::BASE32_NOPAD.encode`: five bits for each character, the highest first,
/// with the alphabet `A` to `Z`, `2` to `7`, and nothing behind them.
#[verifier::external_body]
fn encode_base32(bytes: &Vec<u8>) -> (r: String)
    requires
        bytes@.len() <= 4096,
    ensures
        r@ == base32_text(bytes@),
{
    data_encoding::BASE32_NOPAD.encode(bytes)
}

/// `rand::thread_rng().fill_bytes` on `n` bytes. Claims how many there are; which ones is
/// left to chance.
#[verifier::external_body]
fn random_bytes(n: usize) -> (r: Vec<u8>)
    ensures
        r@.len() == n,
{
    let mut bytes = vec![0u8; n];
    rand::RngCore::fill_bytes(&mut rand::thread_rng(), &mut bytes);
    bytes
}

/// The id of a key that is made from the given bytes.
pub fn kid_of(bytes: &Vec<u8>) -> (r: String)
    requires
        bytes@.len() <= 4096,
    ensures
        r@ == text::lower_text(base32_text(bytes@)),
{
    text::to_lower(encode_base32(bytes).as_str())
}

/// A character of a key's id.
pub open spec fn is_kid_char(c: char) -> bool {
    'a' <= c <= 'z' || '2' <= c <= '7'
}

/// The id of a new key: twenty characters, made from twelve random bytes.
pub fn new_kid() -> (r: String)
    ensures
        r@.len() == 20,
        forall|i: int| 0 <= i < r@.len() ==> is_kid_char(#[trigger] r@[i]),
{
    let bytes = random_bytes(12);
    proof {
        kid_chars(bytes@);
    }
    kid_of(&bytes)
}

proof fn five_bits_range(bytes: Seq<u8>, k: int)
    ensures
        0 <= five_bits(bytes, k) < 32,
{
}

/// The id of a key is made of lower-case letters and the digits from two to seven, one
/// for every five bits.
pub proof fn kid_chars(bytes: Seq<u8>)
    ensures
        text::lower_text(base32_text(bytes)).len() == (8 * bytes.len() + 4) / 5,
        forall|i: int|
            0 <= i < text::lower_text(base32_text(bytes)).len() ==> is_kid_char(
                #[trigger] text::lower_text(base32_text(bytes))[i],
            ),
{
    let s = base32_text(bytes);
    assert forall|i: int| 0 <= i < s.len() implies text::is_ascii_char(#[trigger] s[i]) by {
        five_bits_range(bytes, 5 * i);
    }
    assert(text::all_ascii(s));
    let low = text::lower_text(s);
    assert(low == text::ascii_lower_text(s));
    assert forall|i: int| 0 <= i < low.len() implies is_kid_char(#[trigger] low[i]) by {
        five_bits_range(bytes, 5 * i);
        assert(low[i] == text::ascii_lower(s[i]));
    }
}

// ---- a new pair of keys ----

/// How long a new key is, in bits.
pub const KEY_BITS: u32 = 2048;

/// `josekit::jwk::Jwk`, a key as a JSON object. What texts it holds is [`jwk_texts`], and
/// whether it holds anything else is [`holds_only_texts`].
#[verifier::external_type_specification]
#[verifier::external_body]
pub struct ExJwk(josekit::jwk::Jwk);

/// The texts that a key holds, each under the name of its parameter.
pub uninterp spec fn jwk_texts(jwk: josekit::jwk::Jwk) -> Map<Seq<char>, Seq<char>>;

/// Every parameter of a key is a text.
pub uninterp spec fn holds_only_texts(jwk: josekit::jwk::Jwk) -> bool;

/// How many characters of base 64 without padding a number of bits takes that fills whole
/// bytes.
pub open spec fn base64_chars(bits: int) -> int {
    (bits + 5) / 6
}

/// The parameters of an RSA key that are nobody else's business.
pub open spec fn secret_names() -> Seq<Seq<char>> {
    seq!["d"@, "p"@, "q"@, "dp"@, "dq"@, "qi"@]
}

/// The two halves of one pair: the same modulus and exponent, and nothing secret in the
/// public one.
pub open spec fn are_halves(secret: Map<Seq<char>, Seq<char>>, public: Map<Seq<char>, Seq<char>>) -> bool {
    &&& public.contains_key("n"@) && secret.contains_key("n"@) && public["n"@] == secret["n"@]
    &&& public.contains_key("e"@) && secret.contains_key("e"@) && public["e"@] == secret["e"@]
    &&& forall|i: int|
        0 <= i < secret_names().len() ==> secret.contains_key(#[trigger] secret_names()[i])
            && !public.contains_key(secret_names()[i])
}

/// `josekit::jws::RS256.generate_key_pair`, and of the pair `to_jwk_private_key` and
/// `to_jwk_public_key`. Claims that both hold texts only and the same modulus and exponent,
/// that the modulus has the number of bits that was asked for, and that only the first
/// holds the secret parameters. Which key it is, and whether one can be made, is left to
/// chance and to the machine.
#[verifier::external_body]
fn generate_keys(bits: u32) -> (r: Result<(josekit::jwk::Jwk, josekit::jwk::Jwk), String>)
    requires
        2048 <= bits <= 4096,
        bits % 8 == 0,
    ensures
        r matches Ok(k) ==> are_halves(jwk_texts(k.0), jwk_texts(k.1)),
        r matches Ok(k) ==> jwk_texts(k.1)["n"@].len() == base64_chars(bits as int),
        r matches Ok(k) ==> holds_only_texts(k.0) && holds_only_texts(k.1),
{
    let pair = josekit::jws::RS256.generate_key_pair(bits).map_err(|e| e.to_string())?;
    Ok((pair.to_jwk_private_key(), pair.to_jwk_public_key()))
}

/// `josekit::jwk::Jwk::set_key_id`: the parameter `kid` becomes the value, which is a
/// text.
#[verifier::external_body]
fn set_key_id(jwk: &mut josekit::jwk::Jwk, value: &str)
    ensures
        jwk_texts(*final(jwk)) == jwk_texts(*old(jwk)).insert("kid"@, value@),
        holds_only_texts(*old(jwk)) ==> holds_only_texts(*final(jwk)),
{
    jwk.set_key_id(value);
}

/// `josekit::jwk::Jwk::set_algorithm`: the parameter `alg` becomes the value, which is a
/// text.
#[verifier::external_body]
fn set_algorithm(jwk: &mut josekit::jwk::Jwk, value: &str)
    ensures
        jwk_texts(*final(jwk)) == jwk_texts(*old(jwk)).insert("alg"@, value@),
        holds_only_texts(*old(jwk)) ==> holds_only_texts(*final(jwk)),
{
    jwk.set_algorithm(value);
}

/// `josekit::jwk::Jwk::set_key_use`: the parameter `use` becomes the value, which is a
/// text.
#[verifier::external_body]
fn set_key_use(jwk: &mut josekit::jwk::Jwk, value: &str)
    ensures
        jwk_texts(*final(jwk)) == jwk_texts(*old(jwk)).insert("use"@, value@),
        holds_only_texts(*old(jwk)) ==> holds_only_texts(*final(jwk)),
{
    jwk.set_key_use(value);
}

/// What is read from a document under each name is the text that `texts` has there.
pub open spec fn reads_back(document: Seq<char>, texts: Map<Seq<char>, Seq<char>>) -> bool {
    forall|key: Seq<char>|
        #[trigger] json_text(document, key) == if texts.contains_key(key) {
            Some(texts[key])
        } else {
            None::<Seq<char>>
        }
}

/// `serde_json::to_string` of the parameters of a `josekit::jwk::Jwk`. Claims of a key that
/// holds texts only that it can be written, since the names are texts too and nothing else
/// makes writing fail, and that its texts are read back from the document. How that is laid
/// out is left unsaid.
#[verifier::external_body]
fn jwk_document(jwk: &josekit::jwk::Jwk) -> (r: Result<String, String>)
    requires
        holds_only_texts(*jwk),
    ensures
        r is Ok,
        r matches Ok(s) ==> reads_back(s@, jwk_texts(*jwk)),
{
    serde_json::to_string(jwk.as_ref()).map_err(|e| e.to_string())
}

/// A pair of keys as it is stored.
#[derive(Debug)]
pub struct ServiceKeys {
    pub kid: String,
    pub private_jwk: String,
    pub public_jwk: String,
}

/// What holds of every stored pair: both halves carry its id and the algorithm, the public
/// one says that it is for signatures, its modulus is as long as it should be, and nothing
/// secret stands in it.
pub open spec fn is_service_keys(k: ServiceKeys) -> bool {
    &&& k.kid@.len() == 20
    &&& forall|i: int| 0 <= i < k.kid@.len() ==> is_kid_char(#[trigger] k.kid@[i])
    &&& json_text(k.private_jwk@, "kid"@) == Some(k.kid@)
    &&& json_text(k.public_jwk@, "kid"@) == Some(k.kid@)
    &&& json_text(k.private_jwk@, "alg"@) == Some("RS256"@)
    &&& json_text(k.public_jwk@, "alg"@) == Some("RS256"@)
    &&& json_text(k.public_jwk@, "use"@) == Some("sig"@)
    &&& json_text(k.public_jwk@, "n"@) matches Some(n) && n.len() == base64_chars(
        KEY_BITS as int,
    )
    &&& json_text(k.public_jwk@, "n"@) == json_text(k.private_jwk@, "n"@)
    &&& json_text(k.public_jwk@, "e"@) is Some
    &&& json_text(k.public_jwk@, "e"@) == json_text(k.private_jwk@, "e"@)
    &&& forall|i: int|
        0 <= i < secret_names().len() ==> json_text(k.private_jwk@, #[trigger] secret_names()[i])
            is Some && json_text(k.public_jwk@, secret_names()[i]) is None
}

/// What the secret half of a pair holds once it is marked with an id.
pub open spec fn marked_secret(texts: Map<Seq<char>, Seq<char>>, kid: Seq<char>) -> Map<
    Seq<char>,
    Seq<char>,
> {
    texts.insert("kid"@, kid).insert("alg"@, "RS256"@)
}

/// What the public half of a pair holds once it is marked with an id.
pub open spec fn marked_public(texts: Map<Seq<char>, Seq<char>>, kid: Seq<char>) -> Map<
    Seq<char>,
    Seq<char>,
> {
    texts.insert("kid"@, kid).insert("alg"@, "RS256"@).insert("use"@, "sig"@)
}

/// `k` is a pair as it is stored under an id: each half holds what it held before, and its
/// marks.
pub open spec fn stores_pair(
    k: ServiceKeys,
    secret: Map<Seq<char>, Seq<char>>,
    public: Map<Seq<char>, Seq<char>>,
    kid: Seq<char>,
) -> bool {
    &&& k.kid@ == kid
    &&& reads_back(k.private_jwk@, marked_secret(secret, kid))
    &&& reads_back(k.public_jwk@, marked_public(public, kid))
}

/// A new pair of keys under a new id. Whether one can be made is left to the machine;
/// nothing else makes this fail.
pub fn new_keypair() -> (r: Result<ServiceKeys, String>)
    ensures
        match r {
            Ok(k) => is_service_keys(k),
            Err(why) => text::begins_with(why@, "rsa keygen: "@),
        },
{
    let made = generate_keys(KEY_BITS);
    let ghost pair = made;
    let kid = new_kid();
    let r = finish_keypair(made, kid);
    proof {
        match pair {
            Ok(p) => {
                names_differ();
            },
            Err(e) => {
                let why = "rsa keygen: "@ + e@;
                assert(why.subrange(0, "rsa keygen: "@.len() as int) =~= "rsa keygen: "@);
            },
        }
    }
    r
}

/// What becomes of an attempt to make a pair of keys: the pair as it is stored under an id,
/// or what went wrong.
fn finish_keypair(
    made: Result<(josekit::jwk::Jwk, josekit::jwk::Jwk), String>,
    kid: String,
) -> (r: Result<ServiceKeys, String>)
    requires
        made matches Ok(p) ==> holds_only_texts(p.0) && holds_only_texts(p.1),
    ensures
        match made {
            Ok(p) => r matches Ok(k) && stores_pair(k, jwk_texts(p.0), jwk_texts(p.1), kid@),
            Err(e) => r matches Err(why) && why@ == "rsa keygen: "@ + e@,
        },
{
    match made {
        Ok(pair) => name_keypair(pair.0, pair.1, kid),
        Err(e) => {
            let mut why = text::own("rsa keygen: ");
            why.push_str(e.as_str());
            Err(why)
        },
    }
}

/// A pair of keys as it is stored under an id.
fn name_keypair(secret: josekit::jwk::Jwk, public: josekit::jwk::Jwk, kid: String) -> (r: Result<
    ServiceKeys,
    String,
>)
    requires
        holds_only_texts(secret),
        holds_only_texts(public),
    ensures
        r matches Ok(k) && stores_pair(k, jwk_texts(secret), jwk_texts(public), kid@),
{
    let mut secret = secret;
    let mut public = public;
    set_key_id(&mut secret, kid.as_str());
    set_algorithm(&mut secret, "RS256");
    set_key_id(&mut public, kid.as_str());
    set_algorithm(&mut public, "RS256");
    set_key_use(&mut public, "sig");
    let private_jwk = match jwk_document(&secret) {
        Ok(s) => s,
        Err(e) => return Err(e),
    };
    let public_jwk = match jwk_document(&public) {
        Ok(s) => s,
        Err(e) => return Err(e),
    };
    Ok(ServiceKeys { kid, private_jwk, public_jwk })
}

/// The names under which the halves are marked are none of those that make up a key.
proof fn names_differ()
    ensures
        "kid"@ != "alg"@ && "kid"@ != "use"@ && "alg"@ != "use"@,
        forall|i: int|
            0 <= i < secret_names().len() ==> #[trigger] secret_names()[i] != "kid"@
                && secret_names()[i] != "alg"@ && secret_names()[i] != "use"@,
        "n"@ != "kid"@ && "n"@ != "alg"@ && "n"@ != "use"@,
        "e"@ != "kid"@ && "e"@ != "alg"@ && "e"@ != "use"@,
{
    reveal_strlit("kid");
    reveal_strlit("alg");
    reveal_strlit("use");
    reveal_strlit("n");
    reveal_strlit("e");
    reveal_strlit("d");
    reveal_strlit("p");
    reveal_strlit("q");
    reveal_strlit("dp");
    reveal_strlit("dq");
    reveal_strlit("qi");
    assert("kid"@[0] == 'k' && "alg"@[0] == 'a' && "use"@[0] == 'u');
    assert("kid"@.len() == 3 && "alg"@.len() == 3 && "use"@.len() == 3);
    assert("n"@.len() == 1 && "e"@.len() == 1);
    assert forall|i: int| 0 <= i < secret_names().len() implies #[trigger] secret_names()[i].len()
        < 3 by {}
}

// ---- further laws ----

/// Only the very words decide: without one of them the request is still open.
pub proof fn only_the_words_decide(word: Option<Seq<char>>)
    ensures
        status_named(word) is Approved <==> word == Some("approved"@),
        status_named(word) is Denied <==> word == Some("denied"@),
{
    reveal_strlit("approved");
    reveal_strlit("denied");
    assert("approved"@.len() != "denied"@.len());
}

/// An origin loses the slashes at its end, all of them and nothing else.
pub proof fn slashes_are_taken_off(s: Seq<char>)
    ensures
        without_slashes(s).is_prefix_of(s),
        without_slashes(s).len() > 0 ==> without_slashes(s).last() != '/',
        forall|i: int| without_slashes(s).len() <= i < s.len() ==> #[trigger] s[i] == '/',
    decreases s.len(),
{
    if s.len() > 0 && s.last() == '/' {
        let t = s.drop_last();
        slashes_are_taken_off(t);
        let k = without_slashes(t).len() as int;
        assert(t.subrange(0, k) =~= s.subrange(0, k));
        assert forall|i: int| k <= i < s.len() implies #[trigger] s[i] == '/' by {
            if i < t.len() {
                assert(s[i] == t[i]);
            }
        }
    } else {
        assert(s.subrange(0, s.len() as int) =~= s);
    }
}

/// A stored pair of keys is named alike in both halves, is meant for signatures, and keeps all
/// else that its halves said.
pub proof fn both_halves_are_named(
    k: ServiceKeys,
    secret: Map<Seq<char>, Seq<char>>,
    public: Map<Seq<char>, Seq<char>>,
    kid: Seq<char>,
    key: Seq<char>,
)
    requires
        stores_pair(k, secret, public, kid),
    ensures
        k.kid@ == kid,
        json_text(k.private_jwk@, "kid"@) == Some(kid),
        json_text(k.public_jwk@, "kid"@) == Some(kid),
        json_text(k.private_jwk@, "alg"@) == Some("RS256"@),
        json_text(k.public_jwk@, "alg"@) == Some("RS256"@),
        json_text(k.public_jwk@, "use"@) == Some("sig"@),
        key != "kid"@ && key != "alg"@ && secret.contains_key(key) ==> json_text(
            k.private_jwk@,
            key,
        ) == Some(secret[key]),
        key != "kid"@ && key != "alg"@ && key != "use"@ ==> (json_text(k.public_jwk@, key) is Some
            <==> public.contains_key(key)),
        key != "kid"@ && key != "alg"@ && key != "use"@ && public.contains_key(key) ==> json_text(
            k.public_jwk@,
            key,
        ) == Some(public[key]),
{
    reveal_strlit("kid");
    reveal_strlit("alg");
    reveal_strlit("use");
    assert("kid"@[0] == 'k');
    assert("alg"@[0] == 'a');
    assert("use"@[0] == 'u');
}

/// Keys that were made have a name of twenty characters that both halves bear; the public half
/// keeps the secret parts to itself by not having them, and both have the same number.
pub proof fn public_half_keeps_the_secret(k: ServiceKeys, name: Seq<char>)
    requires
        is_service_keys(k),
        secret_names().contains(name),
    ensures
        k.kid@.len() == 20,
        json_text(k.public_jwk@, "kid"@) == Some(k.kid@),
        json_text(k.private_jwk@, "kid"@) == Some(k.kid@),
        json_text(k.public_jwk@, "alg"@) == Some("RS256"@),
        json_text(k.private_jwk@, "alg"@) == Some("RS256"@),
        json_text(k.public_jwk@, "use"@) == Some("sig"@),
        json_text(k.public_jwk@, "n"@) is Some,
        json_text(k.public_jwk@, "n"@) == json_text(k.private_jwk@, "n"@),
        json_text(k.public_jwk@, "e"@) == json_text(k.private_jwk@, "e"@),
        json_text(k.private_jwk@, name) is Some,
        json_text(k.public_jwk@, name) is None,
{
    let i = choose|i: int| 0 <= i < secret_names().len() && secret_names()[i] == name;
    assert(json_text(k.public_jwk@, secret_names()[i]) is None);
}

} // verus!
