//! API keys and authorizations: generating key material, reading the
//! `Basic` authorization header, and scope-based access decisions.

use vstd::prelude::*;
use rand::Rng;
use crate::scope::{self, Operation, Resource, Scopes, Scope};
use crate::text;

verus! {

/// Why a request is denied.
#[derive(Debug)]
pub enum Error {
    /// The caller did not present a usable credential.
    Unauthorized(String),
    /// The caller is known but the scopes do not grant the operation.
    Forbidden(String),
    /// The decoded credential is not valid UTF-8.
    Utf8Error(String),
    /// The credential is not valid base64.
    DecodeBase64Error(String),
}

/// An ASCII letter or digit, the alphabet of generated key material.
pub open spec fn is_alnum(c: char) -> bool {
    (48 <= c as int && c as int <= 57) || (65 <= c as int && c as int <= 90) || (97 <= c as int
        && c as int <= 122)
}

/// Relies on rand's `thread_rng` with the `Alphanumeric` distribution:
/// exactly `len` characters, each drawn from A-Z, a-z, 0-9. Nothing is
/// promised about which characters come out.
#[verifier::external_body]
fn random_string(len: usize) -> (r: String)
    ensures
        r@.len() == len,
        forall|i: int| 0 <= i < r@.len() ==> is_alnum(#[trigger] r@[i]),
{
    rand::thread_rng()
        .sample_iter(&rand::distributions::Alphanumeric)
        .take(len)
        .map(char::from)
        .collect()
}

/// What base64 decoding (standard alphabet) yields on a string:
/// the bytes, or nothing when the input is not valid base64. A function
/// of the characters alone.
pub uninterp spec fn base64_decoding(s: Seq<char>) -> Option<Seq<u8>>;

/// Relies on base64::decode with the standard alphabet: the result is a
/// function of the input characters alone; it either yields bytes or
/// fails, and the failure's rendered cause is handed back as text.
#[verifier::external_body]
fn decode_base64(s: &str) -> (r: Result<Vec<u8>, String>)
    ensures
        r matches Ok(v) ==> base64_decoding(s@) == Some(v@),
        r is Err ==> base64_decoding(s@) is None,
{
    match base64::decode(s) {
        Ok(v) => Ok(v),
        Err(e) => Err(e.to_string()),
    }
}

/// What UTF-8 decoding yields on a byte sequence: the characters, or
/// nothing when the bytes are not valid UTF-8. A function of the bytes
/// alone.
pub uninterp spec fn utf8_decoding(b: Seq<u8>) -> Option<Seq<char>>;

/// Relies on String::from_utf8: the result is a function of the bytes
/// alone; it either yields the decoded string or fails, and the
/// failure's rendered cause is handed back as text.
#[verifier::external_body]
fn utf8_string(b: Vec<u8>) -> (r: Result<String, String>)
    ensures
        r matches Ok(s) ==> utf8_decoding(b@) == Some(s@),
        r is Err ==> utf8_decoding(b@) is None,
{
    match String::from_utf8(b) {
        Ok(s) => Ok(s),
        Err(e) => Err(e.to_string()),
    }
}

/// A fresh key/secret pair: 24 and 128 alphanumeric characters.
pub fn gen_apikey() -> (r: (String, String))
    ensures
        r.0@.len() == 24,
        r.1@.len() == 128,
        forall|i: int| 0 <= i < r.0@.len() ==> is_alnum(#[trigger] r.0@[i]),
        forall|i: int| 0 <= i < r.1@.len() ==> is_alnum(#[trigger] r.1@[i]),
{
    (random_string(24), random_string(128))
}

/// The two halves of an authorization header around its first space.
pub open spec fn auth_parts(data: Seq<char>) -> (Seq<char>, Seq<char>) {
    let k = text::first_at(data, ' ');
    (data.subrange(0, k), data.subrange(k + 1, data.len() as int))
}

/// The decoded credential text of a header: its second half trimmed,
/// base64-decoded, and read as UTF-8.
pub open spec fn creds_of(data: Seq<char>) -> Option<Seq<char>> {
    match base64_decoding(text::trimmed(auth_parts(data).1)) {
        Some(bytes) => utf8_decoding(bytes),
        None => None,
    }
}

/// Exactly what `parse_apikey` returns on `data`: the single-space rule,
/// the `Basic` keyword, the base64 and UTF-8 decodings, and the single
/// `:` in the decoded credential, first failure first.
pub open spec fn apikey_parses_to(data: Seq<char>, r: Result<(String, String), Error>) -> bool {
    if text::count_of(data, ' ') != 1 {
        r matches Err(e) && e matches Error::Unauthorized(m) && m@
            == "Invalid authorization provided"@
    } else if text::trimmed(auth_parts(data).0) != "Basic"@ {
        r matches Err(e) && e matches Error::Unauthorized(m) && m@
            == "Unsupported authorization type"@
    } else {
        match base64_decoding(text::trimmed(auth_parts(data).1)) {
            None => r matches Err(e) && e is DecodeBase64Error,
            Some(bytes) => match utf8_decoding(bytes) {
                None => r matches Err(e) && e is Utf8Error,
                Some(cs) => if text::count_of(cs, ':') != 1 {
                    r matches Err(e) && e matches Error::Unauthorized(m) && m@
                        == "Invalid authorization data provided"@
                } else {
                    r matches Ok(p) && p.0@ == cs.subrange(0, text::first_at(cs, ':')) && p.1@
                        == cs.subrange(text::first_at(cs, ':') + 1, cs.len() as int)
                },
            },
        }
    }
}

/// Reads a `Basic` authorization header: exactly one space, the word
/// `Basic`, then base64 over `key:secret`. Returns the key and the
/// secret.
pub fn parse_apikey(data: &str) -> (r: Result<(String, String), Error>)
    ensures
        apikey_parses_to(data@, r),
{
    let n = data.unicode_len();
    let (cnt, k) = text::count_first(data, ' ');
    if cnt != 1 {
        return Err(Error::Unauthorized(String::from_str("Invalid authorization provided")));
    }
    let p0 = data.substring_char(0, k);
    let p1 = data.substring_char(k + 1, n);
    proof {
        assert(p0@ == auth_parts(data@).0);
        assert(p1@ == auth_parts(data@).1);
    }
    let c0 = text::chars_of(p0);
    let t0 = text::trim_chars(&c0);
    if !text::chars_eq_str(&t0, "Basic") {
        return Err(Error::Unauthorized(String::from_str("Unsupported authorization type")));
    }
    let (a1, b1) = text::trim_bounds(p1);
    let b64 = p1.substring_char(a1, b1);
    proof {
        assert(b64@ == text::trimmed(auth_parts(data@).1));
    }
    let decoded = match decode_base64(b64) {
        Ok(v) => v,
        Err(m) => {
            return Err(Error::DecodeBase64Error(m));
        },
    };
    let creds = match utf8_string(decoded) {
        Ok(s) => s,
        Err(m) => {
            return Err(Error::Utf8Error(m));
        },
    };
    let m = creds.as_str().unicode_len();
    let (cnt2, c2) = text::count_first(creds.as_str(), ':');
    if cnt2 != 1 {
        return Err(Error::Unauthorized(String::from_str("Invalid authorization data provided")));
    }
    let user = String::from_str(creds.as_str().substring_char(0, c2));
    let pass = String::from_str(creds.as_str().substring_char(c2 + 1, m));
    Ok((user, pass))
}

/// One key/secret credential with its storage identifier.
#[derive(Debug, Clone)]
pub struct ApiKey {
    pub id: i64,
    pub key: String,
    pub secret: String,
}

impl ApiKey {
    /// Whether the presented key and secret both match.
    pub fn auth(&self, key: &str, secret: &str) -> (r: bool)
        ensures
            r == (self.key@ == key@ && self.secret@ == secret@),
    {
        text::str_eq(self.key.as_str(), key) && text::str_eq(self.secret.as_str(), secret)
    }

    /// This credential under a new storage identifier.
    pub fn with_id(&self, id: i64) -> (r: ApiKey)
        ensures
            r.id == id,
            r.key@ == self.key@,
            r.secret@ == self.secret@,
    {
        ApiKey { id, key: self.key.clone(), secret: self.secret.clone() }
    }
}

/// The denial text when a scope set cannot satisfy an operation.
pub open spec fn forbidden_text(ss: Seq<Scope>, op: Operation, rc: Resource) -> Seq<char> {
    scope::scopes_text(ss) + " cannot satisfy: "@ + scope::op_text(op) + ":"@ + scope::rc_text(rc)
}

/// The denial text when a caller works against the wrong account.
pub open spec fn account_mismatch_text(have: int, want: int) -> Seq<char> {
    "Account mismatch: "@ + text::dec_int(have) + " != "@ + text::dec_int(want)
}

/// An API key bound to an account and a scope set.
#[derive(Debug, Clone)]
pub struct Authorization {
    pub api_key: ApiKey,
    pub account_id: i64,
    pub scopes: Scopes,
}

impl Authorization {
    /// Whether the presented key and secret match this authorization's.
    pub fn auth(&self, key: &str, secret: &str) -> (r: bool)
        ensures
            r == (self.api_key.key@ == key@ && self.api_key.secret@ == secret@),
    {
        self.api_key.auth(key, secret)
    }

    /// Whether any of this authorization's scopes grants `op` on `rc`.
    pub fn allows(&self, op: Operation, rc: Resource) -> (r: bool)
        ensures
            r == exists|i: int|
                0 <= i < self.scopes.spec_scopes().len() && scope::scope_allows(
                    #[trigger] self.scopes.spec_scopes()[i],
                    op,
                    rc,
                ),
    {
        self.scopes.allows(op, rc)
    }

    /// Demands that `op` on `rc` is granted; the denial names the scopes
    /// and the operation that they cannot satisfy.
    pub fn assert_allows(&self, op: Operation, rc: Resource) -> (r: Result<(), Error>)
        ensures
            (exists|i: int|
                0 <= i < self.scopes.spec_scopes().len() && scope::scope_allows(
                    #[trigger] self.scopes.spec_scopes()[i],
                    op,
                    rc,
                )) <==> r is Ok,
            r matches Err(e) ==> (e matches Error::Forbidden(m) && m@ == forbidden_text(
                self.scopes.spec_scopes(),
                op,
                rc,
            )),
    {
        if self.allows(op, rc) {
            Ok(())
        } else {
            let mut msg = self.scopes.to_string();
            msg.append(" cannot satisfy: ");
            let ops = op.to_string();
            msg.append(ops.as_str());
            msg.append(":");
            let rcs = rc.to_string();
            msg.append(rcs.as_str());
            proof {
                assert(msg@ =~= forbidden_text(self.scopes.spec_scopes(), op, rc));
            }
            Err(Error::Forbidden(msg))
        }
    }

    /// Demands that the caller works in `account_id` and that `op` on
    /// `rc` is granted, account first.
    pub fn assert_allows_in_account(&self, account_id: i64, op: Operation, rc: Resource) -> (r:
        Result<(), Error>)
        ensures
            self.account_id != account_id ==> (r matches Err(e) && e matches Error::Forbidden(m)
                && m@ == account_mismatch_text(self.account_id as int, account_id as int)),
            self.account_id == account_id && !(exists|i: int|
                0 <= i < self.scopes.spec_scopes().len() && scope::scope_allows(
                    #[trigger] self.scopes.spec_scopes()[i],
                    op,
                    rc,
                )) ==> (r matches Err(e) && e matches Error::Forbidden(m) && m@ == forbidden_text(
                self.scopes.spec_scopes(),
                op,
                rc,
            )),
            self.account_id == account_id && (exists|i: int|
                0 <= i < self.scopes.spec_scopes().len() && scope::scope_allows(
                    #[trigger] self.scopes.spec_scopes()[i],
                    op,
                    rc,
                )) ==> r is Ok,
    {
        if self.account_id != account_id {
            let mut msg = String::from_str("Account mismatch: ");
            let have = text::i64_string(self.account_id);
            msg.append(have.as_str());
            msg.append(" != ");
            let want = text::i64_string(account_id);
            msg.append(want.as_str());
            proof {
                assert(msg@ =~= account_mismatch_text(self.account_id as int, account_id as int));
            }
            return Err(Error::Forbidden(msg));
        }
        if !self.allows(op, rc) {
            let mut msg = self.scopes.to_string();
            msg.append(" cannot satisfy: ");
            let ops = op.to_string();
            msg.append(ops.as_str());
            msg.append(":");
            let rcs = rc.to_string();
            msg.append(rcs.as_str());
            proof {
                assert(msg@ =~= forbidden_text(self.scopes.spec_scopes(), op, rc));
            }
            return Err(Error::Forbidden(msg));
        }
        Ok(())
    }
}

/// The all-access authorization the service grants to the configured
/// root credential: every operation on every resource, in the system
/// account.
pub fn root_authorization(key: String, secret: String) -> (r: Authorization)
    ensures
        r.account_id == 0,
        r.api_key.id == 0,
        r.api_key.key@ == key@,
        r.api_key.secret@ == secret@,
        r.scopes.spec_scopes().len() == 3,
        r.scopes.spec_scopes()[0].ops@ == seq![Operation::Every],
        r.scopes.spec_scopes()[0].resource == Resource::System,
        r.scopes.spec_scopes()[1].ops@ == seq![Operation::Every],
        r.scopes.spec_scopes()[1].resource == Resource::ACL,
        r.scopes.spec_scopes()[2].ops@ == seq![Operation::Every],
        r.scopes.spec_scopes()[2].resource == Resource::Entry,
{
    let mut scopes: Vec<Scope> = Vec::new();
    scopes.push(Scope::new(Operation::Every, Resource::System));
    scopes.push(Scope::new(Operation::Every, Resource::ACL));
    scopes.push(Scope::new(Operation::Every, Resource::Entry));
    Authorization {
        account_id: 0,
        scopes: Scopes::new(scopes),
        api_key: ApiKey { id: 0, key, secret },
    }
}

} // verus!
