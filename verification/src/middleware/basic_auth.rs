//! HTTP Basic authentication.
//!
//! A request passes when its `Authorization` header reads `Basic ` (or
//! `basic `) followed by the Base64 encoding of `user:password` for a known
//! user and that user's password. Any other request is answered with
//! `401 Unauthorized` and a `WWW-Authenticate` challenge, and the inner
//! handler never runs.

use base64::Engine;
use vstd::prelude::*;
use vstd::string::StringExecFns;
use vstd::utf8::{decode_utf8, encode_utf8, valid_utf8};

use crate::response::{
    body_bytes, finished, header_text, header_text_of, lemma_plain_header_name, valid_header_value, with_header,
    with_status, HandlerResponse, Response, ResponseBody, ResponseError, ResponseState,
};
use crate::text::{chars_of, concat_str, find_char, slice_chars, starts_with, string_of, trim, trimmed};

verus! {

/// What `base64`'s `STANDARD` engine decodes `input` to (`None` on a decode error).
pub uninterp spec fn base64_decoded(input: Seq<u8>) -> Option<Seq<u8>>;

/// `STANDARD.decode` of the `base64` crate (standard alphabet, padding
/// required); any decode error becomes `None`.
#[verifier::external_body]
fn base64_decode(input: &str) -> (r: Option<Vec<u8>>)
    ensures
        match r {
            None => base64_decoded(encode_utf8(input@)) is None,
            Some(b) => base64_decoded(encode_utf8(input@)) == Some(b@),
        },
{
    base64::engine::general_purpose::STANDARD.decode(input).ok()
}

/// `String::from_utf8`: succeeds exactly on valid UTF-8, with the decoded text.
#[verifier::external_body]
fn utf8_string(bytes: Vec<u8>) -> (r: Option<String>)
    ensures
        r is Some <==> valid_utf8(bytes@),
        r matches Some(s) ==> s@ == decode_utf8(bytes@),
{
    String::from_utf8(bytes).ok()
}

/// The user name and password a credentials text carries: what precedes
/// and what follows its first `:`.
pub open spec fn split_credentials(text: Seq<char>) -> Option<(Seq<char>, Seq<char>)> {
    if text.contains(':') {
        let i = choose|i: int|
            0 <= i < text.len() && text[i] == ':' && forall|j: int| 0 <= j < i ==> text[j] != ':';
        Some((text.take(i), text.skip(i + 1)))
    } else {
        None
    }
}

/// What [`decode_credentials`] makes of an `Authorization` header.
pub open spec fn credentials_of(header: Seq<char>) -> Option<(Seq<char>, Seq<char>)> {
    let scheme_ok = header.len() >= 6 && (header.take(6) == "basic "@ || header.take(6) == "Basic "@);
    if !scheme_ok {
        None
    } else {
        match base64_decoded(encode_utf8(trimmed(header.skip(6)))) {
            None => None,
            Some(bytes) => if valid_utf8(bytes) {
                split_credentials(decode_utf8(bytes))
            } else {
                None
            },
        }
    }
}

/// Reads `Basic <base64(user:password)>` (the scheme may also be written
/// `basic`): the Base64 text, stripped of surrounding white space, must
/// decode to UTF-8 text holding a `:`. The password may itself hold `:`.
pub fn decode_credentials(header: &str) -> (r: Option<(String, String)>)
    ensures
        match r {
            None => credentials_of(header@) is None,
            Some((u, p)) => credentials_of(header@) == Some((u@, p@)),
        },
{
    let cs = chars_of(header);
    let lower = chars_of("basic ");
    let upper = chars_of("Basic ");
    proof {
        reveal_strlit("basic ");
        reveal_strlit("Basic ");
    }
    if !(starts_with(&cs, &lower) || starts_with(&cs, &upper)) {
        return None;
    }
    let encoded = slice_chars(&cs, 6, cs.len());
    let trimmed_chars = trim(&encoded);
    let trimmed_text = string_of(&trimmed_chars);
    let bytes = match base64_decode(trimmed_text.as_str()) {
        Some(b) => b,
        None => return None,
    };
    let text = match utf8_string(bytes) {
        Some(t) => t,
        None => return None,
    };
    let tcs = chars_of(text.as_str());
    match find_char(&tcs, ':') {
        None => None,
        Some(i) => {
            assert(i < tcs.len());
            let user = string_of(&slice_chars(&tcs, 0, i));
            let password = string_of(&slice_chars(&tcs, i + 1, tcs.len()));
            assert(tcs@.subrange(0, i as int) =~= tcs@.take(i as int));
            assert(tcs@.subrange(i + 1, tcs@.len() as int) =~= tcs@.skip(i + 1));
            Some((user, password))
        },
    }
}

/// Credentials are read from any UTF-8 text: when the Base64 part of a
/// `Basic` (or `basic`) header decodes to the UTF-8 encoding of a text with
/// a `:`, the user name is the text before its first `:` and the password
/// the rest, whatever characters they hold.
pub proof fn law_utf8_credentials(header: Seq<char>, text: Seq<char>, i: int)
    requires
        header.len() >= 6,
        header.take(6) == "Basic "@ || header.take(6) == "basic "@,
        base64_decoded(encode_utf8(trimmed(header.skip(6)))) == Some(encode_utf8(text)),
        0 <= i < text.len(),
        text[i] == ':',
        forall|j: int| 0 <= j < i ==> text[j] != ':',
    ensures
        credentials_of(header) == Some((text.take(i), text.skip(i + 1))),
{
    vstd::utf8::encode_utf8_valid_utf8(text);
    vstd::utf8::encode_utf8_decode_utf8(text);
    assert(text.contains(':'));
    let k = choose|k: int| 0 <= k < text.len() && text[k] == ':' && forall|j: int| 0 <= j < k ==> text[j] != ':';
    if k < i {
        assert(text[k] != ':');
    } else if k > i {
        assert(text[i] != ':');
    }
}

/// A text holding `:` has a first `:`.
proof fn lemma_first_colon(text: Seq<char>)
    requires
        text.contains(':'),
    ensures
        exists|i: int| 0 <= i < text.len() && text[i] == ':' && forall|j: int| 0 <= j < i ==> text[j] != ':',
    decreases text.len(),
{
    if text[0] != ':' {
        let rest = text.drop_first();
        let k = choose|k: int| 0 <= k < text.len() && text[k] == ':';
        assert(rest[k - 1] == ':');
        lemma_first_colon(rest);
        let i = choose|i: int| 0 <= i < rest.len() && rest[i] == ':' && forall|j: int| 0 <= j < i ==> rest[j] != ':';
        assert forall|j: int| 0 <= j < i + 1 implies text[j] != ':' by {
            if j > 0 {
                assert(text[j] == rest[j - 1]);
            }
        }
        assert(text[i + 1] == rest[i]);
    } else {
        assert(0 <= 0 < text.len() && text[0] == ':' && forall|j: int| 0 <= j < 0 ==> text[j] != ':');
    }
}

/// The user name and password split from a text, joined again by `:`, give
/// the text back, and the user name holds no `:`.
proof fn lemma_split_credentials(text: Seq<char>)
    ensures
        split_credentials(text) matches Some((u, p)) ==> text == u + seq![':'] + p && !u.contains(':'),
{
    if text.contains(':') {
        lemma_first_colon(text);
        let i = choose|i: int| 0 <= i < text.len() && text[i] == ':' && forall|j: int| 0 <= j < i ==> text[j] != ':';
        let u = text.take(i);
        let p = text.skip(i + 1);
        assert(text =~= u + seq![':'] + p);
        assert(!u.contains(':')) by {
            if u.contains(':') {
                let k = choose|k: int| 0 <= k < u.len() && u[k] == ':';
                assert(text[k] == u[k]);
            }
        }
    }
}

/// Credentials read from a header are exactly what it carries: the header
/// starts with `Basic ` or `basic `, and its Base64 part decodes to the
/// UTF-8 encoding of the user name, a `:`, and the password, where the user
/// name holds no `:`.
pub proof fn law_credentials_are_carried(header: Seq<char>)
    ensures
        credentials_of(header) matches Some((u, p)) ==> {
            &&& header.len() >= 6
            &&& (header.take(6) == "Basic "@ || header.take(6) == "basic "@)
            &&& base64_decoded(encode_utf8(trimmed(header.skip(6)))) == Some(encode_utf8(u + seq![':'] + p))
            &&& !u.contains(':')
        },
{
    if credentials_of(header) is Some {
        let bytes = base64_decoded(encode_utf8(trimmed(header.skip(6))))->Some_0;
        vstd::utf8::decode_utf8_encode_utf8(bytes);
        lemma_split_credentials(decode_utf8(bytes));
    }
}

/// The password the last registration of user `u` set, if any.
pub open spec fn lookup(users: Seq<(Seq<char>, Seq<char>)>, u: Seq<char>) -> Option<Seq<char>>
    decreases users.len(),
{
    if users.len() == 0 {
        None
    } else if users.last().0 == u {
        Some(users.last().1)
    } else {
        lookup(users.drop_last(), u)
    }
}

/// Configuration for Basic authentication: the known users with their
/// passwords, and the realm named in the challenge.
#[derive(Clone, Debug)]
pub struct BasicAuthOptions {
    users: Vec<(String, String)>,
    realm: String,
}

impl BasicAuthOptions {
    closed spec fn registrations(&self) -> Seq<(Seq<char>, Seq<char>)> {
        self.users@.map_values(|p: (String, String)| (p.0@, p.1@))
    }

    /// The users that may authenticate, each with its password.
    pub closed spec fn users(&self) -> Map<Seq<char>, Seq<char>> {
        Map::new(
            |u: Seq<char>| lookup(self.registrations(), u) is Some,
            |u: Seq<char>| lookup(self.registrations(), u)->Some_0,
        )
    }

    /// The realm the challenge names.
    pub closed spec fn realm_name(&self) -> Seq<char> {
        self.realm@
    }

    /// No users, and the realm `Restricted`.
    pub fn new() -> (r: BasicAuthOptions)
        ensures
            r.users() == Map::<Seq<char>, Seq<char>>::empty(),
            r.realm_name() == "Restricted"@,
    {
        let r = BasicAuthOptions { users: Vec::new(), realm: String::from_str("Restricted") };
        assert(r.registrations() =~= Seq::empty());
        assert(r.users() =~= Map::empty());
        r
    }

    /// Adds a user that may authenticate; a user added again gets the new
    /// password.
    pub fn user(self, username: &str, password: &str) -> (r: BasicAuthOptions)
        ensures
            r.users() == self.users().insert(username@, password@),
            r.realm_name() == self.realm_name(),
    {
        let mut users = self.users;
        users.push((String::from_str(username), String::from_str(password)));
        let r = BasicAuthOptions { users, realm: self.realm };
        assert(r.registrations() =~= self.registrations().push((username@, password@)));
        assert(r.registrations().drop_last() =~= self.registrations());
        assert(r.users() =~= self.users().insert(username@, password@));
        r
    }

    /// Sets the realm.
    pub fn realm(self, realm: &str) -> (r: BasicAuthOptions)
        ensures
            r.users() == self.users(),
            r.realm_name() == realm@,
    {
        let r = BasicAuthOptions { users: self.users, realm: String::from_str(realm) };
        assert(r.registrations() =~= self.registrations());
        assert(r.users() =~= self.users());
        r
    }

    /// Whether `username` is a known user whose password is `password`.
    pub fn accepts(&self, username: &String, password: &String) -> (r: bool)
        ensures
            r == (self.users().contains_key(username@) && self.users()[username@] == password@),
    {
        let mut i = self.users.len();
        assert(self.registrations().take(i as int) =~= self.registrations());
        while i > 0
            invariant
                i <= self.users@.len(),
                lookup(self.registrations(), username@) == lookup(self.registrations().take(i as int), username@),
            decreases i,
        {
            let entry = &self.users[i - 1];
            assert(self.registrations().take(i as int).last() == (entry.0@, entry.1@));
            assert(self.registrations().take(i as int).drop_last() =~= self.registrations().take(i - 1));
            if entry.0 == *username {
                return entry.1 == *password;
            }
            i -= 1;
        }
        false
    }

    /// The `WWW-Authenticate` challenge: `Basic realm="<realm>", charset="UTF-8"`.
    pub fn challenge(&self) -> (r: String)
        ensures
            r@ == challenge_text(self.realm_name()),
    {
        let with_realm = concat_str("Basic realm=\"", self.realm.as_str());
        concat_str(with_realm.as_str(), "\", charset=\"UTF-8\"")
    }
}

/// The challenge text for a realm.
pub open spec fn challenge_text(realm: Seq<char>) -> Seq<char> {
    "Basic realm=\""@ + realm + "\", charset=\"UTF-8\""@
}

impl Default for BasicAuthOptions {
    /// No users and an empty realm.
    fn default() -> (r: BasicAuthOptions)
        ensures
            r.users() == Map::<Seq<char>, Seq<char>>::empty(),
            r.realm_name() == Seq::<char>::empty(),
    {
        let r = BasicAuthOptions { users: Vec::new(), realm: String::new() };
        assert(r.registrations() =~= Seq::empty());
        assert(r.users() =~= Map::empty());
        r
    }
}

/// Whether a request whose `Authorization` header has the bytes
/// `authorization` (`None` when it has none) presents valid credentials.
pub open spec fn authorized(options: BasicAuthOptions, authorization: Option<Seq<u8>>) -> bool {
    match authorization {
        None => false,
        Some(bytes) => match header_text_of(bytes) {
            None => false,
            Some(text) => match credentials_of(text) {
                None => false,
                Some((u, p)) => options.users().contains_key(u) && options.users()[u] == p,
            },
        },
    }
}

/// What Basic authentication does with a request.
pub enum AuthOutcome {
    /// The credentials are valid: hand the request on, with the response as it was.
    Pass(Response),
    /// Answer at once, without running the inner handler.
    Reject(Result<HandlerResponse, ResponseError>),
}

/// Decides a request: with valid credentials it passes on untouched;
/// otherwise the answer is `401 Unauthorized` with the challenge in a
/// `WWW-Authenticate` header and the body `Unauthorized`.
pub fn authenticate(options: &BasicAuthOptions, authorization: Option<&[u8]>, res: Response) -> (r: AuthOutcome)
    ensures
        authorized(*options, match authorization { Some(b) => Some(b@), None => None }) ==> (r matches AuthOutcome::Pass(p) && p@ == res@),
        !authorized(*options, match authorization { Some(b) => Some(b@), None => None }) ==> (r matches AuthOutcome::Reject(x) && finished(
            x,
            with_header(
                with_status(res@, 401),
                encode_utf8("www-authenticate"@),
                encode_utf8(challenge_text(options.realm_name())),
            ),
        ) && (x matches Ok(hr) ==> body_bytes(hr.body) == Some(encode_utf8("Unauthorized"@)))),
{
    let challenge = options.challenge();
    let credentials = match authorization {
        None => None,
        Some(bytes) => match header_text(bytes) {
            None => None,
            Some(text) => decode_credentials(text.as_str()),
        },
    };
    let ok = match &credentials {
        None => false,
        Some((u, p)) => options.accepts(u, p),
    };
    if ok {
        return AuthOutcome::Pass(res);
    }
    proof {
        reveal_strlit("www-authenticate");
        reveal_strlit("Unauthorized");
    }
    let answer = res.status(401).header("www-authenticate", challenge.as_str()).body(ResponseBody::text("Unauthorized"));
    AuthOutcome::Reject(answer)
}

/// A refused request whose response has no error is answered with status
/// 401 and the challenge appended as the `www-authenticate` header, as long
/// as the realm leaves the challenge a valid header value.
pub proof fn law_refusal_answer(s: ResponseState, realm: Seq<char>)
    requires
        valid_header_value(encode_utf8(challenge_text(realm))),
    ensures
        with_header(with_status(Ok(s), 401), encode_utf8("www-authenticate"@), encode_utf8(challenge_text(realm)))
            == Ok::<ResponseState, ResponseError>(
            ResponseState {
                status: 401,
                headers: s.headers.push(("www-authenticate"@, encode_utf8(challenge_text(realm)))),
                ..s
            },
        ),
{
    reveal_strlit("www-authenticate");
    lemma_plain_header_name("www-authenticate"@);
}

} // verus!
