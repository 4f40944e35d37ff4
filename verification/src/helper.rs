//! Credentials out of what the identity service sends: the claims inside an
//! access token, the tokens in the hash of a redirect URL, and the answer to
//! a sign-in or a refresh.

use crate::codec::{
    base64_url_decoded, decode_base64_url, json_parsed, parse_json, text_member,
};
use crate::models::{RefreshTokenError, User, UserView};
use crate::status::{is_success, Response};
use crate::text::{contains, contains_text, find_in, first_index, same_text, second_part};
use vstd::prelude::*;

verus! {

/// The text member `name` of a JSON document's members, if it has one.
pub open spec fn member(members: Map<Seq<char>, Seq<char>>, name: Seq<char>) -> Option<Seq<char>> {
    if members.dom().contains(name) {
        Some(members[name])
    } else {
        None
    }
}

/// The user id and e-mail address that a token's payload names, where both
/// are there.
pub open spec fn claims_of(sub: Option<Seq<char>>, email: Option<Seq<char>>) -> Option<
    (Seq<char>, Seq<char>),
> {
    match (sub, email) {
        (Some(uuid), Some(email)) => Some((uuid, email)),
        _ => None,
    }
}

/// The user id and e-mail address inside an access token: the token's second
/// part between dots, decoded from base64url and read as JSON, has them as
/// its text members `sub` and `email`. `None` where the token is empty, has
/// no second part, or that part does not decode, does not parse or lacks
/// one of the two.
pub open spec fn token_claims(token: Seq<char>) -> Option<(Seq<char>, Seq<char>)> {
    if token.len() == 0 {
        None
    } else {
        match second_part(token, '.') {
            Some(payload) => match base64_url_decoded(payload) {
                Some(bytes) => match json_parsed(bytes) {
                    Some(members) => claims_of(member(members, "sub"@), member(members, "email"@)),
                    None => None,
                },
                None => None,
            },
            None => None,
        }
    }
}

/// The access token and the refresh token in the body of an answer of the
/// identity service, each where the body has it; `None` where the body is
/// no JSON document.
pub open spec fn reply_tokens(body: Seq<u8>) -> Option<(Option<Seq<char>>, Option<Seq<char>>)> {
    match json_parsed(body) {
        Some(members) => Some(
            (member(members, "access_token"@), member(members, "refresh_token"@)),
        ),
        None => None,
    }
}

/// The user that an access token, a refresh token and the token's claims
/// make, where all three are there.
pub open spec fn user_of(
    access: Option<Seq<char>>,
    refresh: Option<Seq<char>>,
    claims: Option<(Seq<char>, Seq<char>)>,
) -> Option<UserView> {
    match (access, refresh, claims) {
        (Some(access_token), Some(refresh_token), Some((uuid, email))) => Some(
            UserView { access_token, uuid, refresh_token, email },
        ),
        _ => None,
    }
}

/// The tokens named in a run of `name=value` pairs joined by `&`, given
/// those found so far. A later pair replaces an earlier one of the same
/// name, and the first part without `=` ends the run.
pub open spec fn hash_tokens(
    query: Seq<char>,
    access: Option<Seq<char>>,
    refresh: Option<Seq<char>>,
) -> (Option<Seq<char>>, Option<Seq<char>>)
    decreases query.len(),
{
    let end = first_index(query, '&');
    let pair = query.subrange(0, end);
    let eq = first_index(pair, '=');
    if eq == pair.len() {
        (access, refresh)
    } else {
        let name = pair.subrange(0, eq);
        let value = pair.subrange(eq + 1, pair.len() as int);
        let access = if name == "access_token"@ {
            Some(value)
        } else {
            access
        };
        let refresh = if name == "refresh_token"@ {
            Some(value)
        } else {
            refresh
        };
        if end < query.len() {
            hash_tokens(query.subrange(end + 1, query.len() as int), access, refresh)
        } else {
            (access, refresh)
        }
    }
}

/// The user that the hash of a redirect URL names: behind its first
/// character, the hash holds the access token and the refresh token as
/// `name=value` pairs, and the access token holds the user's id and e-mail
/// address.
pub open spec fn hash_user(hash: Seq<char>) -> Option<UserView> {
    if hash.len() == 0 {
        None
    } else {
        let tokens = hash_tokens(hash.drop_first(), None, None);
        user_of(
            tokens.0,
            tokens.1,
            match tokens.0 {
                Some(access) => token_claims(access),
                None => None,
            },
        )
    }
}

/// The user that signs in with the body of the identity service's answer.
pub open spec fn login_user(body: Seq<u8>) -> Option<UserView> {
    match reply_tokens(body) {
        Some((access, refresh)) => user_of(
            access,
            refresh,
            match access {
                Some(token) => token_claims(token),
                None => None,
            },
        ),
        None => None,
    }
}

/// What a refresh comes to, given the tokens in the answer's body and the
/// claims inside the new access token. A body with both tokens gives a new
/// user; one with an access token alone keeps the refresh token in use; one
/// with neither means that the refresh token has expired.
pub open spec fn refresh_of(
    current: UserView,
    access: Option<Seq<char>>,
    refresh: Option<Seq<char>>,
    claims: Option<(Seq<char>, Seq<char>)>,
) -> Result<UserView, RefreshTokenError> {
    match (access, refresh, claims) {
        (Some(access_token), Some(refresh_token), Some((uuid, email))) => Ok(
            UserView { access_token, uuid, refresh_token, email },
        ),
        (Some(access_token), None, Some((uuid, email))) => Ok(
            UserView { access_token, uuid, refresh_token: current.refresh_token, email },
        ),
        (None, None, None) => Err(RefreshTokenError::RefreshTokenExpirationError),
        _ => Err(RefreshTokenError::UnknownError),
    }
}

/// What a refresh comes to, given the answer of the identity service: its
/// response, its body where one could be read, and the challenge it sent in
/// its `Www-Authenticate` header where there was one.
pub open spec fn refresh_result(
    current: UserView,
    response: Response,
    body: Option<Seq<u8>>,
    challenge: Option<Seq<char>>,
) -> Result<UserView, RefreshTokenError> {
    match response {
        Response::Unreachable => Err(RefreshTokenError::NetworkError),
        Response::Status(code) => if is_success(code) {
            match body {
                Some(bytes) => match reply_tokens(bytes) {
                    Some((access, refresh)) => refresh_of(
                        current,
                        access,
                        refresh,
                        match access {
                            Some(token) => token_claims(token),
                            None => None,
                        },
                    ),
                    None => Err(RefreshTokenError::JsonParseError),
                },
                None => Err(RefreshTokenError::JsonParseError),
            }
        } else if code == 401 && (challenge matches Some(text) && contains_text(
            text,
            "expired"@,
        )) {
            Err(RefreshTokenError::RefreshTokenExpirationError)
        } else {
            Err(RefreshTokenError::NetworkError)
        },
    }
}

/// The second part of a token between dots.
pub fn payload_of(token: &str) -> (payload: Option<&str>)
    ensures
        match payload {
            Some(p) => second_part(token@, '.') == Some(p@),
            None => second_part(token@, '.') is None,
        },
{
    let n = token.unicode_len();
    let first = find_in(token, 0, n, '.');
    proof {
        assert(token@.subrange(0, n as int) =~= token@);
    }
    if first == n {
        return None;
    }
    let second = find_in(token, first + 1, n, '.');
    let payload = token.substring_char(first + 1, second);
    proof {
        let rest = token@.subrange(first + 1, n as int);
        assert(rest.subrange(0, second - first - 1) =~= token@.subrange(
            first + 1,
            second as int,
        ));
    }
    Some(payload)
}

/// The user id and e-mail address that a token's payload names, where both
/// are there.
pub fn claims(sub: Option<String>, email: Option<String>) -> (claims: Option<(String, String)>)
    ensures
        match claims {
            Some((uuid, address)) => claims_of(
                match sub {
                    Some(s) => Some(s@),
                    None => None,
                },
                match email {
                    Some(e) => Some(e@),
                    None => None,
                },
            ) == Some((uuid@, address@)),
            None => sub is None || email is None,
        },
{
    match (sub, email) {
        (Some(uuid), Some(address)) => Some((uuid, address)),
        _ => None,
    }
}

/// The user id and e-mail address inside an access token.
pub fn access_token_to_uuid_email(token: &str) -> (claims: Option<(String, String)>)
    ensures
        match claims {
            Some((uuid, email)) => token_claims(token@) == Some((uuid@, email@)),
            None => token_claims(token@) is None,
        },
{
    if token.unicode_len() == 0 {
        return None;
    }
    let payload = match payload_of(token) {
        Some(payload) => payload,
        None => {
            return None;
        },
    };
    let bytes = match decode_base64_url(payload) {
        Some(bytes) => bytes,
        None => {
            return None;
        },
    };
    let document = match parse_json(bytes.as_slice()) {
        Some(document) => document,
        None => {
            return None;
        },
    };
    let sub = text_member(&document, "sub");
    let email = text_member(&document, "email");
    claims(sub, email)
}

/// The claims inside an access token that may be missing.
fn claims_inside(access: &Option<String>) -> (claims: Option<(String, String)>)
    ensures
        match claims {
            Some((uuid, email)) => access matches Some(token) && token_claims(token@) == Some(
                (uuid@, email@),
            ),
            None => access matches Some(token) ==> token_claims(token@) is None,
        },
{
    match access {
        Some(token) => access_token_to_uuid_email(token.as_str()),
        None => None,
    }
}

/// The tokens named in the text: a run of `name=value` pairs joined by `&`.
pub fn scan_tokens(text: &str) -> (tokens: (Option<String>, Option<String>))
    ensures
        hash_tokens(text@, None, None) == (
            match tokens.0 {
                Some(a) => Some(a@),
                None => None,
            },
            match tokens.1 {
                Some(r) => Some(r@),
                None => None,
            },
        ),
{
    let n = text.unicode_len();
    let mut access: Option<String> = None;
    let mut refresh: Option<String> = None;
    let mut start: usize = 0;
    proof {
        assert(text@.subrange(0, n as int) =~= text@);
    }
    loop
        invariant
            n == text@.len(),
            start <= n,
            hash_tokens(text@, None, None) == hash_tokens(
                text@.subrange(start as int, n as int),
                match access {
                    Some(a) => Some(a@),
                    None => None,
                },
                match refresh {
                    Some(r) => Some(r@),
                    None => None,
                },
            ),
        decreases n - start,
    {
        let ghost query = text@.subrange(start as int, n as int);
        let end = find_in(text, start, n, '&');
        let eq = find_in(text, start, end, '=');
        proof {
            assert(query.subrange(0, end - start) =~= text@.subrange(start as int, end as int));
        }
        if eq == end {
            return (access, refresh);
        }
        let name = text.substring_char(start, eq);
        let value = text.substring_char(eq + 1, end);
        proof {
            let pair = query.subrange(0, end - start);
            assert(pair.subrange(0, eq - start) =~= name@);
            assert(pair.subrange(eq - start + 1, pair.len() as int) =~= value@);
            if end < n {
                assert(query.subrange(end - start + 1, query.len() as int) =~= text@.subrange(
                    end + 1,
                    n as int,
                ));
            }
        }
        proof {
            reveal_strlit("access_token");
            reveal_strlit("refresh_token");
            assert("access_token"@.len() != "refresh_token"@.len());
        }
        if same_text(name, "access_token") {
            access = Some(value.to_owned());
        } else if same_text(name, "refresh_token") {
            refresh = Some(value.to_owned());
        }
        if end == n {
            return (access, refresh);
        }
        start = end + 1;
    }
}

/// The user that an access token, a refresh token and the token's claims
/// make, where all three are there.
pub fn user_from_parts(
    access: Option<String>,
    refresh: Option<String>,
    claims: Option<(String, String)>,
) -> (user: Option<User>)
    ensures
        match user {
            Some(u) => access is Some && refresh is Some && claims is Some && u@ == (UserView {
                access_token: access.unwrap()@,
                uuid: claims.unwrap().0@,
                refresh_token: refresh.unwrap()@,
                email: claims.unwrap().1@,
            }),
            None => access is None || refresh is None || claims is None,
        },
{
    match (access, refresh, claims) {
        (Some(access_token), Some(refresh_token), Some((uuid, email))) => Some(
            User { access_token, uuid, refresh_token, email },
        ),
        _ => None,
    }
}

/// The user that the hash of a redirect URL names.
pub fn url_hash_to_user(url_hash: String) -> (user: Option<User>)
    ensures
        match user {
            Some(u) => hash_user(url_hash@) == Some(u@),
            None => hash_user(url_hash@) is None,
        },
{
    let hash = url_hash.as_str();
    let n = hash.unicode_len();
    if n == 0 {
        return None;
    }
    proof {
        assert(hash@.subrange(1, n as int) =~= hash@.drop_first());
    }
    let (access, refresh) = scan_tokens(hash.substring_char(1, n));
    let claims = claims_inside(&access);
    user_from_parts(access, refresh, claims)
}

/// The access token and the refresh token in the body of an answer of the
/// identity service; `None` where the body is no JSON document.
fn tokens_in(body: &[u8]) -> (tokens: Option<(Option<String>, Option<String>)>)
    ensures
        match tokens {
            Some((access, refresh)) => reply_tokens(body@) == Some(
                (
                    match access {
                        Some(a) => Some(a@),
                        None => None,
                    },
                    match refresh {
                        Some(r) => Some(r@),
                        None => None,
                    },
                ),
            ),
            None => reply_tokens(body@) is None,
        },
{
    match parse_json(body) {
        Some(document) => {
            let access = text_member(&document, "access_token");
            let refresh = text_member(&document, "refresh_token");
            Some((access, refresh))
        },
        None => None,
    }
}

/// The user that signs in with the body of the identity service's answer:
/// the body has to hold both tokens, and the access token the user's id and
/// e-mail address.
pub fn user_from_login(body: &[u8]) -> (user: Option<User>)
    ensures
        match user {
            Some(u) => login_user(body@) == Some(u@),
            None => login_user(body@) is None,
        },
{
    match tokens_in(body) {
        Some((access, refresh)) => {
            let claims = claims_inside(&access);
            user_from_parts(access, refresh, claims)
        },
        None => None,
    }
}

/// What a refresh comes to, given the tokens in the answer's body and the
/// claims inside the new access token.
pub fn settle_refresh(
    current: &User,
    access: Option<String>,
    refresh: Option<String>,
    claims: Option<(String, String)>,
) -> (result: Result<User, RefreshTokenError>)
    ensures
        refresh_of(
            current@,
            match access {
                Some(a) => Some(a@),
                None => None,
            },
            match refresh {
                Some(r) => Some(r@),
                None => None,
            },
            match claims {
                Some((uuid, email)) => Some((uuid@, email@)),
                None => None,
            },
        ) == match result {
            Ok(u) => Ok::<UserView, RefreshTokenError>(u@),
            Err(e) => Err(e),
        },
{
    match (access, refresh, claims) {
        (Some(access_token), Some(refresh_token), Some((uuid, email))) => Ok(
            User { access_token, uuid, refresh_token, email },
        ),
        (Some(access_token), None, Some((uuid, email))) => Ok(
            User { access_token, uuid, refresh_token: current.refresh_token.clone(), email },
        ),
        (None, None, None) => Err(RefreshTokenError::RefreshTokenExpirationError),
        _ => Err(RefreshTokenError::UnknownError),
    }
}

/// What a refresh comes to, given the answer of the identity service: its
/// response, its body where one could be read, and the challenge it sent in
/// its `Www-Authenticate` header where there was one.
pub fn refresh_token(
    user: &User,
    response: Response,
    body: &Option<Vec<u8>>,
    challenge: &Option<String>,
) -> (result: Result<User, RefreshTokenError>)
    ensures
        refresh_result(
            user@,
            response,
            match body {
                Some(b) => Some(b@),
                None => None,
            },
            match challenge {
                Some(c) => Some(c@),
                None => None,
            },
        ) == match result {
            Ok(u) => Ok::<UserView, RefreshTokenError>(u@),
            Err(e) => Err(e),
        },
{
    match response {
        Response::Unreachable => Err(RefreshTokenError::NetworkError),
        Response::Status(code) => {
            if 200 <= code && code < 300 {
                let tokens = match body {
                    Some(bytes) => tokens_in(bytes.as_slice()),
                    None => None,
                };
                match tokens {
                    Some((access, refresh)) => {
                        let claims = claims_inside(&access);
                        settle_refresh(user, access, refresh, claims)
                    },
                    None => Err(RefreshTokenError::JsonParseError),
                }
            } else {
                let expired = code == 401 && match challenge {
                    Some(text) => contains(text.as_str(), "expired"),
                    None => false,
                };
                if expired {
                    Err(RefreshTokenError::RefreshTokenExpirationError)
                } else {
                    Err(RefreshTokenError::NetworkError)
                }
            }
        },
    }
}

} // verus!
