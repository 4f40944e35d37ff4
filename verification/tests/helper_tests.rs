use base64::Engine;
use company_sync::helper::{
    access_token_to_uuid_email, claims, payload_of, refresh_token, scan_tokens, settle_refresh,
    url_hash_to_user, user_from_login, user_from_parts,
};
use company_sync::models::{RefreshTokenError, User};
use company_sync::status::Response;
use company_sync::text::{contains, find_in, same_text};

fn encode(text: &str) -> String {
    base64::engine::general_purpose::URL_SAFE_NO_PAD.encode(text)
}

fn token_for(sub: &str, email: &str) -> String {
    let payload = format!("{{\"sub\":\"{}\",\"email\":\"{}\",\"exp\":1700000000}}", sub, email);
    format!("{}.{}.{}", encode("{\"alg\":\"HS256\"}"), encode(&payload), "signature")
}

fn body_with(access: Option<&str>, refresh: Option<&str>) -> Vec<u8> {
    let mut parts: Vec<String> = Vec::new();
    if let Some(a) = access {
        parts.push(format!("\"access_token\":\"{}\"", a));
    }
    if let Some(r) = refresh {
        parts.push(format!("\"refresh_token\":\"{}\"", r));
    }
    parts.push("\"expires_in\":3600".to_string());
    format!("{{{}}}", parts.join(",")).into_bytes()
}

fn current() -> User {
    User {
        access_token: "old-access".to_string(),
        uuid: "u-1".to_string(),
        refresh_token: "old-refresh".to_string(),
        email: "ann@example.org".to_string(),
    }
}

#[test]
fn claims_are_read_from_the_second_part() {
    let token = token_for("u-1", "ann@example.org");
    assert_eq!(
        access_token_to_uuid_email(&token),
        Some(("u-1".to_string(), "ann@example.org".to_string()))
    );
    let two_parts = format!("{}.{}", "x", encode("{\"sub\":\"s\",\"email\":\"e\"}"));
    assert_eq!(access_token_to_uuid_email(&two_parts), Some(("s".to_string(), "e".to_string())));
}

#[test]
fn claims_survive_text_beyond_ascii() {
    let token = token_for("ü-1", "änn@example.org");
    assert_eq!(
        access_token_to_uuid_email(&token),
        Some(("ü-1".to_string(), "änn@example.org".to_string()))
    );
}

#[test]
fn tokens_without_claims_give_nothing() {
    assert_eq!(access_token_to_uuid_email(""), None);
    assert_eq!(access_token_to_uuid_email("no-dots-at-all"), None);
    assert_eq!(access_token_to_uuid_email("a.!!!not base64!!!.c"), None);
    let not_json = format!("a.{}.c", encode("not json"));
    assert_eq!(access_token_to_uuid_email(&not_json), None);
    let no_email = format!("a.{}.c", encode("{\"sub\":\"s\"}"));
    assert_eq!(access_token_to_uuid_email(&no_email), None);
    let no_sub = format!("a.{}.c", encode("{\"email\":\"e\"}"));
    assert_eq!(access_token_to_uuid_email(&no_sub), None);
    let number = format!("a.{}.c", encode("{\"sub\":5,\"email\":\"e\"}"));
    assert_eq!(access_token_to_uuid_email(&number), None);
    let array = format!("a.{}.c", encode("[\"sub\",\"email\"]"));
    assert_eq!(access_token_to_uuid_email(&array), None);
    let padded = format!("a.{}=.c", encode("{\"sub\":\"s\",\"email\":\"e\"}x"));
    assert_eq!(access_token_to_uuid_email(&padded), None);
    assert_eq!(access_token_to_uuid_email("a..c"), None);
}

#[test]
fn payload_is_the_part_between_the_first_two_dots() {
    assert_eq!(payload_of("a.b.c"), Some("b"));
    assert_eq!(payload_of("a.b"), Some("b"));
    assert_eq!(payload_of("a.b.c.d"), Some("b"));
    assert_eq!(payload_of("a."), Some(""));
    assert_eq!(payload_of(".b"), Some("b"));
    assert_eq!(payload_of("a..c"), Some(""));
    assert_eq!(payload_of("abc"), None);
    assert_eq!(payload_of(""), None);
    assert_eq!(payload_of("é.ü.x"), Some("ü"));
}

#[test]
fn claims_need_both_members() {
    assert_eq!(
        claims(Some("s".to_string()), Some("e".to_string())),
        Some(("s".to_string(), "e".to_string()))
    );
    assert_eq!(claims(None, Some("e".to_string())), None);
    assert_eq!(claims(Some("s".to_string()), None), None);
    assert_eq!(claims(None, None), None);
}

#[test]
fn hash_names_the_user() {
    let token = token_for("u-9", "bob@example.org");
    let hash = format!("#access_token={}&expires_in=3600&refresh_token=r-1&token_type=bearer", token);
    assert_eq!(
        url_hash_to_user(hash),
        Some(User {
            access_token: token,
            uuid: "u-9".to_string(),
            refresh_token: "r-1".to_string(),
            email: "bob@example.org".to_string(),
        })
    );
}

#[test]
fn hash_without_both_tokens_names_nobody() {
    let token = token_for("u-9", "bob@example.org");
    assert_eq!(url_hash_to_user(String::new()), None);
    assert_eq!(url_hash_to_user("#".to_string()), None);
    assert_eq!(url_hash_to_user(format!("#access_token={}", token)), None);
    assert_eq!(url_hash_to_user("#refresh_token=r-1".to_string()), None);
    assert_eq!(url_hash_to_user("#access_token=junk&refresh_token=r-1".to_string()), None);
    assert_eq!(
        url_hash_to_user(format!("#access_token={}&broken&refresh_token=r-1", token)),
        None
    );
    assert_eq!(
        url_hash_to_user(format!("access_token={}&refresh_token=r-1", token)),
        None
    );
}

#[test]
fn scan_reads_pairs_until_one_lacks_its_equals_sign() {
    assert_eq!(
        scan_tokens("access_token=a&refresh_token=r"),
        (Some("a".to_string()), Some("r".to_string()))
    );
    assert_eq!(
        scan_tokens("access_token=a&access_token=b&x=y"),
        (Some("b".to_string()), None)
    );
    assert_eq!(scan_tokens("access_token=a&stop&refresh_token=r"), (Some("a".to_string()), None));
    assert_eq!(scan_tokens("refresh_token=a=b&"), (None, Some("a=b".to_string())));
    assert_eq!(scan_tokens("access_token="), (Some(String::new()), None));
    assert_eq!(scan_tokens(""), (None, None));
    assert_eq!(scan_tokens("abc"), (None, None));
    assert_eq!(scan_tokens("&access_token=a"), (None, None));
    assert_eq!(scan_tokens("Access_token=a&refresh_tokens=r"), (None, None));
    assert_eq!(scan_tokens("é=1&access_token=ü"), (Some("ü".to_string()), None));
}

#[test]
fn user_needs_all_three_parts() {
    let c = Some(("u".to_string(), "e".to_string()));
    assert_eq!(
        user_from_parts(Some("a".to_string()), Some("r".to_string()), c.clone()),
        Some(User {
            access_token: "a".to_string(),
            uuid: "u".to_string(),
            refresh_token: "r".to_string(),
            email: "e".to_string(),
        })
    );
    assert_eq!(user_from_parts(None, Some("r".to_string()), c.clone()), None);
    assert_eq!(user_from_parts(Some("a".to_string()), None, c), None);
    assert_eq!(user_from_parts(Some("a".to_string()), Some("r".to_string()), None), None);
}

#[test]
fn login_body_names_the_user() {
    let token = token_for("u-1", "ann@example.org");
    assert_eq!(
        user_from_login(&body_with(Some(&token), Some("r-2"))),
        Some(User {
            access_token: token.clone(),
            uuid: "u-1".to_string(),
            refresh_token: "r-2".to_string(),
            email: "ann@example.org".to_string(),
        })
    );
    assert_eq!(user_from_login(&body_with(Some(&token), None)), None);
    assert_eq!(user_from_login(&body_with(None, Some("r-2"))), None);
    assert_eq!(user_from_login(&body_with(Some("junk"), Some("r-2"))), None);
    assert_eq!(user_from_login(b"not json"), None);
    assert_eq!(user_from_login(b""), None);
}

#[test]
fn refresh_with_both_tokens_replaces_the_user() {
    let token = token_for("u-1", "ann@example.org");
    let result = refresh_token(
        &current(),
        Response::Status(200),
        &Some(body_with(Some(&token), Some("new-refresh"))),
        &None,
    );
    assert_eq!(
        result.ok(),
        Some(User {
            access_token: token,
            uuid: "u-1".to_string(),
            refresh_token: "new-refresh".to_string(),
            email: "ann@example.org".to_string(),
        })
    );
}

#[test]
fn refresh_with_access_token_alone_keeps_the_refresh_token() {
    let token = token_for("u-1", "ann@example.org");
    let result =
        refresh_token(&current(), Response::Status(200), &Some(body_with(Some(&token), None)), &None);
    assert_eq!(
        result.ok(),
        Some(User {
            access_token: token,
            uuid: "u-1".to_string(),
            refresh_token: "old-refresh".to_string(),
            email: "ann@example.org".to_string(),
        })
    );
}

#[test]
fn refresh_errors_are_told_apart() {
    let token = token_for("u-1", "ann@example.org");
    let expired = Some("Bearer error=\"invalid_token\", error_description=\"token expired\"".to_string());
    let other = Some("Bearer realm=\"api\"".to_string());
    let good = Some(body_with(Some(&token), Some("r")));

    let r = refresh_token(&current(), Response::Unreachable, &good, &expired);
    assert_eq!(r.err(), Some(RefreshTokenError::NetworkError));
    let r = refresh_token(&current(), Response::Status(500), &good, &None);
    assert_eq!(r.err(), Some(RefreshTokenError::NetworkError));
    let r = refresh_token(&current(), Response::Status(401), &good, &other);
    assert_eq!(r.err(), Some(RefreshTokenError::NetworkError));
    let r = refresh_token(&current(), Response::Status(401), &good, &None);
    assert_eq!(r.err(), Some(RefreshTokenError::NetworkError));
    let r = refresh_token(&current(), Response::Status(403), &good, &expired);
    assert_eq!(r.err(), Some(RefreshTokenError::NetworkError));
    let r = refresh_token(&current(), Response::Status(401), &None, &expired);
    assert_eq!(r.err(), Some(RefreshTokenError::RefreshTokenExpirationError));

    let r = refresh_token(&current(), Response::Status(200), &None, &None);
    assert_eq!(r.err(), Some(RefreshTokenError::JsonParseError));
    let r = refresh_token(&current(), Response::Status(200), &Some(b"<html>".to_vec()), &None);
    assert_eq!(r.err(), Some(RefreshTokenError::JsonParseError));

    let r = refresh_token(&current(), Response::Status(200), &Some(body_with(None, None)), &None);
    assert_eq!(r.err(), Some(RefreshTokenError::RefreshTokenExpirationError));

    let r =
        refresh_token(&current(), Response::Status(200), &Some(body_with(None, Some("r"))), &None);
    assert_eq!(r.err(), Some(RefreshTokenError::UnknownError));
    let r = refresh_token(
        &current(),
        Response::Status(200),
        &Some(body_with(Some("junk"), Some("r"))),
        &None,
    );
    assert_eq!(r.err(), Some(RefreshTokenError::UnknownError));
    let r =
        refresh_token(&current(), Response::Status(200), &Some(body_with(Some("junk"), None)), &None);
    assert_eq!(r.err(), Some(RefreshTokenError::UnknownError));
}

#[test]
fn settle_refresh_follows_the_parts() {
    let c = Some(("u".to_string(), "e".to_string()));
    let both = settle_refresh(&current(), Some("a".to_string()), Some("r".to_string()), c.clone());
    assert_eq!(both.ok().map(|u| u.refresh_token), Some("r".to_string()));
    let one = settle_refresh(&current(), Some("a".to_string()), None, c.clone());
    assert_eq!(
        one.ok(),
        Some(User {
            access_token: "a".to_string(),
            uuid: "u".to_string(),
            refresh_token: "old-refresh".to_string(),
            email: "e".to_string(),
        })
    );
    assert_eq!(
        settle_refresh(&current(), None, None, None).err(),
        Some(RefreshTokenError::RefreshTokenExpirationError)
    );
    assert_eq!(
        settle_refresh(&current(), Some("a".to_string()), Some("r".to_string()), None).err(),
        Some(RefreshTokenError::UnknownError)
    );
    assert_eq!(
        settle_refresh(&current(), None, Some("r".to_string()), None).err(),
        Some(RefreshTokenError::UnknownError)
    );
    assert_eq!(
        settle_refresh(&current(), None, None, c).err(),
        Some(RefreshTokenError::UnknownError)
    );
}

#[test]
fn text_is_searched_by_characters() {
    assert!(contains("token expired", "expired"));
    assert!(contains("expired", "expired"));
    assert!(contains("xexpiredx", "expired"));
    assert!(!contains("expire", "expired"));
    assert!(!contains("", "expired"));
    assert!(contains("", ""));
    assert!(contains("abc", ""));
    assert!(!contains("Expired", "expired"));
    assert!(contains("héllo wörld", "wör"));
    assert_eq!(find_in("a.b.c", 0, 5, '.'), 1);
    assert_eq!(find_in("a.b.c", 2, 5, '.'), 3);
    assert_eq!(find_in("a.b.c", 4, 5, '.'), 5);
    assert_eq!(find_in("a.b.c", 0, 1, '.'), 1);
    assert_eq!(find_in("", 0, 0, '.'), 0);
    assert_eq!(find_in("éé.é", 0, 4, '.'), 2);
    assert!(same_text("abc", "abc"));
    assert!(!same_text("abc", "abd"));
    assert!(!same_text("abc", "ab"));
    assert!(same_text("", ""));
}
