use ta_queue::cookie::access_token;
use ta_queue::session::{admit_student, admit_ta, claims_subject, cookie_subject, TokenClaims, TokenData};

fn token(ta: bool, table_number: u8) -> TokenData {
    TokenData {
        ta,
        table_number,
        name: "Kari".to_string(),
        task: "Exercise 3".to_string(),
        helped_by: String::new(),
    }
}

fn std_split(cookie: &str) -> Option<String> {
    cookie.split("access_token_cookie=").nth(1).map(|s| s.to_string())
}

#[test]
fn access_token_is_the_second_piece() {
    assert_eq!(access_token("access_token_cookie=abc.def.ghi"), Some("abc.def.ghi".to_string()));
    assert_eq!(access_token("theme=dark; access_token_cookie=xyz"), Some("xyz".to_string()));
    assert_eq!(access_token("theme=dark"), None);
    assert_eq!(access_token(""), None);
    assert_eq!(access_token("access_token_cookie="), Some(String::new()));
    assert_eq!(
        access_token("access_token_cookie=one; access_token_cookie=two"),
        Some("one; ".to_string())
    );
}

#[test]
fn access_token_agrees_with_str_split() {
    let headers = [
        "access_token_cookie=t",
        "a=b; access_token_cookie=tok; c=d",
        "access_token_cookieaccess_token_cookie=z",
        "access_token_cookie=access_token_cookie=",
        "xaccess_token_cookie=yaccess_token_cookie=w",
        "é=ü; access_token_cookie=tøk€n",
        "access_token_cooki=1",
        "access_token_cookie",
    ];
    for h in headers {
        assert_eq!(access_token(h), std_split(h), "header {:?}", h);
    }
}

#[test]
fn students_need_a_table_of_the_room() {
    assert_eq!(admit_student(None), None);
    assert_eq!(admit_student(Some(token(false, 0))), None);
    assert_eq!(admit_student(Some(token(false, 1))), Some(token(false, 1)));
    assert_eq!(admit_student(Some(token(false, 30))), Some(token(false, 30)));
    assert_eq!(admit_student(Some(token(true, 12))), Some(token(true, 12)));
    assert_eq!(admit_student(Some(token(false, 31))), None);
    assert_eq!(admit_student(Some(token(false, 255))), None);
}

#[test]
fn assistants_need_the_ta_claim() {
    assert_eq!(admit_ta(None), None);
    assert_eq!(admit_ta(Some(token(false, 3))), None);
    assert_eq!(admit_ta(Some(token(true, 0))), Some(token(true, 0)));
    assert_eq!(admit_ta(Some(token(true, 200))), Some(token(true, 200)));
}

fn signed_token(sub: &str, exp_offset: i64, secret: &str) -> String {
    let now = std::time::SystemTime::now()
        .duration_since(std::time::UNIX_EPOCH)
        .unwrap()
        .as_secs() as i64;
    let mut claims = serde_json::Map::new();
    claims.insert("sub".to_string(), serde_json::Value::String(sub.to_string()));
    claims.insert("exp".to_string(), serde_json::Value::from(now + exp_offset));
    jsonwebtoken::encode(
        &jsonwebtoken::Header::default(),
        &serde_json::Value::Object(claims),
        &jsonwebtoken::EncodingKey::from_secret(secret.as_bytes()),
    )
    .unwrap()
}

#[test]
fn cookie_subject_reads_a_valid_token() {
    let sub = "{\"ta\":false,\"table_number\":4,\"name\":\"Kari\",\"task\":\"t\",\"helped_by\":\"\"}";
    let token = signed_token(sub, 3600, "secret");
    let cookie = format!("theme=dark; access_token_cookie={}", token);
    assert_eq!(cookie_subject(Some(&cookie), "secret"), Some(sub.to_string()));
}

#[test]
fn cookie_subject_refuses_bad_tokens() {
    let token = signed_token("abc", 3600, "secret");
    let cookie = format!("access_token_cookie={}", token);
    assert_eq!(cookie_subject(Some(&cookie), "other"), None);
    let expired = signed_token("abc", -7200, "secret");
    assert_eq!(cookie_subject(Some(&format!("access_token_cookie={}", expired)), "secret"), None);
    assert_eq!(cookie_subject(None, "secret"), None);
    assert_eq!(cookie_subject(Some("theme=dark"), "secret"), None);
    assert_eq!(cookie_subject(Some("access_token_cookie=abc"), "secret"), None);
    assert_eq!(cookie_subject(Some("access_token_cookie=a.b.c.d"), "secret"), None);
}

#[test]
fn claims_subject_needs_a_string_subject_and_a_whole_expiry() {
    let claims = |sub: Option<&str>, exp: Option<u64>| TokenClaims { sub: sub.map(|s| s.to_string()), exp };
    assert_eq!(claims_subject(None), None);
    assert_eq!(claims_subject(Some(claims(Some("s"), Some(1_700_000_000)))), Some("s".to_string()));
    assert_eq!(claims_subject(Some(claims(None, Some(1_700_000_000)))), None);
    assert_eq!(claims_subject(Some(claims(Some("s"), None))), None);
    assert_eq!(claims_subject(Some(claims(Some(""), Some(0)))), Some(String::new()));
}

#[test]
fn cookie_subject_refuses_a_fractional_expiry() {
    let now = std::time::SystemTime::now()
        .duration_since(std::time::UNIX_EPOCH)
        .unwrap()
        .as_secs() as f64;
    let mut claims = serde_json::Map::new();
    claims.insert("sub".to_string(), serde_json::Value::String("abc".to_string()));
    claims.insert("exp".to_string(), serde_json::Value::from(now + 3600.5));
    let token = jsonwebtoken::encode(
        &jsonwebtoken::Header::default(),
        &serde_json::Value::Object(claims),
        &jsonwebtoken::EncodingKey::from_secret(b"secret"),
    )
    .unwrap();
    assert_eq!(cookie_subject(Some(&format!("access_token_cookie={}", token)), "secret"), None);
}

#[test]
fn cookie_subject_refuses_a_non_string_subject() {
    let now = std::time::SystemTime::now()
        .duration_since(std::time::UNIX_EPOCH)
        .unwrap()
        .as_secs();
    let mut claims = serde_json::Map::new();
    claims.insert("sub".to_string(), serde_json::Value::from(42u64));
    claims.insert("exp".to_string(), serde_json::Value::from(now + 3600));
    let token = jsonwebtoken::encode(
        &jsonwebtoken::Header::default(),
        &serde_json::Value::Object(claims),
        &jsonwebtoken::EncodingKey::from_secret(b"secret"),
    )
    .unwrap();
    assert_eq!(cookie_subject(Some(&format!("access_token_cookie={}", token)), "secret"), None);
}
