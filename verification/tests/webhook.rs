use hmac::{Hmac, Mac};
use sha2::Sha256;
use site::webhook::{check_delivery_headers, check_delivery_signature, check_github_event, GithubEvent, BAD_REQUEST};

fn sign(secret: &str, body: &str) -> String {
    let mut mac = Hmac::<Sha256>::new_from_slice(secret.as_bytes()).unwrap();
    mac.update(body.as_bytes());
    format!("sha256={}", hex::encode(mac.finalize().into_bytes()))
}

#[test]
fn signed_push_and_ping_are_accepted() {
    let body = r#"{"ref":"refs/heads/main"}"#;
    let sig = Some(sign("s3cret", body));
    assert_eq!(check_github_event(&Some("push".into()), &sig, "s3cret", body), Ok(GithubEvent::Push));
    assert_eq!(check_github_event(&Some("ping".into()), &sig, "s3cret", body), Ok(GithubEvent::Ping));
}

#[test]
fn known_hmac_vector_is_accepted_and_tampering_refused() {
    // HMAC-SHA256("key", "The quick brown fox jumps over the lazy dog")
    let body = "The quick brown fox jumps over the lazy dog";
    let good = "sha256=f7bc83f430538424b13298e6aa6fb143ef4d59a14946175997479dbc2d1a3cd8";
    let upper = "sha256=F7BC83F430538424B13298E6AA6FB143EF4D59A14946175997479DBC2D1A3CD8";
    assert_eq!(check_github_event(&Some("push".into()), &Some(good.into()), "key", body), Ok(GithubEvent::Push));
    assert_eq!(check_github_event(&Some("push".into()), &Some(upper.into()), "key", body), Ok(GithubEvent::Push));
    assert_eq!(check_github_event(&Some("push".into()), &Some(good.into()), "key", "the quick brown fox jumps over the lazy dog"), Err(BAD_REQUEST));
    assert_eq!(check_github_event(&Some("push".into()), &Some(good.into()), "other", body), Err(BAD_REQUEST));
}

#[test]
fn unsupported_or_missing_event_is_refused() {
    let body = "{}";
    let sig = Some(sign("k", body));
    assert_eq!(check_github_event(&None, &sig, "k", body), Err(400));
    assert_eq!(check_github_event(&Some("issues".into()), &sig, "k", body), Err(400));
    assert_eq!(check_github_event(&Some("pushy".into()), &sig, "k", body), Ok(GithubEvent::Push));
}

#[test]
fn malformed_signatures_are_refused() {
    let body = "{}";
    let ev = Some("push".to_string());
    let sig = sign("k", body);
    assert_eq!(check_github_event(&ev, &None, "k", body), Err(400));
    assert_eq!(check_github_event(&ev, &Some(sig.replace("sha256=", "sha1=")), "k", body), Err(400));
    assert_eq!(check_github_event(&ev, &Some(sig[..sig.len() - 1].to_string()), "k", body), Err(400));
    assert_eq!(check_github_event(&ev, &Some(format!("{}zz", &sig[..sig.len() - 2])), "k", body), Err(400));
    assert_eq!(check_github_event(&ev, &Some("sha256=".into()), "k", body), Err(400));
}

#[test]
fn headers_are_checked_before_the_secret_is_needed() {
    assert_eq!(check_delivery_headers(&None, &Some("sha256=00".into())).unwrap_err(), BAD_REQUEST);
    assert_eq!(check_delivery_headers(&Some("push".into()), &Some("sha256=0g".into())).unwrap_err(), BAD_REQUEST);
    let (kind, tag) = check_delivery_headers(&Some("ping".into()), &Some("sha256=0aFF".into())).unwrap();
    assert_eq!(kind, GithubEvent::Ping);
    assert_eq!(tag, vec![0x0a, 0xff]);
    assert_eq!(check_delivery_signature(kind, &tag, "s3cret", "{}"), Err(BAD_REQUEST));
    let (kind, tag) = check_delivery_headers(&Some("push".into()), &Some(sign("s3cret", "{}"))).unwrap();
    assert_eq!(check_delivery_signature(kind, &tag, "s3cret", "{}"), Ok(GithubEvent::Push));
}
