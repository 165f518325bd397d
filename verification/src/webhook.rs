//! Authenticating GitHub webhook deliveries.
use vstd::prelude::*;
use crate::text::{chars_of, chars_start_with, starts_with};
use hmac::Mac;
use vstd::string::{StrSliceExecFns, StringSliceAdditionalSpecFns};

verus! {

/// The value of a hexadecimal digit (either case), if `c` is one.
pub open spec fn hex_digit_value(c: char) -> Option<nat> {
    if '0' <= c && c <= '9' {
        Some((c as nat - '0' as nat) as nat)
    } else if 'a' <= c && c <= 'f' {
        Some((c as nat - 'a' as nat + 10) as nat)
    } else if 'A' <= c && c <= 'F' {
        Some((c as nat - 'A' as nat + 10) as nat)
    } else {
        None
    }
}

/// What `hex::decode` gives for `s`: the bytes that each pair of hex digits
/// denotes, when `s` has an even number of characters and all are hex digits.
pub open spec fn hex_decoded(s: Seq<char>) -> Option<Seq<u8>> {
    if s.len() % 2 == 0 && forall|i: int| 0 <= i < s.len() ==> (#[trigger] hex_digit_value(s[i])) is Some {
        Some(
            Seq::new(
                s.len() / 2,
                |i: int| (hex_digit_value(s[2 * i]).unwrap() * 16 + hex_digit_value(s[2 * i + 1]).unwrap()) as u8,
            ),
        )
    } else {
        None
    }
}

/// `hex::decode`: as stated by [`hex_decoded`] (the source checks the length
/// first, then decodes pairs of digits; a character that is not an ASCII
/// hex digit is an error).
#[verifier::external_body]
fn hex_decode(s: &str) -> (r: Option<Vec<u8>>)
    ensures
        match r {
            Some(v) => hex_decoded(s@) == Some(v@),
            None => hex_decoded(s@) is None,
        },
{
    hex::decode(s).ok()
}

/// The HMAC-SHA256 tag of `msg` under `key`.
pub uninterp spec fn hmac_sha256(key: Seq<u8>, msg: Seq<u8>) -> Seq<u8>;

/// Verifies `tag` with `hmac::Hmac<sha2::Sha256>`: `new_from_slice(key)`
/// (which accepts every key length), `update(msg)`, `verify_slice(tag)`.
/// True exactly when `tag` is the HMAC-SHA256 tag of `msg` under `key`.
#[verifier::external_body]
fn hmac_sha256_verify(key: &[u8], msg: &[u8], tag: &[u8]) -> (ok: bool)
    ensures
        ok == (tag@ == hmac_sha256(key@, msg@)),
{
    let mut mac = <hmac::Hmac<sha2::Sha256> as hmac::Mac>::new_from_slice(key).expect("any key length");
    mac.update(msg);
    mac.verify_slice(tag).is_ok()
}

/// The kinds of GitHub event the site accepts.
#[derive(Debug, PartialEq, Eq)]
pub enum GithubEvent {
    Push,
    Ping,
}

/// The HTTP status of a refused delivery.
pub const BAD_REQUEST: u16 = 400;

/// The characters `push`.
pub open spec fn push_word() -> Seq<char> {
    seq!['p', 'u', 's', 'h']
}

/// The characters `ping`.
pub open spec fn ping_word() -> Seq<char> {
    seq!['p', 'i', 'n', 'g']
}

/// The characters `sha256=`.
pub open spec fn sha256_prefix() -> Seq<char> {
    seq!['s', 'h', 'a', '2', '5', '6', '=']
}

/// What the headers of a delivery give, before its signature is checked:
/// from its `X-GitHub-Event` and `X-Hub-Signature-256` headers (absent, or
/// not visible ASCII: `None`), the kind of a push or ping event with the
/// signature tag, which the header gives as `sha256=` and hex digits;
/// anything else is refused with 400.
pub open spec fn delivery_headers(event: Option<Seq<char>>, signature: Option<Seq<char>>) -> Result<(GithubEvent, Seq<u8>), u16> {
    match event {
        None => Err(400),
        Some(e) => if !(starts_with(e, push_word()) || starts_with(e, ping_word())) {
            Err(400)
        } else {
            match signature {
                None => Err(400),
                Some(sig) => if !starts_with(sig, sha256_prefix()) {
                    Err(400)
                } else {
                    match hex_decoded(sig.skip(7)) {
                        None => Err(400),
                        Some(tag) => Ok(
                            (if starts_with(e, push_word()) {
                                GithubEvent::Push
                            } else {
                                GithubEvent::Ping
                            }, tag),
                        ),
                    }
                },
            }
        },
    }
}

/// How a delivery is answered, from its headers (see [`delivery_headers`]),
/// the webhook secret and the body: a push or ping event whose signature is
/// `sha256=` and the hex HMAC-SHA256 of the body under the secret is
/// accepted; anything else is refused with 400.
pub open spec fn webhook_verdict(
    event: Option<Seq<char>>,
    signature: Option<Seq<char>>,
    secret: Seq<u8>,
    body: Seq<u8>,
) -> Result<GithubEvent, u16> {
    match delivery_headers(event, signature) {
        Err(code) => Err(code),
        Ok((kind, tag)) => if tag == hmac_sha256(secret, body) {
            Ok(kind)
        } else {
            Err(400)
        },
    }
}

/// The optional header as plain characters.
pub open spec fn header_chars(h: Option<String>) -> Option<Seq<char>> {
    match h {
        Some(v) => Some(v@),
        None => None,
    }
}

/// Reads the event kind and the signature tag from the headers of a
/// delivery (see [`delivery_headers`]); the webhook secret is not needed yet.
pub fn check_delivery_headers(event: &Option<String>, signature: &Option<String>) -> (r: Result<(GithubEvent, Vec<u8>), u16>)
    ensures
        match r {
            Ok((kind, tag)) => delivery_headers(header_chars(*event), header_chars(*signature)) == Ok::<(GithubEvent, Seq<u8>), u16>((kind, tag@)),
            Err(code) => delivery_headers(header_chars(*event), header_chars(*signature)) == Err::<(GithubEvent, Seq<u8>), u16>(code),
        },
{
    proof {
        reveal_strlit("push");
        reveal_strlit("ping");
        reveal_strlit("sha256=");
        assert("push"@ =~= push_word());
        assert("ping"@ =~= ping_word());
        assert("sha256="@ =~= sha256_prefix());
    }
    let e = match event {
        Some(e) => e,
        None => return Err(BAD_REQUEST),
    };
    let ec = chars_of(e.as_str());
    let is_push = chars_start_with(&ec, &chars_of("push"));
    let is_ping = chars_start_with(&ec, &chars_of("ping"));
    if !(is_push || is_ping) {
        return Err(BAD_REQUEST);
    }
    let sig = match signature {
        Some(s) => s,
        None => return Err(BAD_REQUEST),
    };
    let sc = chars_of(sig.as_str());
    if !chars_start_with(&sc, &chars_of("sha256=")) {
        return Err(BAD_REQUEST);
    }
    let hex_part = sig.as_str().substring_char(7, sc.len());
    assert(hex_part@ == sig@.skip(7));
    let tag = match hex_decode(hex_part) {
        Some(t) => t,
        None => return Err(BAD_REQUEST),
    };
    if is_push {
        Ok((GithubEvent::Push, tag))
    } else {
        Ok((GithubEvent::Ping, tag))
    }
}

/// Accepts a delivery of kind `kind` whose signature tag is `tag` when the
/// tag is the HMAC-SHA256 of the body under the webhook secret, and refuses
/// it with 400 otherwise.
pub fn check_delivery_signature(kind: GithubEvent, tag: &Vec<u8>, secret: &str, body: &str) -> (r: Result<GithubEvent, u16>)
    ensures
        r == (if tag@ == hmac_sha256(secret.spec_bytes(), body.spec_bytes()) {
            Ok::<GithubEvent, u16>(kind)
        } else {
            Err::<GithubEvent, u16>(400)
        }),
{
    if hmac_sha256_verify(secret.as_bytes(), body.as_bytes(), tag.as_slice()) {
        Ok(kind)
    } else {
        Err(BAD_REQUEST)
    }
}

/// Ingest check for incoming repo state change and `git push` events:
/// accepts a push or ping delivery signed with the webhook secret, and
/// refuses every other with 400 (see [`webhook_verdict`]).
pub fn check_github_event(
    event: &Option<String>,
    signature: &Option<String>,
    secret: &str,
    body: &str,
) -> (r: Result<GithubEvent, u16>)
    ensures
        r == webhook_verdict(header_chars(*event), header_chars(*signature), secret.spec_bytes(), body.spec_bytes()),
{
    match check_delivery_headers(event, signature) {
        Err(code) => Err(code),
        Ok((kind, tag)) => check_delivery_signature(kind, &tag, secret, body),
    }
}

} // verus!
