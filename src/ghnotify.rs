//! GitHub push events, and the notice sent to chat for one.
use vstd::prelude::*;
use vstd::string::StringSliceAdditionalSpecFns;

use hmac::Mac;

use crate::onebot::{eq_ignore_ascii_case, eq_ignore_ascii_case_spec};
use crate::text::{concat, join, join_spec, str_eq, views};

verus! {

#[derive(Debug)]
pub struct GithubPushEvent {
    pub ref_name: String,
    pub repository: Repository,
    pub commits: Vec<Commit>,
    pub sender: Sender,
}

#[derive(Debug)]
pub struct Repository {
    pub name: String,
    pub full_name: String,
    pub html_url: String,
}

#[derive(Debug)]
pub struct Commit {
    pub id: String,
    pub message: String,
    pub author: Author,
    pub url: String,
}

#[derive(Debug)]
pub struct Author {
    pub name: String,
    pub email: String,
}

#[derive(Debug)]
pub struct Sender {
    pub login: String,
}

/// The commit messages of a push.
pub open spec fn messages(commits: Seq<Commit>) -> Seq<String> {
    commits.map_values(|c: Commit| c.message)
}

/// The chat notice of a push: who pushed to which ref, then each commit
/// message on a line of its own.
pub open spec fn notice_spec(e: GithubPushEvent) -> Seq<char> {
    "由 "@ + e.sender.login@ + " 推送到 "@ + e.ref_name@ + " ;\n提交内容: \n"@ + join_spec(
        views(messages(e.commits@)),
        "\n"@,
    )
}

impl GithubPushEvent {
    /// The chat notice for this push.
    pub fn notice(&self) -> (r: String)
        ensures
            r@ == notice_spec(*self),
    {
        let mut msgs: Vec<String> = Vec::new();
        let mut i: usize = 0;
        while i < self.commits.len()
            invariant
                i <= self.commits@.len(),
                msgs@ == messages(self.commits@.subrange(0, i as int)),
            decreases self.commits@.len() - i,
        {
            msgs.push(self.commits[i].message.clone());
            i = i + 1;
            proof {
                assert(msgs@ =~= messages(self.commits@.subrange(0, i as int)));
            }
        }
        proof {
            assert(self.commits@.subrange(0, self.commits@.len() as int) =~= self.commits@);
        }
        let mut s = "由 ".to_owned();
        s.append(self.sender.login.as_str());
        s.append(" 推送到 ");
        s.append(self.ref_name.as_str());
        s.append(" ;\n提交内容: \n");
        s.append(join(&msgs, "\n").as_str());
        s
    }
}

/// The lower-case hex digit of `d`.
pub open spec fn hex_digit(d: u8) -> char {
    if d < 10 {
        ((d + 48) as u32) as char
    } else {
        ((d + 87) as u32) as char
    }
}

/// Each byte as two lower-case hex digits.
pub open spec fn hex_spec(b: Seq<u8>) -> Seq<char>
    decreases b.len(),
{
    if b.len() == 0 {
        Seq::empty()
    } else {
        hex_spec(b.drop_last()) + seq![hex_digit(b.last() / 16), hex_digit(b.last() % 16)]
    }
}

/// Relies on `hex::encode`: each byte as two lower-case hex digits.
#[verifier::external_body]
fn hex_encode(b: &[u8]) -> (r: String)
    ensures
        r@ == hex_spec(b@),
{
    hex::encode(b)
}

/// The HMAC-SHA256 of a message under a key.
pub uninterp spec fn hmac_sha256_of(key: Seq<u8>, msg: Seq<u8>) -> Seq<u8>;

/// Relies on `hmac::Hmac<sha2::Sha256>` (`new_from_slice`, `update`,
/// `finalize`): the message's HMAC-SHA256 under the key, a function of the
/// two alone. HMAC takes a key of any length, so `new_from_slice` never
/// fails and the result is always there.
#[verifier::external_body]
fn hmac_sha256(key: &[u8], msg: &[u8]) -> (r: Option<Vec<u8>>)
    ensures
        r is Some,
        r matches Some(d) ==> d@ == hmac_sha256_of(key@, msg@),
{
    let mut mac = match hmac::Hmac::<sha2::Sha256>::new_from_slice(key) {
        Ok(m) => m,
        Err(_) => return None,
    };
    mac.update(msg);
    Some(mac.finalize().into_bytes().to_vec())
}

/// How the webhook answers a delivery.
#[derive(Debug, Clone, Copy, PartialEq, Eq, Structural)]
pub enum WebhookStep {
    /// 400: a header is missing or unreadable.
    BadRequest,
    /// 401: the signature does not match.
    Unauthorized,
    /// 500: the signature could not be computed.
    ServerError,
    /// A push event to announce, then 200.
    HandlePush,
    /// 200 with nothing to do.
    Ignore,
}

/// A header: absent, present but not readable as text, or its text.
pub open spec fn header_text(h: Option<Option<String>>) -> Option<Seq<char>> {
    match h {
        Some(Some(s)) => Some(s@),
        _ => None,
    }
}

/// The answer to a delivery whose body has the HMAC `digest` (if it could
/// be computed), given its signature and event headers.
pub open spec fn webhook_spec(
    signature: Option<Option<String>>,
    digest: Option<Seq<u8>>,
    event: Option<Option<String>>,
) -> WebhookStep {
    match header_text(signature) {
        None => WebhookStep::BadRequest,
        Some(sig) => match digest {
            None => WebhookStep::ServerError,
            Some(d) => if !eq_ignore_ascii_case_spec(sig, "sha256="@ + hex_spec(d)) {
                WebhookStep::Unauthorized
            } else {
                match header_text(event) {
                    None => WebhookStep::BadRequest,
                    Some(e) => if e == "push"@ {
                        WebhookStep::HandlePush
                    } else {
                        WebhookStep::Ignore
                    },
                }
            },
        },
    }
}

/// Decides the answer to a delivery from its headers and its body's HMAC.
pub fn webhook_decision(
    signature: &Option<Option<String>>,
    digest: &Option<Vec<u8>>,
    event: &Option<Option<String>>,
) -> (r: WebhookStep)
    ensures
        r == webhook_spec(
            *signature,
            match digest {
                Some(d) => Some(d@),
                None => None,
            },
            *event,
        ),
{
    let sig = match signature {
        Some(Some(s)) => s,
        _ => return WebhookStep::BadRequest,
    };
    let d = match digest {
        Some(d) => d,
        None => return WebhookStep::ServerError,
    };
    let expected = concat("sha256=", hex_encode(d.as_slice()).as_str());
    if !eq_ignore_ascii_case(sig.as_str(), expected.as_str()) {
        return WebhookStep::Unauthorized;
    }
    match event {
        Some(Some(e)) => if str_eq(e.as_str(), "push") {
            WebhookStep::HandlePush
        } else {
            WebhookStep::Ignore
        },
        _ => WebhookStep::BadRequest,
    }
}

/// The answer to a delivery of `body` signed with `secret`.
pub fn webhook(
    secret: &str,
    body: &[u8],
    signature: &Option<Option<String>>,
    event: &Option<Option<String>>,
) -> (r: WebhookStep)
    ensures
        r == webhook_spec(*signature, Some(hmac_sha256_of(secret.spec_bytes(), body@)), *event),
{
    match signature {
        Some(Some(_)) => {},
        _ => return WebhookStep::BadRequest,
    }
    let digest = hmac_sha256(secret.as_bytes(), body);
    webhook_decision(signature, &digest, event)
}

} // verus!
