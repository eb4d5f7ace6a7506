use sithra::ghnotify::{webhook, webhook_decision, WebhookStep};

fn h(s: &str) -> Option<Option<String>> {
    Some(Some(s.to_owned()))
}

// RFC 4231, test case 2
const KEY: &str = "Jefe";
const BODY: &[u8] = b"what do ya want for nothing?";
const DIGEST: &str = "5bdcc146bf60754e6a042426089575c75a003f089d2739839dec58b964ec3843";

#[test]
fn signed_push_is_announced() {
    let sig = h(&format!("sha256={DIGEST}"));
    assert_eq!(webhook(KEY, BODY, &sig, &h("push")), WebhookStep::HandlePush);
    assert_eq!(webhook(KEY, BODY, &sig, &h("ping")), WebhookStep::Ignore);
    let upper = h(&format!("SHA256={}", DIGEST.to_uppercase()));
    assert_eq!(webhook(KEY, BODY, &upper, &h("push")), WebhookStep::HandlePush);
}

#[test]
fn bad_deliveries() {
    let wrong = h("sha256=00");
    assert_eq!(webhook(KEY, BODY, &wrong, &h("push")), WebhookStep::Unauthorized);
    assert_eq!(webhook(KEY, BODY, &None, &h("push")), WebhookStep::BadRequest);
    assert_eq!(webhook(KEY, BODY, &Some(None), &h("push")), WebhookStep::BadRequest);
    let sig = h(&format!("sha256={DIGEST}"));
    assert_eq!(webhook(KEY, BODY, &sig, &None), WebhookStep::BadRequest);
    assert_eq!(webhook("other", BODY, &sig, &h("push")), WebhookStep::Unauthorized);
}

#[test]
fn decision_from_digest() {
    let d = Some(vec![0xab, 0x01]);
    assert_eq!(webhook_decision(&h("sha256=AB01"), &d, &h("push")), WebhookStep::HandlePush);
    assert_eq!(webhook_decision(&h("sha256=ab01"), &None, &h("push")), WebhookStep::ServerError);
    assert_eq!(webhook_decision(&h("sha256=ab0"), &d, &h("push")), WebhookStep::Unauthorized);
}
