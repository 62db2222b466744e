use sidekwest::cipher::{decrypt, encrypt, TokenCipher};
use sidekwest::snowflake::Snowflake;
use sidekwest::webhook::{
    channel_message_url, channel_messages_url, get_webhook_url, message_url, split_url,
    url_to_webhook, webhook_url, UrlError, Webhook,
};

fn cipher() -> TokenCipher {
    TokenCipher::new(&fernet::Fernet::generate_key()).unwrap()
}

fn split(s: &str) -> Option<(String, String)> {
    split_url(s).map(|(a, b)| (a.into_iter().collect(), b.into_iter().collect()))
}

fn pair(a: &str, b: &str) -> Option<(String, String)> {
    Some((a.to_string(), b.to_string()))
}

#[test]
fn webhook_record_keeps_its_fields() {
    let id = Snowflake::new(42).unwrap();
    let w = Webhook::new(id, "sealed".to_string());
    assert_eq!(w.id(), id);
    assert_eq!(w.encrypted_token(), "sealed");
}

#[test]
fn url_splits_into_id_and_token() {
    let url = "https://discord.com/api/webhooks/123/abc-DEF_9";
    assert_eq!(split(url), pair("123", "abc-DEF_9"));
    assert_eq!(split("https://x/webhooks/123/tok/"), pair("123", "tok"));
    assert_eq!(split("https://x/webhooks/123/a/b"), pair("123", "a/b"));
    assert_eq!(split("https://x/webhooks/123/tok//"), pair("123", "tok/"));
    assert_eq!(split("/webhooks/1/"), pair("1", ""));
    assert_eq!(split("/webhooks//t"), pair("", "t"));
    assert_eq!(split("/webhooks/x/webhooks/5/t"), pair("x", "webhooks/5/t"));
}

#[test]
fn url_without_webhook_path_is_refused() {
    assert_eq!(split("https://discord.com/api/channels/1/2"), None);
    assert_eq!(split("/webhooks/123"), None);
    assert_eq!(split("/webhooks/123/tok\n"), None);
    assert_eq!(split("a\n/webhooks/1/t"), pair("1", "t"));
    assert_eq!(split(""), None);
}

#[test]
fn url_to_webhook_encrypts_token() {
    let c = cipher();
    let w = url_to_webhook(&c, "https://discord.com/api/webhooks/987654321/my-token/").unwrap();
    assert_eq!(w.id().get(), 987654321);
    assert_ne!(w.encrypted_token(), "my-token");
    assert_eq!(decrypt(&c, w.encrypted_token()), Ok("my-token".to_string()));
}

#[test]
fn url_to_webhook_errors() {
    let c = cipher();
    assert_eq!(url_to_webhook(&c, "https://example.com/").err(), Some(UrlError::NotWebhookUrl));
    assert_eq!(url_to_webhook(&c, "https://x/webhooks/abc/tok").err(), Some(UrlError::BadId));
    assert_eq!(url_to_webhook(&c, "https://x/webhooks/0/tok").err(), Some(UrlError::BadId));
    assert_eq!(url_to_webhook(&c, "https://x/webhooks//tok").err(), Some(UrlError::BadId));
}

#[test]
fn api_urls() {
    let id = Snowflake::new(11).unwrap();
    let msg = Snowflake::new(22).unwrap();
    assert_eq!(webhook_url(id, "tok"), "https://discord.com/api/v9/webhooks/11/tok");
    assert_eq!(message_url("https://h/webhooks/11/tok", msg), "https://h/webhooks/11/tok/messages/22");
    assert_eq!(channel_messages_url(id), "https://discord.com/api/v9/channels/11/messages");
    assert_eq!(channel_message_url(id, msg), "https://discord.com/api/v9/channels/11/messages/22");
}

#[test]
fn webhook_url_uses_decrypted_token() {
    let c = cipher();
    let w = Webhook::new(Snowflake::new(5).unwrap(), encrypt(&c, "secret-token"));
    assert_eq!(get_webhook_url(&c, &w).unwrap(), "https://discord.com/api/v9/webhooks/5/secret-token");
    let bad = Webhook::new(Snowflake::new(5).unwrap(), "garbage".to_string());
    assert!(get_webhook_url(&c, &bad).is_err());
}

#[test]
fn stored_token_decrypts_with_and_without_final_slash() {
    let c = cipher();
    for url in ["https://discord.com/api/webhooks/123/abcDEF", "https://discord.com/api/webhooks/123/abcDEF/"] {
        let w = url_to_webhook(&c, url).unwrap();
        assert_eq!(w.id().get(), 123);
        assert_eq!(decrypt(&c, w.encrypted_token()), Ok("abcDEF".to_string()));
    }
}
