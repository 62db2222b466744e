//! The stored webhook record, the parsing of a webhook URL into it, and the
//! URLs of the remote API.

use vstd::prelude::*;
use vstd::string::*;

use crate::cipher::{decrypt, encrypt, fernet_plaintext, seals, CryptoError, TokenCipher};
use crate::digits::{append_chars, decimal, parse_u64_spec};
use crate::snowflake::Snowflake;

verus! {

/// Base URL of the chat platform's HTTP API.
pub const API_URL: &'static str = "https://discord.com/api/v9";

/// A webhook as stored: its identifier and its encrypted token.
#[derive(Debug)]
pub struct Webhook {
    id: Snowflake,
    encrypted_token: String,
}

impl Webhook {
    /// The webhook's identifier.
    pub closed spec fn spec_id(&self) -> Snowflake {
        self.id
    }

    /// The webhook's encrypted token.
    pub closed spec fn spec_encrypted_token(&self) -> Seq<char> {
        self.encrypted_token@
    }

    pub fn new(id: Snowflake, encrypted_token: String) -> (r: Webhook)
        ensures
            r.spec_id() == id,
            r.spec_encrypted_token() == encrypted_token@,
    {
        Webhook { id, encrypted_token }
    }

    pub fn id(&self) -> (r: Snowflake)
        ensures
            r == self.spec_id(),
    {
        self.id
    }

    pub fn encrypted_token(&self) -> (r: &str)
        ensures
            r@ == self.spec_encrypted_token(),
    {
        self.encrypted_token.as_str()
    }
}

/// Why a text is not a usable webhook URL.
#[derive(Clone, Copy, Debug, PartialEq, Eq, Structural)]
pub enum UrlError {
    /// The text does not end in `/webhooks/{id}/{token}`, with an optional
    /// final slash.
    NotWebhookUrl,
    /// The identifier is not a positive integer.
    BadId,
}

/// The text `/webhooks/`.
pub open spec fn webhooks_marker() -> Seq<char> {
    seq!['/', 'w', 'e', 'b', 'h', 'o', 'o', 'k', 's', '/']
}

/// Whether `s` holds no line feed.
pub open spec fn newline_free(s: Seq<char>) -> bool {
    forall|i: int| 0 <= i < s.len() ==> #[trigger] s[i] != '\n'
}

/// Whether `s` holds a slash.
pub open spec fn has_slash(s: Seq<char>) -> bool {
    exists|i: int| 0 <= i < s.len() && #[trigger] s[i] == '/'
}

/// Whether a webhook URL match starts at `p`: `/webhooks/` stands there,
/// a slash follows somewhere after it, and no line feed comes after `p`.
pub open spec fn url_match_at(s: Seq<char>, p: int) -> bool {
    &&& 0 <= p
    &&& p + 10 <= s.len()
    &&& s.subrange(p, p + 10) == webhooks_marker()
    &&& newline_free(s.subrange(p, s.len() as int))
    &&& has_slash(s.subrange(p + 10, s.len() as int))
}

/// The leftmost position, from `p` on, where a webhook URL match starts.
pub open spec fn first_url_match(s: Seq<char>, p: int) -> Option<int>
    decreases s.len() + 1 - p,
{
    if p < 0 || p > s.len() {
        None
    } else if url_match_at(s, p) {
        Some(p)
    } else {
        first_url_match(s, p + 1)
    }
}

/// Index of the first slash of `s`, or its length when it has none.
pub open spec fn first_slash(s: Seq<char>) -> int
    decreases s.len(),
{
    if s.len() == 0 || s[0] == '/' {
        0
    } else {
        1 + first_slash(s.drop_first())
    }
}

/// `t` without one final slash, if it ends in one.
pub open spec fn strip_final_slash(t: Seq<char>) -> Seq<char> {
    if t.len() > 0 && t.last() == '/' {
        t.drop_last()
    } else {
        t
    }
}

/// The identifier text and the token of a webhook URL: at the leftmost
/// `/webhooks/` that is followed by a slash and by no line feed, the
/// identifier runs to the next slash and the token to the end, without
/// one final slash.
pub open spec fn split_webhook_url(s: Seq<char>) -> Option<(Seq<char>, Seq<char>)> {
    match first_url_match(s, 0) {
        None => None,
        Some(p) => {
            let rest = s.subrange(p + 10, s.len() as int);
            let q = first_slash(rest);
            Some((rest.subrange(0, q), strip_final_slash(rest.subrange(q + 1, rest.len() as int))))
        },
    }
}

proof fn lemma_first_url_match_is(s: Seq<char>, j: int, p: int)
    requires
        0 <= j <= p,
        url_match_at(s, p),
        forall|i: int| j <= i < p ==> !url_match_at(s, i),
    ensures
        first_url_match(s, j) == Some(p),
    decreases p - j,
{
    if j < p {
        lemma_first_url_match_is(s, j + 1, p);
    }
}

proof fn lemma_first_url_match_none(s: Seq<char>, j: int)
    requires
        0 <= j,
        forall|i: int| j <= i <= s.len() ==> !url_match_at(s, i),
    ensures
        first_url_match(s, j) is None,
    decreases s.len() + 1 - j,
{
    if j <= s.len() {
        lemma_first_url_match_none(s, j + 1);
    }
}

/// Whether a webhook URL match starts at `p`.
fn match_at(s: &Vec<char>, p: usize) -> (r: bool)
    requires
        p <= s@.len(),
    ensures
        r == url_match_at(s@, p as int),
{
    let n = s.len();
    if n - p < 10 {
        return false;
    }
    let marker = vec!['/', 'w', 'e', 'b', 'h', 'o', 'o', 'k', 's', '/'];
    assert(marker@ =~= webhooks_marker());
    let mut i: usize = 0;
    while i < 10
        invariant
            p + 10 <= n == s@.len(),
            marker@ == webhooks_marker(),
            i <= 10,
            s@.subrange(p as int, p + i) == marker@.subrange(0, i as int),
        decreases 10 - i,
    {
        if s[p + i] != marker[i] {
            assert(s@.subrange(p as int, p + 10)[i as int] != marker@[i as int]);
            return false;
        }
        i = i + 1;
        assert(s@.subrange(p as int, p + i) =~= marker@.subrange(0, i as int));
    }
    assert(marker@.subrange(0, 10) =~= marker@);
    let mut j: usize = p;
    while j < n
        invariant
            p <= j <= n == s@.len(),
            newline_free(s@.subrange(p as int, j as int)),
        decreases n - j,
    {
        if s[j] == '\n' {
            assert(s@.subrange(p as int, n as int)[j - p] == '\n');
            return false;
        }
        j = j + 1;
        assert(newline_free(s@.subrange(p as int, j as int))) by {
            assert forall|k: int| 0 <= k < j - p implies #[trigger] s@.subrange(
                p as int,
                j as int,
            )[k] != '\n' by {
                assert(s@.subrange(p as int, j as int)[k] == s@[p + k]);
            }
        }
    }
    assert(s@.subrange(p as int, j as int) =~= s@.subrange(p as int, n as int));
    let mut k: usize = p + 10;
    while k < n
        invariant
            p + 10 <= k <= n == s@.len(),
            s@.subrange(p as int, p + 10) == webhooks_marker(),
            newline_free(s@.subrange(p as int, n as int)),
            forall|x: int| p + 10 <= x < k ==> s@[x] != '/',
        decreases n - k,
    {
        if s[k] == '/' {
            assert(s@.subrange(p + 10, n as int)[k - p - 10] == '/');
            return true;
        }
        k = k + 1;
    }
    assert(!has_slash(s@.subrange(p + 10, n as int))) by {
        if has_slash(s@.subrange(p + 10, n as int)) {
            let x = choose|x: int|
                0 <= x < s@.subrange(p + 10, n as int).len() && #[trigger] s@.subrange(
                    p + 10,
                    n as int,
                )[x] == '/';
            assert(s@[p + 10 + x] == '/');
        }
    }
    false
}

/// Index of the first slash at or after `from`, or the length.
fn find_slash(s: &Vec<char>, from: usize) -> (r: usize)
    requires
        from <= s@.len(),
    ensures
        from <= r <= s@.len(),
        r - from == first_slash(s@.subrange(from as int, s@.len() as int)),
{
    let mut i = from;
    while i < s.len() && s[i] != '/'
        invariant
            from <= i <= s@.len(),
            first_slash(s@.subrange(from as int, s@.len() as int)) == (i - from) + first_slash(
                s@.subrange(i as int, s@.len() as int),
            ),
        decreases s@.len() - i,
    {
        assert(s@.subrange(i as int, s@.len() as int).drop_first() =~= s@.subrange(
            i + 1,
            s@.len() as int,
        ));
        i = i + 1;
    }
    i
}

/// The characters of `s` from `from` up to `to`.
fn sub_chars(s: &Vec<char>, from: usize, to: usize) -> (r: Vec<char>)
    requires
        from <= to <= s@.len(),
    ensures
        r@ == s@.subrange(from as int, to as int),
{
    let mut r: Vec<char> = Vec::new();
    let mut i = from;
    while i < to
        invariant
            from <= i <= to <= s@.len(),
            r@ == s@.subrange(from as int, i as int),
        decreases to - i,
    {
        r.push(s[i]);
        i = i + 1;
        assert(r@ =~= s@.subrange(from as int, i as int));
    }
    r
}

/// Splits a webhook URL into its identifier text and its token.
pub fn split_url(url: &str) -> (r: Option<(Vec<char>, Vec<char>)>)
    ensures
        r is Some <==> split_webhook_url(url@) is Some,
        r matches Some((id, token)) ==> split_webhook_url(url@) == Some((id@, token@)),
{
    let s = crate::digits::chars_of(url);
    let n = s.len();
    let mut p: usize = 0;
    while p < n
        invariant
            p <= n == s@.len(),
            s@ == url@,
            forall|i: int| 0 <= i < p ==> !url_match_at(s@, i),
        decreases n - p,
    {
        if match_at(&s, p) {
            proof {
                lemma_first_url_match_is(s@, 0, p as int);
            }
            let start = p + 10;
            let q = find_slash(&s, start);
            let ghost rest = s@.subrange(start as int, n as int);
            assert(rest.subrange(0, q - start) =~= s@.subrange(start as int, q as int));
            let id = sub_chars(&s, start, q);
            let end: usize = if n - q > 1 && s[n - 1] == '/' {
                n - 1
            } else {
                n
            };
            // the slash at `q` exists, since a match starts at `p`
            proof {
                let x = choose|x: int| 0 <= x < rest.len() && #[trigger] rest[x] == '/';
                lemma_first_slash_bound(rest, x);
            }
            let token = sub_chars(&s, q + 1, end);
            let ghost tail = rest.subrange(q - start + 1, rest.len() as int);
            assert(tail =~= s@.subrange(q + 1, n as int));
            assert(token@ =~= strip_final_slash(tail));
            return Some((id, token));
        }
        p = p + 1;
    }
    proof {
        lemma_first_url_match_none(s@, 0);
    }
    None
}

proof fn lemma_first_slash_bound(s: Seq<char>, x: int)
    requires
        0 <= x < s.len(),
        s[x] == '/',
    ensures
        0 <= first_slash(s) <= x,
        s[first_slash(s)] == '/',
    decreases s.len(),
{
    if s[0] != '/' {
        let d = s.drop_first();
        assert(d[x - 1] == s[x]);
        lemma_first_slash_bound(d, x - 1);
        assert(first_slash(s) == 1 + first_slash(d));
        assert(d[first_slash(d)] == s[1 + first_slash(d)]);
    }
}

/// Turns a webhook URL into the record to store: the identifier, which must
/// be a positive integer, and the token, encrypted at once.
pub fn url_to_webhook(cipher: &TokenCipher, url: &str) -> (r: Result<Webhook, UrlError>)
    ensures
        split_webhook_url(url@) is None ==> r == Err::<Webhook, UrlError>(UrlError::NotWebhookUrl),
        split_webhook_url(url@) matches Some((id, token)) ==> match r {
            Ok(w) => {
                &&& parse_u64_spec(id) == Some(w.spec_id()@)
                &&& seals(cipher.key(), w.spec_encrypted_token(), token)
            },
            Err(e) => {
                &&& e == UrlError::BadId
                &&& !(parse_u64_spec(id) matches Some(v) && v > 0)
            },
        },
{
    match split_url(url) {
        None => Err(UrlError::NotWebhookUrl),
        Some((id_text, token_chars)) => match Snowflake::parse_chars(&id_text) {
            None => Err(UrlError::BadId),
            Some(id) => {
                let mut token = String::new();
                append_chars(&mut token, &token_chars);
                assert(token@ =~= token_chars@);
                let sealed = encrypt(cipher, token.as_str());
                Ok(Webhook::new(id, sealed))
            },
        },
    }
}

/// The text of `API_URL`.
pub open spec fn api_url() -> Seq<char> {
    API_URL@
}

/// The URL of a webhook: `{API_URL}/webhooks/{id}/{token}`.
pub open spec fn webhook_url_spec(id: u64, token: Seq<char>) -> Seq<char> {
    api_url() + "/webhooks/"@ + decimal(id as nat) + "/"@ + token
}

/// The URL of one message of a webhook: `{base}/messages/{id}`.
pub open spec fn message_url_spec(base: Seq<char>, message: u64) -> Seq<char> {
    base + "/messages/"@ + decimal(message as nat)
}

/// The URL of a channel's messages: `{API_URL}/channels/{id}/messages`.
pub open spec fn channel_messages_url_spec(channel: u64) -> Seq<char> {
    api_url() + "/channels/"@ + decimal(channel as nat) + "/messages"@
}

/// Builds the URL of a webhook from its identifier and its plain token.
pub fn webhook_url(id: Snowflake, token: &str) -> (r: String)
    ensures
        r@ == webhook_url_spec(id@, token@),
{
    let mut r = String::from_str(API_URL);
    r.append("/webhooks/");
    id.push_to(&mut r);
    r.append("/");
    r.append(token);
    r
}

/// Builds the URL of one message of a webhook.
pub fn message_url(base: &str, message: Snowflake) -> (r: String)
    ensures
        r@ == message_url_spec(base@, message@),
{
    let mut r = String::from_str(base);
    r.append("/messages/");
    message.push_to(&mut r);
    r
}

/// Builds the URL of a channel's messages.
pub fn channel_messages_url(channel: Snowflake) -> (r: String)
    ensures
        r@ == channel_messages_url_spec(channel@),
{
    let mut r = String::from_str(API_URL);
    r.append("/channels/");
    channel.push_to(&mut r);
    r.append("/messages");
    r
}

/// Builds the URL of one message of a channel.
pub fn channel_message_url(channel: Snowflake, message: Snowflake) -> (r: String)
    ensures
        r@ == channel_messages_url_spec(channel@) + "/"@ + decimal(message@ as nat),
{
    let mut r = channel_messages_url(channel);
    r.append("/");
    message.push_to(&mut r);
    r
}

/// Decrypts the webhook's token and builds its URL.
pub fn get_webhook_url(cipher: &TokenCipher, webhook: &Webhook) -> (r: Result<String, CryptoError>)
    ensures
        r matches Ok(u) ==> exists|token: Seq<char>|
            seals(cipher.key(), webhook.spec_encrypted_token(), token) && u@ == webhook_url_spec(
                webhook.spec_id()@,
                token,
            ),
        fernet_plaintext(cipher.key(), webhook.spec_encrypted_token()) is None ==> r is Err,
{
    match decrypt(cipher, webhook.encrypted_token()) {
        Ok(token) => Ok(webhook_url(webhook.id(), token.as_str())),
        Err(e) => Err(e),
    }
}

} // verus!
