//! MQTT bus: broker address parsing, topic names, which incoming topics
//! are handled, and the reconnect decisions of the event loop.
use vstd::prelude::*;

use crate::auth::span_until;
use crate::error::concat;
use crate::ids::{uuid_string, uuid_text};
use crate::text::{chars_of, has_prefix, parse_u64, parse_u64_spec, starts_with_chars, string_of};

verus! {

pub open spec fn scheme_mqtt() -> Seq<char> {
    seq!['m', 'q', 't', 't', ':', '/', '/']
}

pub open spec fn scheme_tcp() -> Seq<char> {
    seq!['t', 'c', 'p', ':', '/', '/']
}

pub open spec fn scheme_ssl() -> Seq<char> {
    seq!['s', 's', 'l', ':', '/', '/']
}

pub open spec fn scheme_mqtts() -> Seq<char> {
    seq!['m', 'q', 't', 't', 's', ':', '/', '/']
}

/// The URL without its `mqtt://`, `tcp://` or `ssl://` scheme (the first
/// that matches); other URLs are kept whole.
pub open spec fn without_scheme(url: Seq<char>) -> Seq<char> {
    if has_prefix(url, scheme_mqtt()) {
        url.skip(7)
    } else if has_prefix(url, scheme_tcp()) {
        url.skip(6)
    } else if has_prefix(url, scheme_ssl()) {
        url.skip(6)
    } else {
        url
    }
}

/// The broker host: everything before the first `:` after the scheme.
pub open spec fn url_host_spec(url: Seq<char>) -> Seq<char> {
    let rest = without_scheme(url);
    rest.take(span_until(rest, ':') as int)
}

/// The broker port: the digits between the first `:` and the next `:` or
/// `/` after the scheme, when they parse as a port; otherwise 8883 for
/// `ssl://` and `mqtts://` URLs and 1883 for the rest.
pub open spec fn url_port_spec(url: Seq<char>) -> u16 {
    let rest = without_scheme(url);
    let a = span_until(rest, ':') as int;
    let explicit = if a < rest.len() {
        let after = rest.skip(a + 1);
        let seg = after.take(span_until(after, ':') as int);
        let digits = seg.take(span_until(seg, '/') as int);
        match parse_u64_spec(digits) {
            Some(n) => if n <= 65535 {
                Some(n as u16)
            } else {
                None
            },
            None => None,
        }
    } else {
        None
    };
    match explicit {
        Some(p) => p,
        None => if has_prefix(url, scheme_ssl()) || has_prefix(url, scheme_mqtts()) {
            8883
        } else {
            1883
        },
    }
}

fn skip_chars(v: &[char], n: usize) -> (r: Vec<char>)
    requires
        n <= v@.len(),
    ensures
        r@ == v@.skip(n as int),
{
    let mut out: Vec<char> = Vec::new();
    let mut i: usize = n;
    while i < v.len()
        invariant
            n <= i <= v@.len(),
            out@ == v@.subrange(n as int, i as int),
        decreases v@.len() - i,
    {
        out.push(v[i]);
        assert(v@.subrange(n as int, i + 1) =~= v@.subrange(n as int, i as int).push(v@[i as int]));
        i = i + 1;
    }
    assert(out@ =~= v@.skip(n as int));
    out
}

/// Index of the first `c` in `v`, or its length.
fn find_char(v: &[char], c: char) -> (r: usize)
    ensures
        r == span_until(v@, c),
        r <= v@.len(),
        forall|j: int| 0 <= j < r ==> v@[j] != c,
        r < v@.len() ==> v@[r as int] == c,
{
    let mut i: usize = 0;
    while i < v.len() && v[i] != c
        invariant
            i <= v@.len(),
            forall|j: int| 0 <= j < i ==> v@[j] != c,
        decreases v@.len() - i,
    {
        i = i + 1;
    }
    proof {
        crate::auth::lemma_span_until(v@, c, i as int);
    }
    i
}


fn strip_scheme(v: &[char]) -> (r: Vec<char>)
    ensures
        r@ == without_scheme(v@),
{
    let mqtt: Vec<char> = vec!['m', 'q', 't', 't', ':', '/', '/'];
    let tcp: Vec<char> = vec!['t', 'c', 'p', ':', '/', '/'];
    let ssl: Vec<char> = vec!['s', 's', 'l', ':', '/', '/'];
    assert(mqtt@ =~= scheme_mqtt());
    assert(tcp@ =~= scheme_tcp());
    assert(ssl@ =~= scheme_ssl());
    if starts_with_chars(v, mqtt.as_slice()) {
        skip_chars(v, 7)
    } else if starts_with_chars(v, tcp.as_slice()) {
        skip_chars(v, 6)
    } else if starts_with_chars(v, ssl.as_slice()) {
        skip_chars(v, 6)
    } else {
        skip_chars(v, 0)
    }
}

pub fn url_host(url: &str) -> (r: String)
    ensures
        r@ == url_host_spec(url@),
{
    let v = chars_of(url);
    let rest = strip_scheme(v.as_slice());
    let a = find_char(rest.as_slice(), ':');
    let host = crate::text::take_prefix(rest.as_slice(), a);
    string_of(host.as_slice())
}

pub fn url_port(url: &str) -> (r: u16)
    ensures
        r == url_port_spec(url@),
{
    let v = chars_of(url);
    let rest = strip_scheme(v.as_slice());
    let a = find_char(rest.as_slice(), ':');
    if a < rest.len() {
        let after = skip_chars(rest.as_slice(), a + 1);
        let b = find_char(after.as_slice(), ':');
        let seg = crate::text::take_prefix(after.as_slice(), b);
        let c = find_char(seg.as_slice(), '/');
        let digits = crate::text::take_prefix(seg.as_slice(), c);
        assert(seg@ =~= after@.take(b as int));
        assert(digits@ =~= seg@.take(c as int));
        match parse_u64(digits.as_slice()) {
            Some(n) => {
                if n <= 65535 {
                    return n as u16;
                }
            },
            None => {},
        }
    }
    let ssl: Vec<char> = vec!['s', 's', 'l', ':', '/', '/'];
    let mqtts: Vec<char> = vec!['m', 'q', 't', 't', 's', ':', '/', '/'];
    assert(ssl@ =~= scheme_ssl());
    assert(mqtts@ =~= scheme_mqtts());
    if starts_with_chars(v.as_slice(), ssl.as_slice()) || starts_with_chars(v.as_slice(), mqtts.as_slice()) {
        8883
    } else {
        1883
    }
}

// ---------------------------------------------------------------------------
// Topics
// ---------------------------------------------------------------------------

pub open spec fn topic_prefix() -> Seq<char> {
    seq!['m', 'e', 'e', 'v', '/']
}

pub open spec fn messages_word() -> Seq<char> {
    seq!['m', 'e', 's', 's', 'a', 'g', 'e', 's']
}

pub open spec fn typing_word() -> Seq<char> {
    seq!['t', 'y', 'p', 'i', 'n', 'g']
}

pub open spec fn presence_word() -> Seq<char> {
    seq!['p', 'r', 'e', 's', 'e', 'n', 'c', 'e']
}

pub open spec fn read_word() -> Seq<char> {
    seq!['r', 'e', 'a', 'd']
}

/// `meev/{conversation}/messages`.
pub fn messages_topic(conv: u128) -> (r: String)
    ensures
        r@ == topic_prefix() + uuid_text(conv) + seq!['/'] + messages_word(),
{
    let id = uuid_string(conv);
    let a = concat("meev/", id.as_str());
    let r = concat(a.as_str(), "/messages");
    proof {
        reveal_strlit("meev/");
        reveal_strlit("/messages");
        assert(r@ =~= topic_prefix() + uuid_text(conv) + seq!['/'] + messages_word());
    }
    r
}

/// `meev/{conversation}/typing`.
pub fn typing_topic(conv: u128) -> (r: String)
    ensures
        r@ == topic_prefix() + uuid_text(conv) + seq!['/'] + typing_word(),
{
    let id = uuid_string(conv);
    let a = concat("meev/", id.as_str());
    let r = concat(a.as_str(), "/typing");
    proof {
        reveal_strlit("meev/");
        reveal_strlit("/typing");
        assert(r@ =~= topic_prefix() + uuid_text(conv) + seq!['/'] + typing_word());
    }
    r
}

/// `meev/{conversation}/read`.
pub fn read_topic(conv: u128) -> (r: String)
    ensures
        r@ == topic_prefix() + uuid_text(conv) + seq!['/'] + read_word(),
{
    let id = uuid_string(conv);
    let a = concat("meev/", id.as_str());
    let r = concat(a.as_str(), "/read");
    proof {
        reveal_strlit("meev/");
        reveal_strlit("/read");
        assert(r@ =~= topic_prefix() + uuid_text(conv) + seq!['/'] + read_word());
    }
    r
}

/// `meev/presence/{user}`.
pub fn presence_topic(user: u128) -> (r: String)
    ensures
        r@ == topic_prefix() + presence_word() + seq!['/'] + uuid_text(user),
{
    let id = uuid_string(user);
    let r = concat("meev/presence/", id.as_str());
    proof {
        reveal_strlit("meev/presence/");
        assert(r@ =~= topic_prefix() + presence_word() + seq!['/'] + uuid_text(user));
    }
    r
}

/// The kinds of bus events the bridge fans out.
#[derive(Debug, Clone, Copy, PartialEq, Eq, Structural)]
pub enum TopicKind {
    Messages,
    Typing,
    Presence,
}

/// The kind of an incoming topic, by the subscriptions `meev/+/messages`,
/// `meev/+/typing` and `meev/presence/+`: exactly three `/`-separated
/// parts, the middle one `presence` for presence events, else the last one
/// `messages` or `typing`.
pub open spec fn topic_kind(t: Seq<char>) -> Option<TopicKind> {
    let a = span_until(t, '/') as int;
    if a >= t.len() {
        None
    } else {
        let rest = t.skip(a + 1);
        let b = span_until(rest, '/') as int;
        if b >= rest.len() {
            None
        } else {
            let tail = rest.skip(b + 1);
            if span_until(tail, '/') < tail.len() {
                None
            } else {
                let mid = rest.take(b);
                if mid == presence_word() {
                    Some(TopicKind::Presence)
                } else if tail == messages_word() {
                    Some(TopicKind::Messages)
                } else if tail == typing_word() {
                    Some(TopicKind::Typing)
                } else {
                    None
                }
            }
        }
    }
}

pub fn classify_topic(topic: &str) -> (r: Option<TopicKind>)
    ensures
        r == topic_kind(topic@),
{
    let v = chars_of(topic);
    let a = find_char(v.as_slice(), '/');
    if a >= v.len() {
        return None;
    }
    let rest = skip_chars(v.as_slice(), a + 1);
    let b = find_char(rest.as_slice(), '/');
    if b >= rest.len() {
        return None;
    }
    let tail = skip_chars(rest.as_slice(), b + 1);
    if find_char(tail.as_slice(), '/') < tail.len() {
        return None;
    }
    let mid = crate::text::take_prefix(rest.as_slice(), b);
    assert(mid@ =~= rest@.take(b as int));
    let m: Vec<char> = vec!['m', 'e', 's', 's', 'a', 'g', 'e', 's'];
    let t: Vec<char> = vec!['t', 'y', 'p', 'i', 'n', 'g'];
    let p: Vec<char> = vec!['p', 'r', 'e', 's', 'e', 'n', 'c', 'e'];
    assert(m@ =~= messages_word());
    assert(t@ =~= typing_word());
    assert(p@ =~= presence_word());
    if crate::text::chars_eq(mid.as_slice(), p.as_slice()) {
        Some(TopicKind::Presence)
    } else if crate::text::chars_eq(tail.as_slice(), m.as_slice()) {
        Some(TopicKind::Messages)
    } else if crate::text::chars_eq(tail.as_slice(), t.as_slice()) {
        Some(TopicKind::Typing)
    } else {
        None
    }
}

// ---------------------------------------------------------------------------
// Event loop decisions
// ---------------------------------------------------------------------------

/// What the MQTT event loop reported.
#[derive(Debug, Clone, Copy, PartialEq, Eq, Structural)]
pub enum BusEvent {
    ConnAck,
    Publish,
    OtherIncoming,
    Outgoing,
    Failure,
}

/// What the event loop does next.
#[derive(Debug, Clone, Copy, PartialEq, Eq, Structural)]
pub enum BusAction {
    /// Mark connected and subscribe to the message, typing and presence topics.
    Subscribe,
    /// Hand the published topic and payload to the topic handler.
    Dispatch,
    /// Nothing to do.
    Ignore,
    /// Wait 3 seconds before polling again; `warn` when the connection was
    /// up until now (the loss is reported once).
    Backoff { warn: bool },
}

pub open spec fn bus_step_spec(connected: bool, ev: BusEvent) -> (bool, BusAction) {
    match ev {
        BusEvent::ConnAck => (true, BusAction::Subscribe),
        BusEvent::Publish => (connected, BusAction::Dispatch),
        BusEvent::OtherIncoming => (connected, BusAction::Ignore),
        BusEvent::Outgoing => (connected, BusAction::Ignore),
        BusEvent::Failure => (false, BusAction::Backoff { warn: connected }),
    }
}

/// One step of the event loop: the new connected flag and the action.
pub fn bus_step(connected: bool, ev: BusEvent) -> (r: (bool, BusAction))
    ensures
        r == bus_step_spec(connected, ev),
{
    match ev {
        BusEvent::ConnAck => (true, BusAction::Subscribe),
        BusEvent::Publish => (connected, BusAction::Dispatch),
        BusEvent::OtherIncoming => (connected, BusAction::Ignore),
        BusEvent::Outgoing => (connected, BusAction::Ignore),
        BusEvent::Failure => (false, BusAction::Backoff { warn: connected }),
    }
}

} // verus!
