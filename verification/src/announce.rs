//! The announcement of the service on nostr relays.
use vstd::prelude::*;
use vstd::string::*;
use crate::manifest::{
    announcement_json, law_announcement_json_determines, AnnouncementView, ServiceAnnouncement,
};
use crate::nostr::{
    client_publish_message, public_hex_of, publish_text, tag_texts, valid_event, Event, EventView,
    NostrKeys, SERVICE_ANNOUNCEMENT_KIND,
};
use crate::outside::{json_parts, json_read, read_json_parts, schnorr_public};
use crate::text::{decimal, decimal_text, same_text, texts, to_hex};

verus! {

/// What became of an announcement at a relay.
#[derive(Debug, Clone)]
pub struct RelayResult {
    /// The relay.
    pub relay: String,
    /// Whether it accepted the announcement.
    pub ok: bool,
    /// Why, or why not.
    pub detail: String,
}

/// A tag of two texts.
pub open spec fn pair(key: Seq<char>, value: Seq<char>) -> Seq<Seq<char>> {
    seq![key, value]
}

/// The tags of an announcement: a `d` tag, by which it replaces the one before, and
/// what a relay can filter by without reading the content.
pub open spec fn announcement_tags(a: AnnouncementView) -> Seq<Seq<Seq<char>>> {
    seq![
        pair("d"@, "pivss-service"@),
        pair("name"@, a.name),
        pair("endpoint"@, a.endpoint),
        pair("price_sats_per_mib"@, decimal(a.price_sats_per_mib as nat)),
        pair("bolt12"@, a.bolt12_offer),
        pair("t"@, "pivss"@),
        pair("t"@, "backup"@),
    ]
}

/// Appends a tag of two texts.
fn push_tag(tags: &mut Vec<Vec<String>>, key: &str, value: &str)
    ensures
        tag_texts(final(tags)@) == tag_texts(old(tags)@).push(pair(key@, value@)),
{
    let mut tag: Vec<String> = Vec::new();
    tag.push(key.to_owned());
    tag.push(value.to_owned());
    assert(texts(tag@) =~= pair(key@, value@));
    tags.push(tag);
    assert(tag_texts(tags@) =~= tag_texts(old(tags)@).push(pair(key@, value@)));
}

/// Whether an event announces a service, of the owner of a secret key, at a time.
pub open spec fn announces(
    ev: EventView,
    secret: Seq<u8>,
    a: AnnouncementView,
    created_at: u64,
) -> bool {
    &&& ev.pubkey == public_hex_of(secret)
    &&& ev.kind == SERVICE_ANNOUNCEMENT_KIND
    &&& ev.created_at == created_at
    &&& ev.content == announcement_json(a)
    &&& ev.tags == announcement_tags(a)
}

/// Makes and signs the event that announces a service.
pub fn build_announcement_event(
    keys: &NostrKeys,
    ann: &ServiceAnnouncement,
    created_at: u64,
) -> (ev: Event)
    ensures
        valid_event(ev@),
        announces(ev@, keys@, ann@, created_at),
{
    let content = ann.to_json();
    let mut tags: Vec<Vec<String>> = Vec::new();
    push_tag(&mut tags, "d", "pivss-service");
    push_tag(&mut tags, "name", ann.name.as_str());
    push_tag(&mut tags, "endpoint", ann.endpoint.as_str());
    push_tag(&mut tags, "price_sats_per_mib", decimal_text(ann.price_sats_per_mib).as_str());
    push_tag(&mut tags, "bolt12", ann.bolt12_offer.as_str());
    push_tag(&mut tags, "t", "pivss");
    push_tag(&mut tags, "t", "backup");
    assert(tag_texts(tags@) =~= announcement_tags(ann@));
    keys.sign_event(SERVICE_ANNOUNCEMENT_KIND, content.as_str(), tags, created_at)
}

// ---------------------------------------------------------------------------
// Publishing
// ---------------------------------------------------------------------------

/// What a text from a relay says of an event that was sent to it.
pub enum Ack {
    /// That it was accepted or not, and why.
    Verdict(bool, String),
    /// Nothing: the next text is to be waited for.
    Nothing,
    /// It is no JSON.
    Malformed(String),
}

/// The verdict in the parts of a relay's message: one that says `OK` has a verdict,
/// and refuses where it holds none.
pub open spec fn verdict_in(parts: (Option<Seq<char>>, Option<bool>, Option<Seq<char>>)) -> Option<
    (bool, Seq<char>),
> {
    if parts.0 == Some("OK"@) {
        Some(
            (
                match parts.1 {
                    Some(b) => b,
                    None => false,
                },
                match parts.2 {
                    Some(s) => s,
                    None => ""@,
                },
            ),
        )
    } else {
        None
    }
}

/// The verdict in the parts of a relay's message.
pub fn ack_verdict(kind: Option<String>, accepted: Option<bool>, reason: Option<String>) -> (v:
    Option<(bool, String)>)
    ensures
        (match v {
            Some((b, s)) => Some((b, s@)),
            None => None,
        }) == verdict_in(
            (
                (match kind {
                    Some(s) => Some(s@),
                    None => None,
                }),
                accepted,
                (match reason {
                    Some(s) => Some(s@),
                    None => None,
                }),
            ),
        ),
{
    match kind {
        Some(kind) => if same_text(kind.as_str(), "OK") {
            let ok: bool = match accepted {
                Some(b) => b,
                None => false,
            };
            let detail: String = match reason {
                Some(s) => s,
                None => "".to_owned(),
            };
            Some((ok, detail))
        } else {
            None
        },
        None => None,
    }
}

/// The kind, the verdict and the reason in a relay's message, which stand at places 0,
/// 2 and 3 of a list; nothing where the text is no JSON.
pub open spec fn ack_parts(text: Seq<char>) -> Option<
    (Option<Seq<char>>, Option<bool>, Option<Seq<char>>),
> {
    json_parts(text, 0, 2, 3)
}

/// Reads what a text from a relay says of an event that was sent to it.
pub fn read_ack(text: &str) -> (ack: Ack)
    ensures
        match ack {
            Ack::Verdict(ok, detail) => ack_parts(text@) matches Some(parts) && verdict_in(
                parts,
            ) == Some((ok, detail@)),
            Ack::Nothing => ack_parts(text@) matches Some(parts) && verdict_in(parts) is None,
            Ack::Malformed(e) => json_read(text@, 0, 2, 3) == Err::<
                (Option<Seq<char>>, Option<bool>, Option<Seq<char>>),
                Seq<char>,
            >(e@),
        },
{
    match read_json_parts(text, 0, 2, 3) {
        Ok((kind, accepted, reason)) => match ack_verdict(kind, accepted, reason) {
            Some((ok, detail)) => Ack::Verdict(ok, detail),
            None => Ack::Nothing,
        },
        Err(e) => Ack::Malformed(e),
    }
}

/// How sending an event to a relay ended.
pub enum PublishOutcome {
    /// The relay gave a verdict.
    Verdict(bool, String),
    /// The relay could not be reached or understood.
    Failed(String),
    /// The relay closed the connection before a verdict.
    Closed,
    /// The relay did not answer in time.
    TimedOut,
}

/// What is reported of how sending an event ended: whether it was accepted, and
/// why. A verdict without a reason says that it was accepted.
pub open spec fn reported(outcome: PublishOutcome) -> (bool, Seq<char>) {
    match outcome {
        PublishOutcome::Verdict(ok, detail) => (
            ok,
            if detail@.len() == 0 {
                "accepted"@
            } else {
                detail@
            },
        ),
        PublishOutcome::Failed(text) => (false, text@),
        PublishOutcome::Closed => (false, "relay closed connection without OK"@),
        PublishOutcome::TimedOut => (false, "timeout"@),
    }
}

/// Reports how sending an event to a relay ended.
pub fn relay_result(relay: &str, outcome: PublishOutcome) -> (r: RelayResult)
    ensures
        r.relay@ == relay@,
        (r.ok, r.detail@) == reported(outcome),
{
    let relay = relay.to_owned();
    match outcome {
        PublishOutcome::Verdict(ok, detail) => {
            if detail.as_str().unicode_len() == 0 {
                RelayResult { relay, ok, detail: "accepted".to_owned() }
            } else {
                RelayResult { relay, ok, detail }
            }
        },
        PublishOutcome::Failed(text) => RelayResult { relay, ok: false, detail: text },
        PublishOutcome::Closed => RelayResult {
            relay,
            ok: false,
            detail: "relay closed connection without OK".to_owned(),
        },
        PublishOutcome::TimedOut => RelayResult { relay, ok: false, detail: "timeout".to_owned() },
    }
}

/// Whether a result reports how carrying a message to a relay may end.
pub open spec fn reports<F: Fn(&String, &String) -> PublishOutcome>(
    send: F,
    relay: String,
    message: String,
    r: RelayResult,
) -> bool {
    &&& r.relay@ == relay@
    &&& exists|outcome: PublishOutcome| #[trigger]
        send.ensures((&relay, &message), outcome) && (r.ok, r.detail@) == reported(outcome)
}

/// Whether a message is one that publishes an event.
pub open spec fn carries_event(message: Seq<char>) -> bool {
    exists|ev: EventView| message == #[trigger] publish_text(ev)
}

/// Whether publishing an event may come to results: each relay is sent the same message,
/// and its result is reported in its place.
pub open spec fn publishes<F: Fn(&String, &String) -> PublishOutcome>(
    send: F,
    event: EventView,
    relays: Seq<String>,
    results: Seq<RelayResult>,
) -> bool {
    &&& results.len() == relays.len()
    &&& exists|message: String|
        {
            &&& #[trigger] message@ == publish_text(event)
            &&& forall|i: int|
                0 <= i < relays.len() ==> reports(send, relays[i], message, #[trigger] results[i])
        }
}

/// Sends an event to relays, one after the other, and reports how each ended.
/// `send` carries one message to one relay.
pub fn publish<F: Fn(&String, &String) -> PublishOutcome>(
    event: &Event,
    relays: &Vec<String>,
    send: F,
) -> (results: Vec<RelayResult>)
    requires
        forall|r: &String, m: &String|
            relays@.contains(*r) && m@ == publish_text(event@) ==> #[trigger] send.requires((r, m)),
    ensures
        publishes(send, event@, relays@, results@),
{
    let message = client_publish_message(event);
    let mut results: Vec<RelayResult> = Vec::new();
    let mut i: usize = 0;
    while i < relays.len()
        invariant
            i <= relays@.len(),
            results@.len() == i,
            message@ == publish_text(event@),
            forall|r: &String, m: &String|
                relays@.contains(*r) && m@ == publish_text(event@) ==> #[trigger] send.requires(
                    (r, m),
                ),
            forall|j: int|
                0 <= j < i ==> reports(send, relays@[j], message, #[trigger] results@[j]),
        decreases relays.len() - i,
    {
        assert(relays@.contains(relays@[i as int]));
        let outcome = send(&relays[i], &message);
        let ghost o = outcome;
        assert(send.ensures((&relays@[i as int], &message), o));
        let result = relay_result(relays[i].as_str(), outcome);
        assert(reports(send, relays@[i as int], message, result));
        results.push(result);
        i = i + 1;
    }
    assert(message@ == publish_text(event@));
    results
}

/// An announcement says what it announces: it is of kind 38831, its content is the announcement in
/// JSON, and its tags hold the name, the endpoint, the price and the offer, with the `d` tag by
/// which it replaces the one before.
pub proof fn law_announcement_tells_terms(
    ev: EventView,
    secret: Seq<u8>,
    a: AnnouncementView,
    created_at: u64,
)
    requires
        announces(ev, secret, a, created_at),
    ensures
        ev.kind == 38831,
        ev.created_at == created_at,
        ev.pubkey == to_hex(schnorr_public(secret)@),
        ev.content == announcement_json(a),
        ev.tags.contains(seq!["d"@, "pivss-service"@]),
        ev.tags.contains(seq!["name"@, a.name]),
        ev.tags.contains(seq!["endpoint"@, a.endpoint]),
        ev.tags.contains(seq!["price_sats_per_mib"@, decimal(a.price_sats_per_mib as nat)]),
        ev.tags.contains(seq!["bolt12"@, a.bolt12_offer]),
        ev.tags.contains(seq!["t"@, "pivss"@]),
        ev.tags.contains(seq!["t"@, "backup"@]),
        ev.tags.len() == 7,
{
    assert(ev.tags[0] == seq!["d"@, "pivss-service"@]);
    assert(ev.tags[1] == seq!["name"@, a.name]);
    assert(ev.tags[2] == seq!["endpoint"@, a.endpoint]);
    assert(ev.tags[3] == seq!["price_sats_per_mib"@, decimal(a.price_sats_per_mib as nat)]);
    assert(ev.tags[4] == seq!["bolt12"@, a.bolt12_offer]);
    assert(ev.tags[5] == seq!["t"@, "pivss"@]);
    assert(ev.tags[6] == seq!["t"@, "backup"@]);
}

/// Two services that are announced in the same words are the same.
pub proof fn law_announcement_determines(
    ev: EventView,
    secret: Seq<u8>,
    a: AnnouncementView,
    b: AnnouncementView,
    created_at: u64,
)
    requires
        announces(ev, secret, a, created_at),
        announces(ev, secret, b, created_at),
    ensures
        a == b,
{
    law_announcement_json_determines(a, b);
}

/// A relay counts as having accepted just where it said so: with `OK` and `true`.
pub proof fn law_accepted_only_where_said(outcome: PublishOutcome)
    ensures
        reported(outcome).0 <==> outcome matches PublishOutcome::Verdict(true, _),
        outcome matches PublishOutcome::Verdict(_, detail) ==> (detail@.len() > 0 ==> reported(
            outcome,
        ).1 == detail@),
        outcome matches PublishOutcome::Failed(text) ==> reported(outcome).1 == text@,
{
}

/// A message of a relay holds a verdict just where it says `OK`; the verdict is that of the
/// message, and a refusal where it has none.
pub proof fn law_verdict_needs_ok(parts: (Option<Seq<char>>, Option<bool>, Option<Seq<char>>))
    ensures
        verdict_in(parts) is Some <==> parts.0 == Some("OK"@),
        verdict_in(parts) matches Some((ok, detail)) ==> {
            &&& ok <==> parts.1 == Some(true)
            &&& parts.2 matches Some(s) ==> detail == s
        },
{
}

/// Every relay is reported on, in its place: with a result that sending the message of the event to
/// it may come to.
pub proof fn law_every_relay_reported<F: Fn(&String, &String) -> PublishOutcome>(
    send: F,
    event: EventView,
    relays: Seq<String>,
    results: Seq<RelayResult>,
    i: int,
)
    requires
        publishes(send, event, relays, results),
        0 <= i < relays.len(),
    ensures
        results.len() == relays.len(),
        results[i].relay@ == relays[i]@,
        exists|message: String, outcome: PublishOutcome|
            {
                &&& message@ == publish_text(event)
                &&& #[trigger] send.ensures((&relays[i], &message), outcome)
                &&& (results[i].ok, results[i].detail@) == reported(outcome)
            },
{
    let message = choose|message: String|
        {
            &&& #[trigger] message@ == publish_text(event)
            &&& forall|i: int|
                0 <= i < relays.len() ==> reports(send, relays[i], message, #[trigger] results[i])
        };
    assert(reports(send, relays[i], message, results[i]));
}

} // verus!
