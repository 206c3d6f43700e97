//! Finding providers: asking nostr relays for announcements, and making a list of
//! the newest valid one of each provider.
use vstd::prelude::*;
use crate::manifest::{optional_text, AnnouncementView, ServiceAnnouncement};
use crate::nostr::{
    client_close_message, client_query_message, close_text, copy_strings, npub_of_hex,
    pubkey_hex_to_npub, query_text, valid_event, verify_event, Event, EventView, KeyErrorView,
    SERVICE_ANNOUNCEMENT_KIND,
};
use crate::order::{
    at_places, descending_order, is_descending_order, law_order_complete, places,
};
use crate::outside::{json_parts, json_read, read_json_parts};
use crate::text::{same_text, texts};

verus! {

/// A provider that was found.
#[derive(Debug)]
pub struct DiscoveredProvider {
    /// Its public key in hexadecimal.
    pub pubkey: String,
    /// Its public key as a bech32 text.
    pub npub: String,
    /// What it announces.
    pub announcement: ServiceAnnouncement,
    /// When it announced it.
    pub created_at: u64,
    /// The relays that had an announcement of it.
    pub seen_on: Vec<String>,
}

/// A [`DiscoveredProvider`] in mathematical terms.
pub struct ProviderView {
    /// See [`DiscoveredProvider::pubkey`].
    pub pubkey: Seq<char>,
    /// See [`DiscoveredProvider::npub`].
    pub npub: Seq<char>,
    /// See [`DiscoveredProvider::announcement`].
    pub announcement: AnnouncementView,
    /// See [`DiscoveredProvider::created_at`].
    pub created_at: u64,
    /// See [`DiscoveredProvider::seen_on`].
    pub seen_on: Seq<Seq<char>>,
}

impl View for DiscoveredProvider {
    type V = ProviderView;

    open spec fn view(&self) -> ProviderView {
        ProviderView {
            pubkey: self.pubkey@,
            npub: self.npub@,
            announcement: self.announcement@,
            created_at: self.created_at,
            seen_on: texts(self.seen_on@),
        }
    }
}

/// The newest valid announcement of an author so far, and where its announcements
/// were seen.
pub struct Sighting {
    /// The announcement.
    pub event: Event,
    /// The relays.
    pub seen_on: Vec<String>,
}

/// A [`Sighting`] in mathematical terms.
#[verifier::ext_equal]
pub struct SightingView {
    /// See [`Sighting::event`].
    pub event: EventView,
    /// See [`Sighting::seen_on`].
    pub seen_on: Seq<Seq<char>>,
}

impl View for Sighting {
    type V = SightingView;

    open spec fn view(&self) -> SightingView {
        SightingView { event: self.event@, seen_on: texts(self.seen_on@) }
    }
}

/// Sightings in mathematical terms.
pub open spec fn sighting_views(v: Seq<Sighting>) -> Seq<SightingView> {
    v.map_values(|s: Sighting| s@)
}

/// Events in mathematical terms.
pub open spec fn event_views(v: Seq<Event>) -> Seq<EventView> {
    v.map_values(|e: Event| e@)
}

/// The place of an author among sightings; the number of them where the author was
/// not seen.
pub open spec fn author_place(s: Seq<SightingView>, pubkey: Seq<char>) -> int
    decreases s.len(),
{
    if s.len() == 0 {
        0
    } else if s[0].event.pubkey == pubkey {
        0
    } else {
        1 + author_place(s.drop_first(), pubkey)
    }
}

/// The sightings once a relay has shown an event. An event that is not valid counts
/// for nothing; one of an author who was seen already replaces the other where it is
/// newer.
pub open spec fn sighted(s: Seq<SightingView>, relay: Seq<char>, ev: EventView) -> Seq<
    SightingView,
> {
    let at = author_place(s, ev.pubkey);
    if !valid_event(ev) {
        s
    } else if at < s.len() {
        s.update(
            at,
            SightingView {
                event: if ev.created_at > s[at].event.created_at {
                    ev
                } else {
                    s[at].event
                },
                seen_on: s[at].seen_on.push(relay),
            },
        )
    } else {
        s.push(SightingView { event: ev, seen_on: seq![relay] })
    }
}

/// The sightings once a relay has shown events, one after the other.
pub open spec fn sighted_all(s: Seq<SightingView>, relay: Seq<char>, evs: Seq<EventView>) -> Seq<
    SightingView,
>
    decreases evs.len(),
{
    if evs.len() == 0 {
        s
    } else {
        sighted(sighted_all(s, relay, evs.drop_last()), relay, evs.last())
    }
}

/// The place of an author among sightings.
fn find_author(s: &Vec<Sighting>, pubkey: &str) -> (at: usize)
    ensures
        at == author_place(sighting_views(s@), pubkey@),
        at <= s@.len(),
{
    let ghost all = sighting_views(s@);
    let mut at: usize = 0;
    assert(all.skip(0) =~= all);
    while at < s.len()
        invariant
            at <= s@.len(),
            all == sighting_views(s@),
            author_place(all, pubkey@) == at + author_place(all.skip(at as int), pubkey@),
        decreases s.len() - at,
    {
        assert(all.skip(at as int)[0] == s@[at as int]@);
        assert(all.skip(at as int).drop_first() =~= all.skip(at + 1));
        if same_text(s[at].event.pubkey.as_str(), pubkey) {
            return at;
        }
        at = at + 1;
    }
    at
}

/// Takes an event that a relay has shown into the sightings.
pub fn sight(s: &mut Vec<Sighting>, relay: &str, ev: Event)
    ensures
        sighting_views(final(s)@) == sighted(sighting_views(old(s)@), relay@, ev@),
{
    if !verify_event(&ev) {
        return;
    }
    let ghost before = sighting_views(s@);
    let at: usize = find_author(s, ev.pubkey.as_str());
    if at < s.len() {
        let mut seen = s.remove(at);
        let ghost was = seen@;
        seen.seen_on.push(relay.to_owned());
        assert(texts(seen.seen_on@) =~= was.seen_on.push(relay@));
        if ev.created_at > seen.event.created_at {
            seen.event = ev;
        }
        s.insert(at, seen);
        assert(sighting_views(s@) =~= sighted(before, relay@, ev@));
    } else {
        let mut seen_on: Vec<String> = Vec::new();
        seen_on.push(relay.to_owned());
        assert(texts(seen_on@) =~= seq![relay@]);
        s.push(Sighting { event: ev, seen_on });
        assert(sighting_views(s@) =~= sighted(before, relay@, ev@));
    }
}

/// Takes the events that a relay has shown into the sightings.
pub fn sight_all(s: &mut Vec<Sighting>, relay: &str, evs: Vec<Event>)
    ensures
        sighting_views(final(s)@) == sighted_all(
            sighting_views(old(s)@),
            relay@,
            event_views(evs@),
        ),
{
    let ghost all = event_views(evs@);
    let mut i: usize = 0;
    assert(all.take(0) =~= Seq::<EventView>::empty());
    while i < evs.len()
        invariant
            i <= evs@.len(),
            all == event_views(evs@),
            sighting_views(s@) == sighted_all(
                sighting_views(old(s)@),
                relay@,
                all.take(i as int),
            ),
        decreases evs.len() - i,
    {
        let ev = evs[i].clone();
        sight(s, relay, ev);
        assert(all.take(i + 1).drop_last() =~= all.take(i as int));
        assert(all.take(i + 1).last() == ev@);
        i = i + 1;
    }
    assert(all.take(i as int) =~= all);
}

/// Whether a reader of announcements may make `out` of a text.
pub open spec fn reads_announcement<D: Fn(&String) -> Option<ServiceAnnouncement>>(
    decode: D,
    content: Seq<char>,
    out: Option<AnnouncementView>,
) -> bool {
    exists|s: String, r: Option<ServiceAnnouncement>|
        {
            &&& s@ == content
            &&& #[trigger] decode.ensures((&s,), r)
            &&& out == announcement_view(r)
        }
}

/// What a reader of announcements returns, in mathematical terms.
pub open spec fn announcement_view(r: Option<ServiceAnnouncement>) -> Option<AnnouncementView> {
    match r {
        Some(a) => Some(a@),
        None => None,
    }
}

/// The provider that a sighting shows, given what was read of its announcement:
/// none where it could not be read or the public key has no bech32 text.
pub open spec fn provider_of(s: SightingView, a: Option<AnnouncementView>) -> Option<ProviderView> {
    match (a, npub_of_hex(s.event.pubkey)) {
        (Some(announcement), Ok(npub)) => Some(
            ProviderView {
                pubkey: s.event.pubkey,
                npub,
                announcement,
                created_at: s.event.created_at,
                seen_on: s.seen_on,
            },
        ),
        _ => None,
    }
}

/// Whether the providers of sightings may be `out`, in the order of the sightings.
pub open spec fn shows<D: Fn(&String) -> Option<ServiceAnnouncement>>(
    decode: D,
    s: Seq<SightingView>,
    out: Seq<ProviderView>,
) -> bool
    decreases s.len(),
{
    if s.len() == 0 {
        out.len() == 0
    } else {
        exists|a: Option<AnnouncementView>|
            {
                &&& #[trigger] reads_announcement(decode, s.last().event.content, a)
                &&& match provider_of(s.last(), a) {
                    Some(p) => out.len() > 0 && out.last() == p && shows(
                        decode,
                        s.drop_last(),
                        out.drop_last(),
                    ),
                    None => shows(decode, s.drop_last(), out),
                }
            }
    }
}

/// Providers in mathematical terms.
pub open spec fn provider_views(v: Seq<DiscoveredProvider>) -> Seq<ProviderView> {
    v.map_values(|p: DiscoveredProvider| p@)
}

/// Numbers that are the larger, the lower the price is.
pub open spec fn cheapness(v: Seq<ProviderView>) -> Seq<u64> {
    v.map_values(|p: ProviderView| (u64::MAX - p.announcement.price_sats_per_mib) as u64)
}

/// Whether a list is the providers of sightings, the cheapest first.
pub open spec fn lists_providers<D: Fn(&String) -> Option<ServiceAnnouncement>>(
    decode: D,
    s: Seq<SightingView>,
    out: Seq<ProviderView>,
) -> bool {
    exists|all: Seq<ProviderView>, p: Seq<int>|
        {
            &&& #[trigger] shows(decode, s, all)
            &&& #[trigger] is_descending_order(cheapness(all), p)
            &&& out == at_places(all, p)
        }
}

/// Makes the list of the providers of sightings, the cheapest first; among equal
/// prices the one that was seen first.
pub fn list_providers<D: Fn(&String) -> Option<ServiceAnnouncement>>(
    sightings: Vec<Sighting>,
    decode: &D,
) -> (out: Vec<DiscoveredProvider>)
    requires
        forall|s: &String| #[trigger] decode.requires((s,)),
    ensures
        lists_providers(*decode, sighting_views(sightings@), provider_views(out@)),
{
    let ghost all = sighting_views(sightings@);
    let mut found: Vec<DiscoveredProvider> = Vec::new();
    let mut keys: Vec<u64> = Vec::new();
    let mut i: usize = 0;
    assert(shows(*decode, all.take(0), provider_views(found@)));
    while i < sightings.len()
        invariant
            i <= sightings@.len(),
            all == sighting_views(sightings@),
            forall|s: &String| #[trigger] decode.requires((s,)),
            keys@ == cheapness(provider_views(found@)),
            shows(*decode, all.take(i as int), provider_views(found@)),
        decreases sightings.len() - i,
    {
        let ghost before = provider_views(found@);
        assert(all.take(i + 1).drop_last() =~= all.take(i as int));
        assert(all.take(i + 1).last() == sightings@[i as int]@);
        let s: &Sighting = &sightings[i];
        let r = decode(&s.event.content);
        let ghost a = announcement_view(r);
        assert(reads_announcement(*decode, s.event.content@, a)) by {
            assert(decode.ensures((&s.event.content,), r));
        }
        assert(reads_announcement(*decode, all.take(i + 1).last().event.content, a));
        match r {
            Some(announcement) => match pubkey_hex_to_npub(s.event.pubkey.as_str()) {
                Ok(npub) => {
                    let price: u64 = announcement.price_sats_per_mib;
                    keys.push(u64::MAX - price);
                    let p = DiscoveredProvider {
                        pubkey: s.event.pubkey.clone(),
                        npub,
                        announcement,
                        created_at: s.event.created_at,
                        seen_on: copy_strings(&s.seen_on),
                    };
                    assert(provider_of(s@, a) == Some(p@));
                    found.push(p);
                    assert(provider_views(found@) =~= before.push(p@));
                    assert(provider_views(found@).drop_last() =~= before);
                    assert(keys@ =~= cheapness(provider_views(found@)));
                },
                Err(_) => {
                    assert(provider_of(s@, a) is None);
                },
            },
            None => {
                assert(provider_of(s@, a) is None);
            },
        }
        i = i + 1;
    }
    assert(all.take(i as int) =~= all);
    let order = descending_order(&keys);
    let mut out: Vec<DiscoveredProvider> = Vec::new();
    let mut j: usize = 0;
    while j < order.len()
        invariant
            j <= order@.len(),
            is_descending_order(keys@, places(order@)),
            keys@.len() == found@.len(),
            out@.len() == j,
            forall|k: int|
                0 <= k < j ==> (#[trigger] out@[k])@ == provider_views(found@)[places(order@)[k]],
        decreases order.len() - j,
    {
        assert(places(order@)[j as int] == order@[j as int]);
        let p: &DiscoveredProvider = &found[order[j]];
        out.push(
            DiscoveredProvider {
                pubkey: p.pubkey.clone(),
                npub: p.npub.clone(),
                announcement: p.announcement.clone(),
                created_at: p.created_at,
                seen_on: copy_strings(&p.seen_on),
            },
        );
        j = j + 1;
    }
    assert(provider_views(out@) =~= at_places(provider_views(found@), places(order@)));
    out
}

/// Whether the answers of relays may be `answers`: the events that each has shown,
/// or nothing where it could not be asked.
pub open spec fn answers_of<Q: Fn(&String) -> Option<Vec<Event>>>(
    query: Q,
    relays: Seq<String>,
    answers: Seq<Option<Seq<EventView>>>,
) -> bool {
    &&& answers.len() == relays.len()
    &&& forall|i: int| 0 <= i < relays.len() ==> answers_with(query, relays[i], #[trigger] answers[i])
}

/// Whether the answer of a relay may be `answer`.
pub open spec fn answers_with<Q: Fn(&String) -> Option<Vec<Event>>>(
    query: Q,
    relay: String,
    answer: Option<Seq<EventView>>,
) -> bool {
    exists|r: Option<Vec<Event>>| #[trigger]
        query.ensures((&relay,), r) && answer == answer_view(r)
}

/// The answer of a relay in mathematical terms.
pub open spec fn answer_view(r: Option<Vec<Event>>) -> Option<Seq<EventView>> {
    match r {
        Some(evs) => Some(event_views(evs@)),
        None => None,
    }
}

/// The sightings of relays, one after the other. A relay that could not be asked is
/// passed over.
pub open spec fn sightings_of(
    relays: Seq<Seq<char>>,
    answers: Seq<Option<Seq<EventView>>>,
) -> Seq<SightingView>
    decreases answers.len(),
{
    if answers.len() == 0 {
        seq![]
    } else {
        let s = sightings_of(relays, answers.drop_last());
        match answers.last() {
            Some(evs) => sighted_all(s, relays[answers.len() - 1], evs),
            None => s,
        }
    }
}

/// Asks relays for announcements, checks the signature of each, and returns the
/// providers with their newest valid announcement, the cheapest first. `query` asks
/// one relay; `decode` reads the content of an announcement.
pub fn discover_providers<
    Q: Fn(&String) -> Option<Vec<Event>>,
    D: Fn(&String) -> Option<ServiceAnnouncement>,
>(relays: &Vec<String>, query: &Q, decode: &D) -> (out: Vec<DiscoveredProvider>)
    requires
        forall|r: &String| relays@.contains(*r) ==> #[trigger] query.requires((r,)),
        forall|s: &String| #[trigger] decode.requires((s,)),
    ensures
        exists|answers: Seq<Option<Seq<EventView>>>|
            {
                &&& #[trigger] answers_of(*query, relays@, answers)
                &&& lists_providers(
                    *decode,
                    sightings_of(texts(relays@), answers),
                    provider_views(out@),
                )
            },
{
    let mut sightings: Vec<Sighting> = Vec::new();
    let ghost mut answers: Seq<Option<Seq<EventView>>> = Seq::empty();
    let mut i: usize = 0;
    assert(sighting_views(sightings@) =~= Seq::<SightingView>::empty());
    while i < relays.len()
        invariant
            i <= relays@.len(),
            forall|r: &String| relays@.contains(*r) ==> #[trigger] query.requires((r,)),
            answers.len() == i,
            forall|j: int| 0 <= j < i ==> answers_with(*query, relays@[j], #[trigger] answers[j]),
            sighting_views(sightings@) == sightings_of(texts(relays@), answers),
        decreases relays.len() - i,
    {
        assert(relays@.contains(relays@[i as int]));
        let r = query(&relays[i]);
        let ghost a = answer_view(r);
        assert(answers_with(*query, relays@[i as int], a)) by {
            assert(query.ensures((&relays@[i as int],), r));
        }
        match r {
            Some(evs) => {
                sight_all(&mut sightings, relays[i].as_str(), evs);
            },
            None => {},
        }
        proof {
            let before = answers;
            answers = answers.push(a);
            assert(answers.drop_last() =~= before);
        }
        i = i + 1;
    }
    assert(answers_of(*query, relays@, answers));
    list_providers(sightings, decode)
}

// ---------------------------------------------------------------------------
// Asking one relay
// ---------------------------------------------------------------------------

/// The name of the subscription.
pub const DISCOVER_SUBSCRIPTION: &'static str = "pivss-discover";

/// The message that asks a relay for announcements.
pub fn discover_message() -> (s: String)
    ensures
        s@ == query_text(DISCOVER_SUBSCRIPTION@, seq![SERVICE_ANNOUNCEMENT_KIND]),
{
    let kinds: [u64; 1] = [SERVICE_ANNOUNCEMENT_KIND];
    assert(kinds@ =~= seq![SERVICE_ANNOUNCEMENT_KIND]);
    client_query_message(DISCOVER_SUBSCRIPTION, &kinds)
}

/// The message that ends the asking.
pub fn discover_close_message() -> (s: String)
    ensures
        s@ == close_text(DISCOVER_SUBSCRIPTION@),
{
    client_close_message(DISCOVER_SUBSCRIPTION)
}

/// Takes a message of a relay into the events that it has shown, given the kind of
/// the message and the event in it, where they could be read. Returns whether the
/// relay has shown all that it has.
pub fn take_frame(events: &mut Vec<Event>, kind: &Option<String>, event: Option<Event>) -> (done:
    bool)
    ensures
        done == (optional_text(*kind) == Some("EOSE"@)),
        event_views(final(events)@) == (match event {
            Some(ev) => if optional_text(*kind) == Some("EVENT"@) {
                event_views(old(events)@).push(ev@)
            } else {
                event_views(old(events)@)
            },
            None => event_views(old(events)@),
        }),
{
    proof {
        reveal_strlit("EVENT");
        reveal_strlit("EOSE");
        assert("EVENT"@.len() != "EOSE"@.len());
    }
    match kind {
        Some(kind) => {
            if same_text(kind.as_str(), "EVENT") {
                match event {
                    Some(ev) => {
                        events.push(ev);
                        assert(event_views(events@) =~= event_views(old(events)@).push(ev@));
                    },
                    None => {},
                }
                false
            } else {
                same_text(kind.as_str(), "EOSE")
            }
        },
        None => false,
    }
}

/// Takes a text from a relay into the events that it has shown, given the event in it,
/// where it could be read. Returns whether the relay has shown all that it has; a text
/// that is no JSON is an error.
pub fn take_text(events: &mut Vec<Event>, text: &str, event: Option<Event>) -> (res: Result<
    bool,
    String,
>)
    ensures
        match json_parts(text@, 0, 1, 2) {
            None => res is Err && event_views(final(events)@) == event_views(old(events)@),
            Some((kind, _, _)) => {
                &&& res == Ok::<bool, String>(kind == Some("EOSE"@))
                &&& event_views(final(events)@) == (match event {
                    Some(ev) => if kind == Some("EVENT"@) {
                        event_views(old(events)@).push(ev@)
                    } else {
                        event_views(old(events)@)
                    },
                    None => event_views(old(events)@),
                })
            },
        },
        res matches Err(e) ==> json_read(text@, 0, 1, 2) == Err::<
            (Option<Seq<char>>, Option<bool>, Option<Seq<char>>),
            Seq<char>,
        >(e@),
{
    match read_json_parts(text, 0, 1, 2) {
        Ok((kind, _, _)) => Ok(take_frame(events, &kind, event)),
        Err(e) => Err(e),
    }
}

// ---------------------------------------------------------------------------
// Laws
// ---------------------------------------------------------------------------

/// Whether every sighting is of a valid event, and no author has two.
pub open spec fn well_sighted(s: Seq<SightingView>) -> bool {
    &&& forall|i: int| 0 <= i < s.len() ==> valid_event(#[trigger] s[i].event)
    &&& forall|i: int, j: int|
        0 <= i < j < s.len() ==> (#[trigger] s[i]).event.pubkey != (#[trigger] s[j]).event.pubkey
}

/// Whether the author of an event has a sighting that is not older than it.
pub open spec fn covers(s: Seq<SightingView>, ev: EventView) -> bool {
    exists|k: int|
        0 <= k < s.len() && (#[trigger] s[k]).event.pubkey == ev.pubkey && s[k].event.created_at
            >= ev.created_at
}

/// Whether a relay has shown an event.
pub open spec fn was_shown(answers: Seq<Option<Seq<EventView>>>, ev: EventView) -> bool {
    exists|i: int|
        0 <= i < answers.len() && ((#[trigger] answers[i]) matches Some(evs) && evs.contains(ev))
}

proof fn lemma_author_place(s: Seq<SightingView>, pubkey: Seq<char>)
    ensures
        0 <= author_place(s, pubkey) <= s.len(),
        author_place(s, pubkey) < s.len() ==> s[author_place(s, pubkey)].event.pubkey == pubkey,
        forall|i: int|
            0 <= i < author_place(s, pubkey) ==> (#[trigger] s[i]).event.pubkey != pubkey,
    decreases s.len(),
{
    if s.len() > 0 && s[0].event.pubkey != pubkey {
        let t = s.drop_first();
        lemma_author_place(t, pubkey);
        assert forall|i: int| 0 <= i < author_place(s, pubkey) implies (
        #[trigger] s[i]).event.pubkey != pubkey by {
            if i > 0 {
                assert(t[i - 1] == s[i]);
            }
        }
    }
}

proof fn lemma_sighted(s: Seq<SightingView>, relay: Seq<char>, ev: EventView)
    requires
        well_sighted(s),
    ensures
        well_sighted(sighted(s, relay, ev)),
        valid_event(ev) ==> covers(sighted(s, relay, ev), ev),
        forall|e: EventView| #[trigger] covers(s, e) ==> covers(sighted(s, relay, ev), e),
        forall|k: int|
            0 <= k < sighted(s, relay, ev).len() ==> {
                let e = (#[trigger] sighted(s, relay, ev)[k]).event;
                e == ev || exists|j: int| 0 <= j < s.len() && (#[trigger] s[j]).event == e
            },
{
    lemma_author_place(s, ev.pubkey);
    let at = author_place(s, ev.pubkey);
    let t = sighted(s, relay, ev);
    if valid_event(ev) {
        assert(t[at].event.pubkey == ev.pubkey && t[at].event.created_at >= ev.created_at);
    }
    assert forall|e: EventView| #[trigger] covers(s, e) implies covers(t, e) by {
        let k = choose|k: int|
            0 <= k < s.len() && (#[trigger] s[k]).event.pubkey == e.pubkey
                && s[k].event.created_at >= e.created_at;
        assert(t[k].event.pubkey == e.pubkey && t[k].event.created_at >= e.created_at);
    }
    assert forall|k: int| 0 <= k < t.len() implies {
        let e = (#[trigger] t[k]).event;
        e == ev || exists|j: int| 0 <= j < s.len() && (#[trigger] s[j]).event == e
    } by {
        if k < s.len() && t[k].event != ev {
            assert(s[k].event == t[k].event);
        }
    }
}

proof fn lemma_sighted_all(s: Seq<SightingView>, relay: Seq<char>, evs: Seq<EventView>)
    requires
        well_sighted(s),
    ensures
        well_sighted(sighted_all(s, relay, evs)),
        forall|e: EventView| #[trigger] covers(s, e) ==> covers(sighted_all(s, relay, evs), e),
        forall|e: EventView| #[trigger]
            evs.contains(e) && valid_event(e) ==> covers(sighted_all(s, relay, evs), e),
        forall|k: int|
            0 <= k < sighted_all(s, relay, evs).len() ==> {
                let e = (#[trigger] sighted_all(s, relay, evs)[k]).event;
                evs.contains(e) || exists|j: int| 0 <= j < s.len() && (#[trigger] s[j]).event == e
            },
    decreases evs.len(),
{
    if evs.len() > 0 {
        let rest = evs.drop_last();
        lemma_sighted_all(s, relay, rest);
        let mid = sighted_all(s, relay, rest);
        lemma_sighted(mid, relay, evs.last());
        let t = sighted_all(s, relay, evs);
        assert forall|e: EventView| #[trigger] evs.contains(e) && valid_event(e) implies covers(
            t,
            e,
        ) by {
            let i = choose|i: int| 0 <= i < evs.len() && evs[i] == e;
            if i < rest.len() {
                assert(rest[i] == e);
                assert(rest.contains(e));
                assert(covers(mid, e));
            }
        }
        assert forall|k: int| 0 <= k < t.len() implies {
            let e = (#[trigger] t[k]).event;
            evs.contains(e) || exists|j: int| 0 <= j < s.len() && (#[trigger] s[j]).event == e
        } by {
            let e = t[k].event;
            if e == evs.last() {
                assert(evs[evs.len() - 1] == e);
            } else {
                let j = choose|j: int| 0 <= j < mid.len() && (#[trigger] mid[j]).event == e;
                assert(mid[j].event == e);
                if rest.contains(e) {
                    let i = choose|i: int| 0 <= i < rest.len() && rest[i] == e;
                    assert(evs[i] == e);
                }
            }
        }
    }
}

/// A forged announcement never shows up, no provider shows up twice, and what shows
/// up was shown by a relay.
pub proof fn law_sightings_valid(relays: Seq<Seq<char>>, answers: Seq<Option<Seq<EventView>>>)
    ensures
        well_sighted(sightings_of(relays, answers)),
        forall|k: int|
            0 <= k < sightings_of(relays, answers).len() ==> was_shown(
                answers,
                (#[trigger] sightings_of(relays, answers)[k]).event,
            ),
    decreases answers.len(),
{
    if answers.len() > 0 {
        let rest = answers.drop_last();
        law_sightings_valid(relays, rest);
        let s = sightings_of(relays, rest);
        let t = sightings_of(relays, answers);
        if let Some(evs) = answers.last() {
            lemma_sighted_all(s, relays[answers.len() - 1], evs);
        }
        assert forall|k: int| 0 <= k < t.len() implies was_shown(
            answers,
            (#[trigger] t[k]).event,
        ) by {
            let e = t[k].event;
            let last = answers[answers.len() - 1];
            if last matches Some(evs) && evs.contains(e) {
                assert(answers[answers.len() - 1] == last);
            } else {
                let j = choose|j: int| 0 <= j < s.len() && (#[trigger] s[j]).event == e;
                assert(last is None ==> s[k].event == e);
                assert(was_shown(rest, e));
                let i = choose|i: int|
                    0 <= i < rest.len() && ((#[trigger] rest[i]) matches Some(evs)
                        && evs.contains(e));
                assert(answers[i] == rest[i]);
            }
        }
    }
}

/// The newest announcement counts: of every valid announcement that a relay has
/// shown, the author shows up, with that announcement or one that is not older.
pub proof fn law_newest_announcement_kept(
    relays: Seq<Seq<char>>,
    answers: Seq<Option<Seq<EventView>>>,
    ev: EventView,
)
    requires
        valid_event(ev),
        was_shown(answers, ev),
    ensures
        covers(sightings_of(relays, answers), ev),
    decreases answers.len(),
{
    let rest = answers.drop_last();
    let s = sightings_of(relays, rest);
    law_sightings_valid(relays, rest);
    let i = choose|i: int|
        0 <= i < answers.len() && ((#[trigger] answers[i]) matches Some(evs) && evs.contains(ev));
    if let Some(evs) = answers.last() {
        lemma_sighted_all(s, relays[answers.len() - 1], evs);
    }
    if i < rest.len() {
        assert(rest[i] == answers[i]);
        law_newest_announcement_kept(relays, rest, ev);
    }
}

/// The list of providers goes from the cheapest to the dearest.
pub proof fn law_cheapest_first<D: Fn(&String) -> Option<ServiceAnnouncement>>(
    decode: D,
    s: Seq<SightingView>,
    out: Seq<ProviderView>,
    i: int,
    j: int,
)
    requires
        lists_providers(decode, s, out),
        0 <= i < j < out.len(),
    ensures
        out[i].announcement.price_sats_per_mib <= out[j].announcement.price_sats_per_mib,
{
    let (all, p) = choose|all: Seq<ProviderView>, p: Seq<int>|
        {
            &&& #[trigger] shows(decode, s, all)
            &&& #[trigger] is_descending_order(cheapness(all), p)
            &&& out == at_places(all, p)
        };
    let keys = cheapness(all);
    assert(0 <= p[i] < keys.len() && 0 <= p[j] < keys.len());
    assert(keys[p[i]] >= keys[p[j]]);
    assert(out[i] == all[p[i]] && out[j] == all[p[j]]);
}

/// Whether a provider is the one that a sighting shows.
pub open spec fn is_provider_of(p: ProviderView, s: SightingView) -> bool {
    &&& p.pubkey == s.event.pubkey
    &&& npub_of_hex(s.event.pubkey) == Ok::<Seq<char>, KeyErrorView>(p.npub)
    &&& p.created_at == s.event.created_at
    &&& p.seen_on == s.seen_on
}

/// Whether a sighting has a provider in a list, with what was read of its announcement.
pub open spec fn is_listed<D: Fn(&String) -> Option<ServiceAnnouncement>>(
    decode: D,
    s: SightingView,
    out: Seq<ProviderView>,
) -> bool {
    exists|i: int|
        {
            &&& 0 <= i < out.len()
            &&& is_provider_of(#[trigger] out[i], s)
            &&& reads_announcement(decode, s.event.content, Some(out[i].announcement))
        }
}

/// Whether the announcement of a sighting can be read.
pub open spec fn is_readable<D: Fn(&String) -> Option<ServiceAnnouncement>>(
    decode: D,
    s: SightingView,
) -> bool {
    forall|a: Option<AnnouncementView>| #[trigger]
        reads_announcement(decode, s.event.content, a) ==> a is Some
}

proof fn lemma_shows_readable<D: Fn(&String) -> Option<ServiceAnnouncement>>(
    decode: D,
    s: Seq<SightingView>,
    out: Seq<ProviderView>,
    k: int,
)
    requires
        shows(decode, s, out),
        0 <= k < s.len(),
        valid_event(s[k].event),
        is_readable(decode, s[k]),
    ensures
        is_listed(decode, s[k], out),
    decreases s.len(),
{
    let a = choose|a: Option<AnnouncementView>|
        {
            &&& #[trigger] reads_announcement(decode, s.last().event.content, a)
            &&& match provider_of(s.last(), a) {
                Some(p) => out.len() > 0 && out.last() == p && shows(
                    decode,
                    s.drop_last(),
                    out.drop_last(),
                ),
                None => shows(decode, s.drop_last(), out),
            }
        };
    if k == s.len() - 1 {
        assert(npub_of_hex(s[k].event.pubkey) is Ok);
        assert(is_provider_of(out[out.len() - 1], s[k]));
    } else {
        assert(s.drop_last()[k] == s[k]);
        match provider_of(s.last(), a) {
            Some(_) => {
                lemma_shows_readable(decode, s.drop_last(), out.drop_last(), k);
                let i = choose|i: int|
                    {
                        &&& 0 <= i < out.drop_last().len()
                        &&& is_provider_of(#[trigger] out.drop_last()[i], s[k])
                        &&& reads_announcement(
                            decode,
                            s[k].event.content,
                            Some(out.drop_last()[i].announcement),
                        )
                    };
                assert(out[i] == out.drop_last()[i]);
            },
            None => {
                lemma_shows_readable(decode, s.drop_last(), out, k);
            },
        }
    }
}

proof fn lemma_shows_sightings<D: Fn(&String) -> Option<ServiceAnnouncement>>(
    decode: D,
    s: Seq<SightingView>,
    out: Seq<ProviderView>,
)
    requires
        shows(decode, s, out),
        well_sighted(s),
    ensures
        forall|i: int|
            0 <= i < out.len() ==> exists|k: int|
                0 <= k < s.len() && is_provider_of(#[trigger] out[i], #[trigger] s[k]),
        forall|i: int, j: int|
            0 <= i < j < out.len() ==> (#[trigger] out[i]).pubkey != (#[trigger] out[j]).pubkey,
    decreases s.len(),
{
    if s.len() > 0 {
        let rest = s.drop_last();
        let a = choose|a: Option<AnnouncementView>|
            {
                &&& #[trigger] reads_announcement(decode, s.last().event.content, a)
                &&& match provider_of(s.last(), a) {
                    Some(p) => out.len() > 0 && out.last() == p && shows(
                        decode,
                        s.drop_last(),
                        out.drop_last(),
                    ),
                    None => shows(decode, s.drop_last(), out),
                }
            };
        assert forall|i: int, j: int| 0 <= i < j < rest.len() implies (
        #[trigger] rest[i]).event.pubkey != (#[trigger] rest[j]).event.pubkey by {
            assert(s[i].event.pubkey != s[j].event.pubkey);
        }
        assert forall|i: int| 0 <= i < rest.len() implies valid_event(
            #[trigger] rest[i].event,
        ) by {
            assert(valid_event(s[i].event));
        }
        let front = if provider_of(s.last(), a) is Some {
            out.drop_last()
        } else {
            out
        };
        lemma_shows_sightings(decode, rest, front);
        assert forall|i: int| 0 <= i < out.len() implies exists|k: int|
            0 <= k < s.len() && is_provider_of(#[trigger] out[i], #[trigger] s[k]) by {
            if i < front.len() {
                assert(front[i] == out[i]);
                let k = choose|k: int|
                    0 <= k < rest.len() && is_provider_of(front[i], #[trigger] rest[k]);
                assert(rest[k] == s[k]);
                assert(is_provider_of(out[i], s[k]));
            } else {
                assert(is_provider_of(out[i], s[s.len() - 1]));
            }
        }
        assert forall|i: int, j: int| 0 <= i < j < out.len() implies (
        #[trigger] out[i]).pubkey != (#[trigger] out[j]).pubkey by {
            assert(front[i] == out[i]);
            if j < front.len() {
                assert(front[j] == out[j]);
            } else {
                let k = choose|k: int|
                    0 <= k < rest.len() && is_provider_of(front[i], #[trigger] rest[k]);
                assert(rest[k] == s[k]);
                assert(s[k].event.pubkey != s[s.len() - 1].event.pubkey);
            }
        }
    }
}

/// Every author of a valid announcement that can be read is listed, with the newest of
/// them and the relays that it was seen on.
pub proof fn law_every_author_listed<D: Fn(&String) -> Option<ServiceAnnouncement>>(
    decode: D,
    s: Seq<SightingView>,
    out: Seq<ProviderView>,
    k: int,
)
    requires
        well_sighted(s),
        lists_providers(decode, s, out),
        0 <= k < s.len(),
        is_readable(decode, s[k]),
    ensures
        is_listed(decode, s[k], out),
{
    let (all, p) = choose|all: Seq<ProviderView>, p: Seq<int>|
        {
            &&& #[trigger] shows(decode, s, all)
            &&& #[trigger] is_descending_order(cheapness(all), p)
            &&& out == at_places(all, p)
        };
    lemma_shows_readable(decode, s, all, k);
    law_order_complete(cheapness(all), p);
    let i = choose|i: int|
        {
            &&& 0 <= i < all.len()
            &&& is_provider_of(#[trigger] all[i], s[k])
            &&& reads_announcement(decode, s[k].event.content, Some(all[i].announcement))
        };
    assert(p.contains(i));
    let j = choose|j: int| 0 <= j < p.len() && p[j] == i;
    assert(out[j] == all[i]);
}

/// Who is listed was sighted, and nobody is listed twice.
pub proof fn law_listed_once<D: Fn(&String) -> Option<ServiceAnnouncement>>(
    decode: D,
    s: Seq<SightingView>,
    out: Seq<ProviderView>,
)
    requires
        well_sighted(s),
        lists_providers(decode, s, out),
    ensures
        forall|i: int|
            0 <= i < out.len() ==> exists|k: int|
                0 <= k < s.len() && is_provider_of(#[trigger] out[i], #[trigger] s[k]),
        forall|i: int, j: int|
            0 <= i < j < out.len() ==> (#[trigger] out[i]).pubkey != (#[trigger] out[j]).pubkey,
{
    let (all, p) = choose|all: Seq<ProviderView>, p: Seq<int>|
        {
            &&& #[trigger] shows(decode, s, all)
            &&& #[trigger] is_descending_order(cheapness(all), p)
            &&& out == at_places(all, p)
        };
    lemma_shows_sightings(decode, s, all);
    law_order_complete(cheapness(all), p);
    assert forall|i: int| 0 <= i < out.len() implies exists|k: int|
        0 <= k < s.len() && is_provider_of(#[trigger] out[i], #[trigger] s[k]) by {
        assert(0 <= p[i] < cheapness(all).len());
        assert(out[i] == all[p[i]]);
        let k = choose|k: int|
            0 <= k < s.len() && is_provider_of(all[p[i]], #[trigger] s[k]);
        assert(is_provider_of(out[i], s[k]));
    }
    assert forall|i: int, j: int| 0 <= i < j < out.len() implies (#[trigger] out[i]).pubkey != (
    #[trigger] out[j]).pubkey by {
        assert(0 <= p[i] < cheapness(all).len() && 0 <= p[j] < cheapness(all).len());
        assert(p[i] != p[j]);
        assert(out[i] == all[p[i]] && out[j] == all[p[j]]);
        if p[i] < p[j] {
            assert(all[p[i]].pubkey != all[p[j]].pubkey);
        } else {
            assert(all[p[j]].pubkey != all[p[i]].pubkey);
        }
    }
}

/// Whether a relay has shown a valid event of an author.
pub open spec fn showed(
    relays: Seq<Seq<char>>,
    answers: Seq<Option<Seq<EventView>>>,
    relay: Seq<char>,
    pubkey: Seq<char>,
) -> bool {
    exists|i: int|
        0 <= i < answers.len() && relays[i] == relay && names_author(#[trigger] answers[i], pubkey)
}

/// Whether the answer of a relay holds a valid event of an author.
pub open spec fn names_author(answer: Option<Seq<EventView>>, pubkey: Seq<char>) -> bool {
    answer is Some && exists|ev: EventView|
        {
            &&& #[trigger] answer->0.contains(ev)
            &&& valid_event(ev)
            &&& ev.pubkey == pubkey
        }
}

/// Whether every relay that a sighting names is one of those that a predicate allows.
pub open spec fn seen_only_on(s: Seq<SightingView>, allowed: spec_fn(Seq<char>, Seq<char>) -> bool)
    -> bool {
    forall|k: int, m: int|
        0 <= k < s.len() && 0 <= m < s[k].seen_on.len() ==> allowed(
            #[trigger] s[k].seen_on[m],
            s[k].event.pubkey,
        )
}

proof fn lemma_seen_only_on(
    s: Seq<SightingView>,
    relay: Seq<char>,
    evs: Seq<EventView>,
    allowed: spec_fn(Seq<char>, Seq<char>) -> bool,
)
    requires
        seen_only_on(s, allowed),
        forall|ev: EventView| #[trigger]
            evs.contains(ev) && valid_event(ev) ==> allowed(relay, ev.pubkey),
    ensures
        seen_only_on(sighted_all(s, relay, evs), allowed),
    decreases evs.len(),
{
    if evs.len() > 0 {
        let rest = evs.drop_last();
        assert forall|ev: EventView| #[trigger]
            rest.contains(ev) && valid_event(ev) implies allowed(relay, ev.pubkey) by {
            let i = choose|i: int| 0 <= i < rest.len() && rest[i] == ev;
            assert(evs[i] == ev);
            assert(evs.contains(ev));
        }
        lemma_seen_only_on(s, relay, rest, allowed);
        let mid = sighted_all(s, relay, rest);
        let ev = evs.last();
        let t = sighted_all(s, relay, evs);
        lemma_author_place(mid, ev.pubkey);
        let at = author_place(mid, ev.pubkey);
        if valid_event(ev) {
            assert(evs[evs.len() - 1] == ev);
            assert(evs.contains(ev));
            assert forall|k: int, m: int|
                0 <= k < t.len() && 0 <= m < t[k].seen_on.len() implies allowed(
                #[trigger] t[k].seen_on[m],
                t[k].event.pubkey,
            ) by {
                if k < mid.len() && m < mid[k].seen_on.len() {
                    assert(t[k].seen_on[m] == mid[k].seen_on[m]);
                    assert(t[k].event.pubkey == mid[k].event.pubkey);
                } else {
                    assert(t[k].seen_on[m] == relay);
                    assert(t[k].event.pubkey == ev.pubkey);
                }
            }
        }
    }
}

/// A sighting names only relays that have shown a valid announcement of its author.
pub proof fn law_seen_on_relays_that_showed(
    relays: Seq<Seq<char>>,
    answers: Seq<Option<Seq<EventView>>>,
)
    requires
        answers.len() <= relays.len(),
    ensures
        forall|k: int, m: int|
            0 <= k < sightings_of(relays, answers).len() && 0 <= m < sightings_of(
                relays,
                answers,
            )[k].seen_on.len() ==> showed(
                relays,
                answers,
                #[trigger] sightings_of(relays, answers)[k].seen_on[m],
                sightings_of(relays, answers)[k].event.pubkey,
            ),
    decreases answers.len(),
{
    let allowed = |relay: Seq<char>, pubkey: Seq<char>| showed(relays, answers, relay, pubkey);
    if answers.len() > 0 {
        let rest = answers.drop_last();
        let s = sightings_of(relays, rest);
        law_seen_on_relays_that_showed(relays, rest);
        assert(seen_only_on(s, allowed)) by {
            assert forall|k: int, m: int|
                0 <= k < s.len() && 0 <= m < s[k].seen_on.len() implies allowed(
                #[trigger] s[k].seen_on[m],
                s[k].event.pubkey,
            ) by {
                let relay = s[k].seen_on[m];
                let pubkey = s[k].event.pubkey;
                assert(showed(relays, rest, relay, pubkey));
                let i = choose|i: int|
                    0 <= i < rest.len() && relays[i] == relay && names_author(
                        #[trigger] rest[i],
                        pubkey,
                    );
                assert(answers[i] == rest[i]);
            }
        }
        if let Some(evs) = answers.last() {
            let relay = relays[answers.len() - 1];
            assert forall|ev: EventView| #[trigger]
                evs.contains(ev) && valid_event(ev) implies allowed(relay, ev.pubkey) by {
                assert(answers[answers.len() - 1]->0.contains(ev));
                assert(names_author(answers[answers.len() - 1], ev.pubkey));
            }
            lemma_seen_only_on(s, relay, evs, allowed);
        }
        let t = sightings_of(relays, answers);
        assert(seen_only_on(t, allowed));
        assert forall|k: int, m: int|
            0 <= k < t.len() && 0 <= m < t[k].seen_on.len() implies showed(
            relays,
            answers,
            #[trigger] t[k].seen_on[m],
            t[k].event.pubkey,
        ) by {
            assert(allowed(t[k].seen_on[m], t[k].event.pubkey));
        }
    }
}

/// Of every valid announcement that a relay has shown, the author is listed, with that
/// announcement or one that is not older, where the announcements can be read.
pub proof fn law_shown_author_listed<D: Fn(&String) -> Option<ServiceAnnouncement>>(
    decode: D,
    relays: Seq<Seq<char>>,
    answers: Seq<Option<Seq<EventView>>>,
    out: Seq<ProviderView>,
    ev: EventView,
)
    requires
        lists_providers(decode, sightings_of(relays, answers), out),
        valid_event(ev),
        was_shown(answers, ev),
        forall|e: EventView, a: Option<AnnouncementView>| #[trigger]
            was_shown(answers, e) && valid_event(e) && #[trigger] reads_announcement(
                decode,
                e.content,
                a,
            ) ==> a is Some,
    ensures
        exists|i: int|
            0 <= i < out.len() && (#[trigger] out[i]).pubkey == ev.pubkey && out[i].created_at
                >= ev.created_at,
{
    let s = sightings_of(relays, answers);
    law_sightings_valid(relays, answers);
    law_newest_announcement_kept(relays, answers, ev);
    let k = choose|k: int|
        0 <= k < s.len() && (#[trigger] s[k]).event.pubkey == ev.pubkey && s[k].event.created_at
            >= ev.created_at;
    assert(was_shown(answers, s[k].event));
    assert(is_readable(decode, s[k]));
    law_every_author_listed(decode, s, out, k);
    let i = choose|i: int|
        {
            &&& 0 <= i < out.len()
            &&& is_provider_of(#[trigger] out[i], s[k])
            &&& reads_announcement(decode, s[k].event.content, Some(out[i].announcement))
        };
    assert(out[i].pubkey == ev.pubkey);
}

/// The valid events of an author among events, in their order.
pub open spec fn events_by(evs: Seq<EventView>, pubkey: Seq<char>) -> Seq<EventView>
    decreases evs.len(),
{
    if evs.len() == 0 {
        seq![]
    } else if valid_event(evs.last()) && evs.last().pubkey == pubkey {
        events_by(evs.drop_last(), pubkey).push(evs.last())
    } else {
        events_by(evs.drop_last(), pubkey)
    }
}

/// The valid events of an author that relays have shown, one relay after the other.
pub open spec fn shown_events(answers: Seq<Option<Seq<EventView>>>, pubkey: Seq<char>) -> Seq<
    EventView,
>
    decreases answers.len(),
{
    if answers.len() == 0 {
        seq![]
    } else {
        shown_events(answers.drop_last(), pubkey) + (match answers.last() {
            Some(evs) => events_by(evs, pubkey),
            None => seq![],
        })
    }
}

/// The relays that have shown valid events of an author, one after the other, each once for
/// every such event.
pub open spec fn shown_on(
    relays: Seq<Seq<char>>,
    answers: Seq<Option<Seq<EventView>>>,
    pubkey: Seq<char>,
) -> Seq<Seq<char>>
    decreases answers.len(),
{
    if answers.len() == 0 {
        seq![]
    } else {
        let relay = relays[answers.len() - 1];
        shown_on(relays, answers.drop_last(), pubkey) + (match answers.last() {
            Some(evs) => Seq::new(events_by(evs, pubkey).len(), |i: int| relay),
            None => seq![],
        })
    }
}

/// Whether an event is the first among the newest of events.
pub open spec fn is_first_newest(ev: EventView, evs: Seq<EventView>) -> bool {
    exists|j: int|
        {
            &&& 0 <= j < evs.len()
            &&& #[trigger] evs[j] == ev
            &&& forall|i: int|
                0 <= i < evs.len() ==> (#[trigger] evs[i]).created_at <= ev.created_at && (i < j
                    ==> evs[i].created_at < ev.created_at)
        }
}

/// Whether sightings say of an author what events and relays do: nothing where there are
/// none, or else the first among the newest events, and the relays.
pub open spec fn says_of(
    s: Seq<SightingView>,
    pubkey: Seq<char>,
    evs: Seq<EventView>,
    on: Seq<Seq<char>>,
) -> bool {
    &&& (exists|k: int| 0 <= k < s.len() && (#[trigger] s[k]).event.pubkey == pubkey) <==> evs.len()
        > 0
    &&& forall|k: int|
        0 <= k < s.len() && (#[trigger] s[k]).event.pubkey == pubkey ==> s[k].seen_on == on
            && is_first_newest(s[k].event, evs)
    &&& on.len() == evs.len()
}

proof fn lemma_first_newest_pushed(ev: EventView, evs: Seq<EventView>, next: EventView)
    requires
        is_first_newest(ev, evs),
    ensures
        is_first_newest(
            if next.created_at > ev.created_at {
                next
            } else {
                ev
            },
            evs.push(next),
        ),
{
    let j = choose|j: int|
        {
            &&& 0 <= j < evs.len()
            &&& #[trigger] evs[j] == ev
            &&& forall|i: int|
                0 <= i < evs.len() ==> (#[trigger] evs[i]).created_at <= ev.created_at && (i < j
                    ==> evs[i].created_at < ev.created_at)
        };
    let all = evs.push(next);
    assert forall|i: int| 0 <= i < evs.len() implies (#[trigger] all[i]).created_at
        <= ev.created_at && (i < j ==> all[i].created_at < ev.created_at) by {
        assert(all[i] == evs[i]);
    }
    if next.created_at > ev.created_at {
        assert(all[evs.len() as int] == next);
    } else {
        assert(all[j] == ev);
    }
}

proof fn lemma_sighted_says(
    s: Seq<SightingView>,
    relay: Seq<char>,
    ev: EventView,
    pubkey: Seq<char>,
    evs: Seq<EventView>,
    on: Seq<Seq<char>>,
)
    requires
        well_sighted(s),
        says_of(s, pubkey, evs, on),
    ensures
        valid_event(ev) && ev.pubkey == pubkey ==> says_of(
            sighted(s, relay, ev),
            pubkey,
            evs.push(ev),
            on.push(relay),
        ),
        !(valid_event(ev) && ev.pubkey == pubkey) ==> says_of(
            sighted(s, relay, ev),
            pubkey,
            evs,
            on,
        ),
{
    lemma_author_place(s, ev.pubkey);
    lemma_sighted(s, relay, ev);
    let at = author_place(s, ev.pubkey);
    let t = sighted(s, relay, ev);
    if valid_event(ev) && ev.pubkey == pubkey {
        assert(t[at].event.pubkey == pubkey);
        if at < s.len() {
            assert(s[at].event.pubkey == pubkey);
            lemma_first_newest_pushed(s[at].event, evs, ev);
        } else {
            assert(evs.len() == 0);
            assert(evs.push(ev)[0] == ev);
            assert(on.push(relay) =~= seq![relay]);
        }
        assert forall|k: int| 0 <= k < t.len() && (#[trigger] t[k]).event.pubkey
            == pubkey implies t[k].seen_on == on.push(relay) && is_first_newest(
            t[k].event,
            evs.push(ev),
        ) by {
            assert(t[k].event.pubkey == t[at].event.pubkey);
            if k < at {
                assert(t[k].event.pubkey != t[at].event.pubkey);
            } else if at < k {
                assert(t[at].event.pubkey != t[k].event.pubkey);
            }
        }
    } else {
        assert forall|k: int| 0 <= k < t.len() && (#[trigger] t[k]).event.pubkey
            == pubkey implies t[k].seen_on == on && is_first_newest(t[k].event, evs) by {
            assert(k < s.len() && t[k] == s[k]);
        }
        if evs.len() > 0 {
            let k = choose|k: int| 0 <= k < s.len() && (#[trigger] s[k]).event.pubkey == pubkey;
            assert(t[k].event.pubkey == pubkey);
        }
    }
}

proof fn lemma_sighted_all_says(
    s: Seq<SightingView>,
    relay: Seq<char>,
    shown: Seq<EventView>,
    pubkey: Seq<char>,
    evs: Seq<EventView>,
    on: Seq<Seq<char>>,
)
    requires
        well_sighted(s),
        says_of(s, pubkey, evs, on),
    ensures
        says_of(
            sighted_all(s, relay, shown),
            pubkey,
            evs + events_by(shown, pubkey),
            on + Seq::new(events_by(shown, pubkey).len(), |i: int| relay),
        ),
    decreases shown.len(),
{
    let by = events_by(shown, pubkey);
    let now = on + Seq::new(by.len(), |i: int| relay);
    if shown.len() == 0 {
        assert(evs + by =~= evs);
        assert(now =~= on);
    } else {
        let rest = shown.drop_last();
        let ev = shown.last();
        let front = events_by(rest, pubkey);
        let then = on + Seq::new(front.len(), |i: int| relay);
        lemma_sighted_all_says(s, relay, rest, pubkey, evs, on);
        lemma_sighted_all(s, relay, rest);
        lemma_sighted_says(sighted_all(s, relay, rest), relay, ev, pubkey, evs + front, then);
        if valid_event(ev) && ev.pubkey == pubkey {
            assert(evs + by =~= (evs + front).push(ev));
            assert(now =~= then.push(relay));
        }
    }
}

/// A sighting tells all that was shown of its author: every author of a valid event that a
/// relay has shown has a sighting, with the first among the newest of these events, and with
/// each relay once for every valid event of the author that it has shown, in their order.
/// Nobody else has one.
pub proof fn law_sighting_tells_all(
    relays: Seq<Seq<char>>,
    answers: Seq<Option<Seq<EventView>>>,
    pubkey: Seq<char>,
)
    requires
        answers.len() <= relays.len(),
    ensures
        (exists|k: int|
            0 <= k < sightings_of(relays, answers).len() && (#[trigger] sightings_of(
                relays,
                answers,
            )[k]).event.pubkey == pubkey) <==> shown_events(answers, pubkey).len() > 0,
        forall|k: int|
            0 <= k < sightings_of(relays, answers).len() && (#[trigger] sightings_of(
                relays,
                answers,
            )[k]).event.pubkey == pubkey ==> {
                let s = sightings_of(relays, answers)[k];
                &&& s.seen_on == shown_on(relays, answers, pubkey)
                &&& is_first_newest(s.event, shown_events(answers, pubkey))
            },
        shown_on(relays, answers, pubkey).len() == shown_events(answers, pubkey).len(),
{
    lemma_sightings_say(relays, answers, pubkey);
}

proof fn lemma_sightings_say(
    relays: Seq<Seq<char>>,
    answers: Seq<Option<Seq<EventView>>>,
    pubkey: Seq<char>,
)
    requires
        answers.len() <= relays.len(),
    ensures
        says_of(
            sightings_of(relays, answers),
            pubkey,
            shown_events(answers, pubkey),
            shown_on(relays, answers, pubkey),
        ),
    decreases answers.len(),
{
    if answers.len() > 0 {
        let rest = answers.drop_last();
        lemma_sightings_say(relays, rest, pubkey);
        law_sightings_valid(relays, rest);
        let (evs, on) = (shown_events(rest, pubkey), shown_on(relays, rest, pubkey));
        match answers.last() {
            Some(shown) => {
                let relay = relays[answers.len() - 1];
                lemma_sighted_all_says(
                    sightings_of(relays, rest),
                    relay,
                    shown,
                    pubkey,
                    evs,
                    on,
                );
                assert(shown_on(relays, answers, pubkey) =~= on + Seq::new(
                    events_by(shown, pubkey).len(),
                    |i: int| relay,
                ));
            },
            None => {
                assert(shown_events(answers, pubkey) =~= evs);
                assert(shown_on(relays, answers, pubkey) =~= on);
            },
        }
    }
}

proof fn lemma_event_counted(evs: Seq<EventView>, ev: EventView)
    requires
        evs.contains(ev),
        valid_event(ev),
    ensures
        events_by(evs, ev.pubkey).len() > 0,
    decreases evs.len(),
{
    let i = choose|i: int| 0 <= i < evs.len() && evs[i] == ev;
    if i < evs.len() - 1 {
        assert(evs.drop_last()[i] == ev);
        lemma_event_counted(evs.drop_last(), ev);
    }
}

proof fn lemma_shown_on_contains(
    relays: Seq<Seq<char>>,
    answers: Seq<Option<Seq<EventView>>>,
    relay: Seq<char>,
    pubkey: Seq<char>,
)
    requires
        answers.len() <= relays.len(),
        showed(relays, answers, relay, pubkey),
    ensures
        shown_on(relays, answers, pubkey).contains(relay),
    decreases answers.len(),
{
    let i = choose|i: int|
        0 <= i < answers.len() && relays[i] == relay && names_author(#[trigger] answers[i], pubkey);
    let rest = answers.drop_last();
    let before = shown_on(relays, rest, pubkey);
    let all = shown_on(relays, answers, pubkey);
    if i < rest.len() {
        assert(rest[i] == answers[i]);
        lemma_shown_on_contains(relays, rest, relay, pubkey);
        let k = choose|k: int| 0 <= k < before.len() && before[k] == relay;
        assert(all[k] == relay);
    } else {
        let ev = choose|ev: EventView|
            {
                &&& #[trigger] answers[i]->0.contains(ev)
                &&& valid_event(ev)
                &&& ev.pubkey == pubkey
            };
        lemma_event_counted(answers[i]->0, ev);
        assert(all[before.len() as int] == relay);
    }
}

/// Every relay that has shown a valid event of an author is named by the sighting of that
/// author.
pub proof fn law_relays_that_showed_are_named(
    relays: Seq<Seq<char>>,
    answers: Seq<Option<Seq<EventView>>>,
    relay: Seq<char>,
    pubkey: Seq<char>,
)
    requires
        answers.len() <= relays.len(),
        showed(relays, answers, relay, pubkey),
    ensures
        exists|k: int|
            0 <= k < sightings_of(relays, answers).len() && (#[trigger] sightings_of(
                relays,
                answers,
            )[k]).event.pubkey == pubkey && sightings_of(relays, answers)[k].seen_on.contains(
                relay,
            ),
{
    lemma_shown_on_contains(relays, answers, relay, pubkey);
    law_sighting_tells_all(relays, answers, pubkey);
    let on = shown_on(relays, answers, pubkey);
    let s = sightings_of(relays, answers);
    let m = choose|m: int| 0 <= m < on.len() && on[m] == relay;
    let k = choose|k: int| 0 <= k < s.len() && (#[trigger] s[k]).event.pubkey == pubkey;
    assert(s[k].seen_on.contains(relay));
}

/// A provider that is listed is listed with what was shown of it: the key and the time of the
/// first among its newest valid announcements, what was read of that one, and each relay once
/// for every valid announcement of it that the relay has shown.
pub proof fn law_listed_provider_tells_all<D: Fn(&String) -> Option<ServiceAnnouncement>>(
    decode: D,
    relays: Seq<Seq<char>>,
    answers: Seq<Option<Seq<EventView>>>,
    out: Seq<ProviderView>,
    i: int,
)
    requires
        answers.len() <= relays.len(),
        lists_providers(decode, sightings_of(relays, answers), out),
        0 <= i < out.len(),
    ensures
        out[i].seen_on == shown_on(relays, answers, out[i].pubkey),
        npub_of_hex(out[i].pubkey) == Ok::<Seq<char>, KeyErrorView>(out[i].npub),
        exists|ev: EventView|
            {
                &&& #[trigger] is_first_newest(ev, shown_events(answers, out[i].pubkey))
                &&& ev.pubkey == out[i].pubkey
                &&& ev.created_at == out[i].created_at
                &&& reads_announcement(decode, ev.content, Some(out[i].announcement))
            },
{
    let s = sightings_of(relays, answers);
    law_sightings_valid(relays, answers);
    let (all, p) = choose|all: Seq<ProviderView>, p: Seq<int>|
        {
            &&& #[trigger] shows(decode, s, all)
            &&& #[trigger] is_descending_order(cheapness(all), p)
            &&& out == at_places(all, p)
        };
    assert(0 <= p[i] < cheapness(all).len());
    assert(out[i] == all[p[i]]);
    let k = lemma_shown_provider(decode, s, all, p[i]);
    law_sighting_tells_all(relays, answers, out[i].pubkey);
    assert(is_first_newest(s[k].event, shown_events(answers, out[i].pubkey)));
}

proof fn lemma_shown_provider<D: Fn(&String) -> Option<ServiceAnnouncement>>(
    decode: D,
    s: Seq<SightingView>,
    out: Seq<ProviderView>,
    i: int,
) -> (k: int)
    requires
        shows(decode, s, out),
        0 <= i < out.len(),
    ensures
        0 <= k < s.len(),
        is_provider_of(out[i], s[k]),
        reads_announcement(decode, s[k].event.content, Some(out[i].announcement)),
    decreases s.len(),
{
    let rest = s.drop_last();
    let a = choose|a: Option<AnnouncementView>|
        {
            &&& #[trigger] reads_announcement(decode, s.last().event.content, a)
            &&& match provider_of(s.last(), a) {
                Some(p) => out.len() > 0 && out.last() == p && shows(
                    decode,
                    s.drop_last(),
                    out.drop_last(),
                ),
                None => shows(decode, s.drop_last(), out),
            }
        };
    match provider_of(s.last(), a) {
        Some(p) => if i == out.len() - 1 {
            s.len() - 1
        } else {
            assert(out.drop_last()[i] == out[i]);
            lemma_shown_provider(decode, rest, out.drop_last(), i)
        },
        None => lemma_shown_provider(decode, rest, out, i),
    }
}

/// Every relay is asked, and what it has shown is what counts as its answer; one that could not be
/// asked shows nothing.
pub proof fn law_every_relay_asked<Q: Fn(&String) -> Option<Vec<Event>>>(
    query: Q,
    relays: Seq<String>,
    answers: Seq<Option<Seq<EventView>>>,
    i: int,
)
    requires
        answers_of(query, relays, answers),
        0 <= i < relays.len(),
    ensures
        answers.len() == relays.len(),
        exists|r: Option<Vec<Event>>| #[trigger]
            query.ensures((&relays[i],), r) && match r {
                Some(evs) => answers[i] == Some(Seq::new(evs@.len(), |k: int| evs@[k]@)),
                None => answers[i] is None,
            },
{
    assert(answers_with(query, relays[i], answers[i]));
    let r = choose|r: Option<Vec<Event>>| #[trigger]
        query.ensures((&relays[i],), r) && answers[i] == answer_view(r);
    if let Some(evs) = r {
        assert(event_views(evs@) =~= Seq::new(evs@.len(), |k: int| evs@[k]@));
    }
}

} // verus!
