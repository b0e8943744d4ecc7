//! Signed Nostr events: their fields as plain data, and what the `nostr` crate
//! computes of them.

use vstd::prelude::*;

use crate::json::json_from_value;
use crate::json::unsigned_number;
use crate::json::value_json;
use crate::json::Json;
use crate::json::JsonView;
use crate::text::is_hex_of;

verus! {

/// A signed event of the `nostr` crate; [`event_fields`] names what it holds.
#[verifier::external_type_specification]
#[verifier::external_body]
pub struct ExEvent(nostr::Event);

/// Whether a text has the form of an event id: the lower-case hex of 32 bytes.
pub open spec fn is_event_id(text: Seq<char>) -> bool {
    is_hex_of(text, 32)
}

/// The seven fields of a signed event.
#[verifier::ext_equal]
pub struct EventView {
    /// The event id, in lower-case hex.
    pub id: Seq<char>,
    /// The author's public key, in lower-case hex.
    pub pubkey: Seq<char>,
    /// The creation time, in seconds.
    pub created_at: u64,
    /// The event kind.
    pub kind: u16,
    /// The tags, each a list of texts.
    pub tags: Seq<Seq<Seq<char>>>,
    /// The content.
    pub content: Seq<char>,
    /// The signature, in lower-case hex.
    pub sig: Seq<char>,
}

impl EventView {
    /// Whether every tag has at least one entry.
    pub open spec fn tags_named(self) -> bool {
        forall|i: int| 0 <= i < self.tags.len() ==> (#[trigger] self.tags[i]).len() > 0
    }

    /// Whether the fields have the form of a signed event's: id and public key are the
    /// hex of 32 bytes, the signature that of 64, and every tag has at least one entry.
    pub open spec fn is_formed(self) -> bool {
        &&& is_event_id(self.id)
        &&& is_hex_of(self.pubkey, 32)
        &&& is_hex_of(self.sig, 64)
        &&& self.tags_named()
    }
}

/// The fields of a signed event as plain data.
#[derive(Debug)]
pub struct EventData {
    /// The event id, in lower-case hex.
    pub id: String,
    /// The author's public key, in lower-case hex.
    pub pubkey: String,
    /// The creation time, in seconds.
    pub created_at: u64,
    /// The event kind.
    pub kind: u16,
    /// The tags, each a list of texts.
    pub tags: Vec<Vec<String>>,
    /// The content.
    pub content: String,
    /// The signature, in lower-case hex.
    pub sig: String,
}

impl View for EventData {
    type V = EventView;

    open spec fn view(&self) -> EventView {
        EventView {
            id: self.id@,
            pubkey: self.pubkey@,
            created_at: self.created_at,
            kind: self.kind,
            tags: self.tags.deep_view(),
            content: self.content@,
            sig: self.sig@,
        }
    }
}

/// The fields of a `nostr` event.
pub uninterp spec fn event_fields(event: nostr::Event) -> EventView;

/// Copies an event.
///
/// Trusted: the copy that `nostr::Event`'s `clone` makes has the event's fields.
pub assume_specification[ <nostr::Event as Clone>::clone ](event: &nostr::Event) -> (copy:
    nostr::Event)
    ensures
        event_fields(copy) == event_fields(*event),
;

impl Clone for EventData {
    fn clone(&self) -> (copy: EventData)
        ensures
            copy@ == self@,
    {
        EventData {
            id: self.id.clone(),
            pubkey: self.pubkey.clone(),
            created_at: self.created_at,
            kind: self.kind,
            tags: copy_tags(&self.tags),
            content: self.content.clone(),
            sig: self.sig.clone(),
        }
    }
}

/// What a JSON value deserializes to as an event, or the message that says why not.
pub uninterp spec fn event_of_json(json: JsonView) -> Result<EventView, Seq<char>>;

/// What a text deserializes to as an event, if it does.
pub uninterp spec fn event_of_text(raw: Seq<char>) -> Option<EventView>;

/// The JSON text of an event.
pub uninterp spec fn event_text(fields: EventView) -> Seq<char>;

/// Whether an event's id is the hash of its other fields and its signature is
/// that of its author over the id.
pub uninterp spec fn event_is_authentic(fields: EventView) -> bool;

/// The JSON array of one tag.
pub open spec fn tag_json(tag: Seq<Seq<char>>) -> JsonView {
    JsonView::Array(Seq::new(tag.len(), |i: int| JsonView::Text(tag[i])))
}

/// The JSON object of an event.
pub open spec fn event_json(event: EventView) -> JsonView {
    JsonView::Object(
        Map::empty().insert("id"@, JsonView::Text(event.id)).insert(
            "pubkey"@,
            JsonView::Text(event.pubkey),
        ).insert("created_at"@, JsonView::Number(unsigned_number(event.created_at))).insert(
            "kind"@,
            JsonView::Number(unsigned_number(event.kind as u64)),
        ).insert(
            "tags"@,
            JsonView::Array(Seq::new(event.tags.len(), |i: int| tag_json(event.tags[i]))),
        ).insert("content"@, JsonView::Text(event.content)).insert(
            "sig"@,
            JsonView::Text(event.sig),
        ),
    )
}

/// Reads the fields of a `nostr::Event` with `EventId::to_hex`,
/// `PublicKey::to_hex`, `Timestamp::as_secs`, `Kind::as_u16`, `Tags::iter`,
/// `Tag::as_slice` and the `Display` of the signature.
///
/// Trusted: together they are what the event holds. Id, key and signature are byte
/// arrays of fixed length written in lower-case hex, and a `nostr::Tag` is never empty.
#[verifier::external_body]
pub(crate) fn read_event(event: &nostr::Event) -> (fields: EventData)
    ensures
        fields@ == event_fields(*event),
        fields@.is_formed(),
{
    EventData {
        id: event.id.to_hex(),
        pubkey: event.pubkey.to_hex(),
        created_at: event.created_at.as_secs(),
        kind: event.kind.as_u16(),
        tags: event.tags.iter().map(|tag| tag.as_slice().to_vec()).collect(),
        content: event.content.clone(),
        sig: event.sig.to_string(),
    }
}

/// Deserializes an event with `serde_json::from_value`.
///
/// Trusted: event and error message depend on what the value holds alone.
#[verifier::external_body]
pub(crate) fn event_from_value(value: serde_json::Value) -> (read: Result<nostr::Event, String>)
    ensures
        match read {
            Ok(event) => event_of_json(value_json(value)) == Ok::<EventView, Seq<char>>(
                event_fields(event),
            ),
            Err(message) => event_of_json(value_json(value)) == Err::<EventView, Seq<char>>(
                message@,
            ),
        },
{
    match serde_json::from_value(value) {
        Ok(event) => Ok(event),
        Err(error) => Err(error.to_string()),
    }
}

/// Whether a JSON value deserializes to the event.
pub open spec fn json_is_event(json: JsonView, event: EventView) -> bool {
    event_of_json(json) == Ok::<EventView, Seq<char>>(event)
}

/// Serializes an event with `serde_json::to_value`.
///
/// Trusted: serialization succeeds and gives the object of the seven fields, from
/// which the event is read back unchanged.
#[verifier::external_body]
fn value_of_event(event: &nostr::Event) -> (value: serde_json::Value)
    ensures
        value_json(value) == event_json(event_fields(*event)),
        json_is_event(value_json(value), event_fields(*event)),
{
    serde_json::to_value(event)
        .expect("SAFETY: nostr::Event serialization is infallible for well-formed events")
}

/// Deserializes an event from its JSON text with `JsonUtil::from_json`.
///
/// Trusted: the outcome depends on the text alone.
#[verifier::external_body]
pub(crate) fn event_from_text(raw: &str) -> (read: Option<nostr::Event>)
    ensures
        match read {
            Some(event) => event_of_text(raw@) == Some(event_fields(event)),
            None => event_of_text(raw@) is None,
        },
{
    <nostr::Event as nostr::JsonUtil>::from_json(raw).ok()
}

/// Serializes an event as JSON text with `JsonUtil::as_json`.
///
/// Trusted: serialization succeeds, the text depends on the event's fields alone,
/// and the event is read back from it unchanged.
#[verifier::external_body]
pub(crate) fn text_of_event(event: &nostr::Event) -> (text: String)
    ensures
        text@ == event_text(event_fields(*event)),
        event_of_text(text@) == Some(event_fields(*event)),
{
    nostr::JsonUtil::as_json(event)
}

/// Verifies id and signature with `nostr::Event::verify`.
///
/// Trusted: the outcome depends on the event's fields alone.
#[verifier::external_body]
pub(crate) fn event_verifies(event: &nostr::Event) -> (valid: bool)
    ensures
        valid == event_is_authentic(event_fields(*event)),
{
    event.verify().is_ok()
}

/// A copy of a list of tags.
pub(crate) fn copy_tags(tags: &Vec<Vec<String>>) -> (copy: Vec<Vec<String>>)
    ensures
        copy.deep_view() == tags.deep_view(),
{
    let mut copy: Vec<Vec<String>> = Vec::new();
    let mut i: usize = 0;
    while i < tags.len()
        invariant
            i <= tags@.len(),
            copy@.len() == i,
            forall|j: int| 0 <= j < i ==> (#[trigger] copy@[j])@ == tags@[j]@,
        decreases tags@.len() - i,
    {
        let tag = &tags[i];
        let mut entries: Vec<String> = Vec::new();
        let mut k: usize = 0;
        while k < tag.len()
            invariant
                k <= tag@.len(),
                entries@ == tag@.take(k as int),
            decreases tag@.len() - k,
        {
            entries.push(tag[k].clone());
            assert(tag@.take(k + 1) =~= tag@.take(k as int).push(tag@[k as int]));
            k = k + 1;
        }
        assert(tag@.take(tag@.len() as int) =~= tag@);
        copy.push(entries);
        i = i + 1;
    }
    proof {
        assert forall|j: int| 0 <= j < tags@.len() implies copy@[j].deep_view()
            == tags@[j].deep_view() by {
            assert(copy@[j]@ == tags@[j]@);
        }
        assert(copy.deep_view() =~= tags.deep_view());
    }
    copy
}

/// The only numbers in the JSON object of an event are unsigned integers.
pub proof fn lemma_event_json_unsigned(event: EventView, depth: nat)
    requires
        depth >= 3,
    ensures
        event_json(event).holds_only_unsigned(depth),
{
    let members = event_json(event)->Object_0;
    let inner = (depth - 1) as nat;
    let tags = Seq::new(event.tags.len(), |i: int| tag_json(event.tags[i]));
    assert forall|i: int| 0 <= i < tags.len() implies (#[trigger] tags[i]).holds_only_unsigned(
        (inner - 1) as nat,
    ) by {
        assert(tags[i] == tag_json(event.tags[i]));
        assert(forall|j: int|
            0 <= j < event.tags[i].len() ==> (
            #[trigger] tags[i]->Array_0[j]).holds_only_unsigned((inner - 2) as nat));
    }
    assert(JsonView::Array(tags).holds_only_unsigned(inner));
    assert forall|key: Seq<char>| #[trigger]
        members.dom().contains(key) implies members[key].holds_only_unsigned(inner) by {
        if members[key] is Number {
        }
    }
}

/// The JSON object of an event nests three deep: object, tag list, tag.
pub proof fn lemma_event_json_nests(event: EventView, depth: nat)
    requires
        depth >= 3,
    ensures
        event_json(event).nests_within(depth),
{
    let members = event_json(event)->Object_0;
    let inner = (depth - 1) as nat;
    let tags = Seq::new(event.tags.len(), |i: int| tag_json(event.tags[i]));
    assert forall|i: int| 0 <= i < tags.len() implies (#[trigger] tags[i]).nests_within(
        (inner - 1) as nat,
    ) by {
        assert(tags[i] == tag_json(event.tags[i]));
        assert(forall|j: int|
            0 <= j < event.tags[i].len() ==> (#[trigger] tags[i]->Array_0[j]).nests_within(
                (inner - 2) as nat,
            ));
    }
    assert(JsonView::Array(tags).nests_within(inner));
    assert forall|key: Seq<char>| #[trigger]
        members.dom().contains(key) implies members[key].nests_within(inner) by {
    }
}

/// Serializes an event as plain JSON.
pub(crate) fn json_of_event(event: &nostr::Event) -> (json: Json)
    ensures
        json@ == event_json(event_fields(*event)),
        json_is_event(json@, event_fields(*event)),
{
    let value = value_of_event(event);
    proof {
        lemma_event_json_nests(event_fields(*event), 3);
    }
    json_from_value(value, 3)
}

/// Plain event data says what its fields hold.
pub proof fn law_event_data_says_its_fields(event: EventData)
    ensures
        event@.id == event.id@,
        event@.pubkey == event.pubkey@,
        event@.created_at == event.created_at,
        event@.kind == event.kind,
        event@.content == event.content@,
        event@.sig == event.sig@,
        event@.tags.len() == event.tags@.len(),
        forall|i: int|
            0 <= i < event.tags@.len() ==> event@.tags[i].len() == (#[trigger] event.tags@[i])@.len(),
        forall|i: int, j: int|
            0 <= i < event.tags@.len() && 0 <= j < event.tags@[i]@.len() ==> event@.tags[i][j]
                == (#[trigger] event.tags@[i]@[j])@,
{
}

} // verus!
