//! Retained events: the rows of a retention store, made from signed events.

use vstd::prelude::*;
use vstd::utf8::encode_utf8;

use crate::event::event_fields;
use crate::event::event_from_text;
use crate::event::event_is_authentic;
use crate::event::event_of_text;
use crate::event::event_text;
use crate::event::event_verifies;
use crate::event::is_event_id;
use crate::event::read_event;
use crate::event::text_of_event;
use crate::event::EventData;
use crate::event::EventView;
use crate::text::bytes_less;
use crate::text::hex_bytes;
use crate::text::is_text_less;
use crate::text::law_hex_keeps_the_byte_order;
use crate::text::law_text_order_is_that_of_the_bytes;
use crate::text::lemma_hex_bytes_of;
use crate::text::lemma_text_order_is_strict;
use crate::text::text_less;

verus! {

/// A retained persona event row.
#[derive(Debug)]
pub struct RetainedEvent {
    pub kind: u32,
    pub pubkey: String,
    pub d_tag: String,
    pub content: String,
    pub created_at: i64,
    pub raw_event: String,
    pub pending_sync: bool,
    /// NIP-01 id of this row's own event, the second half of the ordering key.
    ///
    /// NIP-33 resolves an equal-`created_at` collision by lowest event id, so a
    /// row without an id cannot be ordered against a relay head at all. `None`
    /// means exactly that, unresolved: a legacy row whose `raw_event` did not
    /// parse and verify during the schema backfill. Writers derive the value
    /// from the event they just signed, so it always describes `raw_event`.
    pub event_id: Option<String>,
}

/// What a retained row says.
#[verifier::ext_equal]
pub struct RetainedEventView {
    pub kind: u32,
    pub pubkey: Seq<char>,
    pub d_tag: Seq<char>,
    pub content: Seq<char>,
    pub created_at: i64,
    pub raw_event: Seq<char>,
    pub pending_sync: bool,
    pub event_id: Option<Seq<char>>,
}

/// What a retention store keys its rows by.
#[verifier::ext_equal]
pub struct Coordinate {
    pub kind: u32,
    pub pubkey: Seq<char>,
    pub d_tag: Seq<char>,
}

impl RetainedEventView {
    /// The key of the row.
    pub open spec fn coordinate(self) -> Coordinate {
        Coordinate { kind: self.kind, pubkey: self.pubkey, d_tag: self.d_tag }
    }

    /// Whether the id, if there is one, is that of the stored event.
    pub open spec fn has_trusted_id(self) -> bool {
        self.event_id is Some ==> self.event_id == trusted_id(self.raw_event)
    }

    /// The row, known to the relay or not.
    pub open spec fn with_pending_sync(self, pending_sync: bool) -> RetainedEventView {
        RetainedEventView { pending_sync, ..self }
    }
}

impl View for RetainedEvent {
    type V = RetainedEventView;

    open spec fn view(&self) -> RetainedEventView {
        RetainedEventView {
            kind: self.kind,
            pubkey: self.pubkey@,
            d_tag: self.d_tag@,
            content: self.content@,
            created_at: self.created_at,
            raw_event: self.raw_event@,
            pending_sync: self.pending_sync,
            event_id: self.event_id.deep_view(),
        }
    }
}

/// What a row that may be missing says.
pub open spec fn row_view(row: Option<RetainedEvent>) -> Option<RetainedEventView> {
    match row {
        Some(row) => Some(row@),
        None => None,
    }
}

impl Clone for RetainedEvent {
    fn clone(&self) -> (copy: RetainedEvent)
        ensures
            copy@ == self@,
    {
        RetainedEvent {
            kind: self.kind,
            pubkey: self.pubkey.clone(),
            d_tag: self.d_tag.clone(),
            content: self.content.clone(),
            created_at: self.created_at,
            raw_event: self.raw_event.clone(),
            pending_sync: self.pending_sync,
            event_id: match &self.event_id {
                Some(id) => Some(id.clone()),
                None => None,
            },
        }
    }
}

/// The id that a stored event may be trusted to have: its own, if the text is an
/// event whose id and signature hold.
pub open spec fn trusted_id(raw_event: Seq<char>) -> Option<Seq<char>> {
    match event_of_text(raw_event) {
        Some(event) => if event_is_authentic(event) {
            Some(event.id)
        } else {
            None
        },
        None => None,
    }
}

/// Re-derive an event's NIP-01 id from its stored JSON, or `None` when the
/// bytes do not parse or do not verify.
///
/// Deliberately not the `id` member of the JSON: the id is only an ordering key
/// worth trusting if the stored bytes actually hash and sign to it. A row that
/// fails here stays unresolved rather than being handed a self-asserted key it
/// could win a comparator tie with.
pub fn event_id_from_raw(raw_event: &str) -> (id: Option<String>)
    ensures
        id.deep_view() == trusted_id(raw_event@),
        id is Some ==> is_event_id(id.unwrap()@),
{
    match event_from_text(raw_event) {
        Some(event) => event_id_if_valid(&read_event(&event), event_verifies(&event)),
        None => None,
    }
}

/// The id of an event whose id and signature hold.
pub fn event_id_if_valid(event: &EventData, valid: bool) -> (id: Option<String>)
    ensures
        id.deep_view() == (if valid {
            Some(event@.id)
        } else {
            None
        }),
{
    if valid {
        Some(event.id.clone())
    } else {
        None
    }
}

/// The row of an event under a coordinate, with the event's JSON text.
pub open spec fn row_of(
    coordinate: Coordinate,
    event: EventView,
    raw_event: Seq<char>,
    pending_sync: bool,
) -> RetainedEventView {
    RetainedEventView {
        kind: coordinate.kind,
        pubkey: coordinate.pubkey,
        d_tag: coordinate.d_tag,
        content: event.content,
        created_at: event.created_at as i64,
        raw_event,
        pending_sync,
        event_id: Some(event.id),
    }
}

impl RetainedEvent {
    /// A row for a locally signed event that still has to reach the relay.
    ///
    /// Every event-derived field is read from the one event passed in, so a row
    /// built this way cannot carry an `event_id` describing different bytes
    /// than its own `raw_event`. The fields stay public for test construction,
    /// so this is the rule every production writer follows rather than a type
    /// guarantee: build rows through these constructors and the ordering key
    /// and the payload cannot drift apart.
    pub fn pending(kind: u32, pubkey: String, d_tag: String, event: &nostr::Event) -> (row: Self)
        ensures
            row@ == row_of(
                Coordinate { kind, pubkey: pubkey@, d_tag: d_tag@ },
                event_fields(*event),
                event_text(event_fields(*event)),
                true,
            ),
            row@.event_id == Some(event_fields(*event).id),
            is_event_id(event_fields(*event).id),
            event_is_authentic(event_fields(*event)) ==> trusted_id(row@.raw_event)
                == row@.event_id,
    {
        RetainedEvent::from_signed(kind, pubkey, d_tag, event, true)
    }

    /// A row for an event that arrived from the relay, and so is already
    /// published.
    pub fn inbound(kind: u32, pubkey: String, d_tag: String, event: &nostr::Event) -> (row: Self)
        ensures
            row@ == row_of(
                Coordinate { kind, pubkey: pubkey@, d_tag: d_tag@ },
                event_fields(*event),
                event_text(event_fields(*event)),
                false,
            ),
            row@.event_id == Some(event_fields(*event).id),
            is_event_id(event_fields(*event).id),
            event_is_authentic(event_fields(*event)) ==> trusted_id(row@.raw_event)
                == row@.event_id,
    {
        RetainedEvent::from_signed(kind, pubkey, d_tag, event, false)
    }

    fn from_signed(
        kind: u32,
        pubkey: String,
        d_tag: String,
        event: &nostr::Event,
        pending_sync: bool,
    ) -> (row: Self)
        ensures
            row@ == row_of(
                Coordinate { kind, pubkey: pubkey@, d_tag: d_tag@ },
                event_fields(*event),
                event_text(event_fields(*event)),
                pending_sync,
            ),
            row@.event_id == Some(event_fields(*event).id),
            is_event_id(event_fields(*event).id),
            event_is_authentic(event_fields(*event)) ==> trusted_id(row@.raw_event)
                == row@.event_id,
    {
        RetainedEvent::from_parts(
            kind,
            pubkey,
            d_tag,
            read_event(event),
            text_of_event(event),
            pending_sync,
        )
    }

    /// The row of an event with its JSON text.
    pub fn from_parts(
        kind: u32,
        pubkey: String,
        d_tag: String,
        event: EventData,
        raw_event: String,
        pending_sync: bool,
    ) -> (row: Self)
        ensures
            row@ == row_of(
                Coordinate { kind, pubkey: pubkey@, d_tag: d_tag@ },
                event@,
                raw_event@,
                pending_sync,
            ),
    {
        RetainedEvent {
            kind,
            pubkey,
            d_tag,
            content: event.content,
            // Timestamps are seconds and stay below `i64::MAX`.
            created_at: event.created_at as i64,
            raw_event,
            pending_sync,
            event_id: Some(event.id),
        }
    }
}

/// Whether an inbound event beats a retained row that it shares a `created_at` with:
/// both ids are known, and the inbound one is strictly lower.
pub open spec fn wins_tie(inbound: RetainedEventView, retained: RetainedEventView) -> bool {
    match (inbound.event_id, retained.event_id) {
        (Some(inbound_id), Some(retained_id)) => text_less(inbound_id, retained_id),
        _ => false,
    }
}

/// Whether an inbound event beats a retained row they share a `created_at`
/// with, under the relay's tie-break: strictly lower event id wins.
///
/// The relay compares the ids' raw bytes, and this function their lower-case
/// hex: the same ordering, since hex encoding is monotonic over byte strings of
/// equal length and NIP-01 ids are always 32 bytes.
///
/// A missing id on either side means the pair cannot be ordered the way the
/// relay orders it. That returns `false`: the retained row stands, the inbound
/// event is skipped, and nothing is decided from a fabricated key. The cost is
/// a stale row until a strictly newer event arrives; the alternative is a local
/// head the relay disagrees with.
pub fn inbound_wins_equal_timestamp(inbound: &RetainedEvent, retained: &RetainedEvent) -> (wins:
    bool)
    ensures
        wins == wins_tie(inbound@, retained@),
{
    match (&inbound.event_id, &retained.event_id) {
        (Some(inbound_id), Some(retained_id)) => is_text_less(
            inbound_id.as_str(),
            retained_id.as_str(),
        ),
        _ => false,
    }
}

/// Between two event ids the tie-break goes by their raw bytes, as the relay's does.
pub proof fn law_tie_break_follows_the_raw_ids(
    inbound: RetainedEventView,
    retained: RetainedEventView,
)
    requires
        inbound.event_id is Some,
        is_event_id(inbound.event_id.unwrap()),
        retained.event_id is Some,
        is_event_id(retained.event_id.unwrap()),
    ensures
        wins_tie(inbound, retained) == bytes_less(
            hex_bytes(inbound.event_id.unwrap()),
            hex_bytes(retained.event_id.unwrap()),
        ),
{
    let inbound_id = inbound.event_id.unwrap();
    let retained_id = retained.event_id.unwrap();
    lemma_hex_bytes_of(inbound_id, 32);
    lemma_hex_bytes_of(retained_id, 32);
    law_hex_keeps_the_byte_order(hex_bytes(inbound_id), hex_bytes(retained_id));
}

/// A row says what its fields hold.
pub proof fn law_rows_say_their_fields(row: RetainedEvent)
    ensures
        row@.kind == row.kind,
        row@.pubkey == row.pubkey@,
        row@.d_tag == row.d_tag@,
        row@.content == row.content@,
        row@.created_at == row.created_at,
        row@.raw_event == row.raw_event@,
        row@.pending_sync == row.pending_sync,
        row@.event_id is Some <==> row.event_id is Some,
        row.event_id matches Some(id) ==> row@.event_id == Some(id@),
        row_view(Some(row)) == Some(row@),
        row_view(None) is None,
{
}

/// Two rows share a coordinate exactly if kind, public key and `d_tag` agree.
pub proof fn law_coordinates_are_kind_key_and_d_tag(a: RetainedEventView, b: RetainedEventView)
    ensures
        a.coordinate() == b.coordinate() <==> a.kind == b.kind && a.pubkey == b.pubkey && a.d_tag
            == b.d_tag,
        a.coordinate().kind == a.kind,
        a.coordinate().pubkey == a.pubkey,
        a.coordinate().d_tag == a.d_tag,
{
}

/// Marking a row as pending or published changes the flag and nothing else.
pub proof fn law_marking_changes_the_flag_only(row: RetainedEventView, pending_sync: bool)
    ensures
        row.with_pending_sync(pending_sync).pending_sync == pending_sync,
        row.with_pending_sync(pending_sync).kind == row.kind,
        row.with_pending_sync(pending_sync).pubkey == row.pubkey,
        row.with_pending_sync(pending_sync).d_tag == row.d_tag,
        row.with_pending_sync(pending_sync).content == row.content,
        row.with_pending_sync(pending_sync).created_at == row.created_at,
        row.with_pending_sync(pending_sync).raw_event == row.raw_event,
        row.with_pending_sync(pending_sync).event_id == row.event_id,
        row.with_pending_sync(row.pending_sync) == row,
{
}

/// A row made of an event stands at the given coordinate, has the event's content, time
/// and id, the text as it was given, and the flag as it was given.
pub proof fn law_row_of_an_event(
    coordinate: Coordinate,
    event: EventView,
    raw_event: Seq<char>,
    pending_sync: bool,
)
    ensures
        ({
            let row = row_of(coordinate, event, raw_event, pending_sync);
            &&& row.kind == coordinate.kind
            &&& row.pubkey == coordinate.pubkey
            &&& row.d_tag == coordinate.d_tag
            &&& row.coordinate() == coordinate
            &&& row.content == event.content
            &&& row.created_at == event.created_at as i64
            &&& row.raw_event == raw_event
            &&& row.pending_sync == pending_sync
            &&& row.event_id == Some(event.id)
        }),
{
}

/// A stored text has a trusted id exactly if it deserializes to an event that verifies,
/// and that event's id it is.
pub proof fn law_trusted_ids_are_of_verified_events(raw_event: Seq<char>, id: Seq<char>)
    ensures
        trusted_id(raw_event) == Some(id) <==> event_of_text(raw_event) is Some
            && event_is_authentic(event_of_text(raw_event).unwrap()) && event_of_text(
            raw_event,
        ).unwrap().id == id,
{
}

/// An id may be trusted only where it is that of the stored event.
pub proof fn law_rows_with_trusted_ids(row: RetainedEventView)
    ensures
        row.has_trusted_id() <==> (row.event_id matches Some(id) ==> event_of_text(
            row.raw_event,
        ) is Some && event_is_authentic(event_of_text(row.raw_event).unwrap()) && event_of_text(
            row.raw_event,
        ).unwrap().id == id),
{
}

/// Nothing beats a row in a tie without two known ids; of two different known ids exactly
/// one beats the other, and it is the one whose first different byte is lower.
pub proof fn law_lower_id_wins_a_tie(a: RetainedEventView, b: RetainedEventView, k: int)
    ensures
        a.event_id is None || b.event_id is None ==> !wins_tie(a, b),
        a.event_id == b.event_id ==> !wins_tie(a, b),
        a.event_id is Some && b.event_id is Some && a.event_id != b.event_id ==> wins_tie(a, b)
            != wins_tie(b, a),
        a.event_id is Some && b.event_id is Some && ({
            let left = encode_utf8(a.event_id.unwrap());
            let right = encode_utf8(b.event_id.unwrap());
            &&& 0 <= k < left.len()
            &&& k < right.len()
            &&& left[k] != right[k]
            &&& forall|l: int| 0 <= l < k ==> left[l] == right[l]
        }) ==> wins_tie(a, b) == (encode_utf8(a.event_id.unwrap())[k] < encode_utf8(
            b.event_id.unwrap(),
        )[k]),
{
    if a.event_id is Some && b.event_id is Some {
        let left = a.event_id.unwrap();
        let right = b.event_id.unwrap();
        lemma_text_order_is_strict(left, right, left);
        lemma_text_order_is_strict(right, left, right);
        if 0 <= k < encode_utf8(left).len() && k < encode_utf8(right).len() && forall|l: int|
            0 <= l < k ==> encode_utf8(left)[l] == encode_utf8(right)[l] {
            law_text_order_is_that_of_the_bytes(left, right, k);
        }
    }
}

} // verus!
