//! NIP-01 client and relay messages: parsing and formatting.

use vstd::prelude::*;
use vstd::slice::slice_subrange;
use vstd::string::*;
use vstd::utf8::encode_utf8;

use crate::event::event_fields;
use crate::event::event_from_value;
use crate::event::event_json;
use crate::event::event_of_json;
use crate::event::json_is_event;
use crate::event::json_of_event;
use crate::event::lemma_event_json_unsigned;
use crate::event::EventView;
use crate::json::items_view;
use crate::json::json_text;
use crate::json::members_view;
use crate::json::object_of;
use crate::json::parsed_json;
use crate::json::reads_as;
use crate::json::unsigned_number;
use crate::json::value_from_json;
use crate::json::value_json;
use crate::json::Json;
use crate::json::JsonView;
use crate::json::MAX_NESTING;
use crate::text::decimal;
use crate::text::decimal_text;
use crate::text::same_text;

verus! {

/// Subscription ids with more UTF-8 bytes than this are rejected.
pub const MAX_SUB_ID_LENGTH: usize = 256;

/// Subscriptions with more filters than this are rejected.
pub const MAX_FILTERS_PER_REQ: usize = 10;

/// A filter of the `nostr` crate, carried through unread.
#[verifier::external_type_specification]
#[verifier::external_body]
pub struct ExFilter(nostr::Filter);

/// Why a relay turns a frame down.
#[derive(Debug)]
pub enum RelayError {
    /// The frame is not a well-formed message; the text says why.
    InvalidMessage(String),
}

/// A message sent by a NIP-01 client to the relay.
#[derive(Debug)]
pub enum ClientMessage {
    /// An EVENT message submitting a signed Nostr event.
    Event(nostr::Event),
    /// A REQ message opening a subscription with one or more filters.
    Req {
        /// The client-assigned subscription identifier.
        sub_id: String,
        /// The filters that determine which events are delivered.
        filters: Vec<nostr::Filter>,
        /// Whether the historical read for this REQ must be served from the
        /// writer pool (`sync_authoritative` on any filter).
        ///
        /// Subscription-wide rather than per-filter: one REQ produces one
        /// deduplicated historical result set, so serving part of it from a
        /// replica would leave the caller unable to say which events were
        /// writer-consistent. Opting in anywhere pins the whole read.
        sync_authoritative: bool,
    },
    /// A CLOSE message cancelling an active subscription.
    Close(String),
    /// A COUNT message requesting aggregate counts (NIP-45).
    Count {
        /// The client-assigned subscription identifier.
        sub_id: String,
        /// The filters to count against.
        filters: Vec<nostr::Filter>,
    },
    /// An AUTH message responding to a NIP-42 challenge.
    Auth(nostr::Event),
}

/// What a client message says.
#[verifier::ext_equal]
pub enum ClientMessageView {
    Event(EventView),
    Req { sub_id: Seq<char>, filters: Seq<nostr::Filter>, sync_authoritative: bool },
    Close(Seq<char>),
    Count { sub_id: Seq<char>, filters: Seq<nostr::Filter> },
    Auth(EventView),
}

impl View for ClientMessage {
    type V = ClientMessageView;

    open spec fn view(&self) -> ClientMessageView {
        match *self {
            ClientMessage::Event(event) => ClientMessageView::Event(event_fields(event)),
            ClientMessage::Req { sub_id, filters, sync_authoritative } => ClientMessageView::Req {
                sub_id: sub_id@,
                filters: filters@,
                sync_authoritative,
            },
            ClientMessage::Close(sub_id) => ClientMessageView::Close(sub_id@),
            ClientMessage::Count { sub_id, filters } => ClientMessageView::Count {
                sub_id: sub_id@,
                filters: filters@,
            },
            ClientMessage::Auth(event) => ClientMessageView::Auth(event_fields(event)),
        }
    }
}

/// Copies a filter.
///
/// Trusted: the copy that `nostr::Filter`'s `clone` makes is the filter itself.
pub assume_specification[ <nostr::Filter as Clone>::clone ](filter: &nostr::Filter) -> (copy:
    nostr::Filter)
    ensures
        copy == *filter,
;

fn copy_filters(filters: &Vec<nostr::Filter>) -> (copy: Vec<nostr::Filter>)
    ensures
        copy@ == filters@,
{
    let mut copy: Vec<nostr::Filter> = Vec::new();
    let mut i: usize = 0;
    while i < filters.len()
        invariant
            i <= filters@.len(),
            copy@ == filters@.take(i as int),
        decreases filters@.len() - i,
    {
        copy.push(filters[i].clone());
        assert(filters@.take(i + 1) =~= filters@.take(i as int).push(filters@[i as int]));
        i = i + 1;
    }
    assert(filters@.take(i as int) =~= filters@);
    copy
}

impl Clone for ClientMessage {
    fn clone(&self) -> (copy: ClientMessage)
        ensures
            copy@ == self@,
    {
        match self {
            ClientMessage::Event(event) => ClientMessage::Event(event.clone()),
            ClientMessage::Req { sub_id, filters, sync_authoritative } => ClientMessage::Req {
                sub_id: sub_id.clone(),
                filters: copy_filters(filters),
                sync_authoritative: *sync_authoritative,
            },
            ClientMessage::Close(sub_id) => ClientMessage::Close(sub_id.clone()),
            ClientMessage::Count { sub_id, filters } => ClientMessage::Count {
                sub_id: sub_id.clone(),
                filters: copy_filters(filters),
            },
            ClientMessage::Auth(event) => ClientMessage::Auth(event.clone()),
        }
    }
}

/// What a JSON value deserializes to as a filter, or the message that says why not.
pub uninterp spec fn filter_of_json(json: JsonView) -> Result<nostr::Filter, Seq<char>>;

/// Deserializes a filter with `serde_json::from_value`.
///
/// Trusted: filter and error message depend on what the value holds alone.
#[verifier::external_body]
fn filter_from_value(value: serde_json::Value) -> (read: Result<nostr::Filter, String>)
    ensures
        match read {
            Ok(filter) => filter_of_json(value_json(value)) == Ok::<nostr::Filter, Seq<char>>(
                filter,
            ),
            Err(message) => filter_of_json(value_json(value)) == Err::<nostr::Filter, Seq<char>>(
                message@,
            ),
        },
{
    match serde_json::from_value(value) {
        Ok(filter) => Ok(filter),
        Err(error) => Err(error.to_string()),
    }
}

/// Whether a filter asks for a read from the writer pool.
pub open spec fn asks_for_writer(filter: JsonView) -> bool {
    filter.member("sync_authoritative"@) == Some(JsonView::Bool(true))
}

/// Whether a filter's `sync_authoritative` is there and is no boolean.
pub open spec fn misstates_sync(filter: JsonView) -> bool {
    match filter.member("sync_authoritative"@) {
        Some(JsonView::Bool(_)) => false,
        Some(_) => true,
        None => false,
    }
}

/// Whether the historical read for some filters is pinned to the writer pool: no
/// filter may misstate the request, and one that makes it is enough.
pub open spec fn sync_authoritative(filters: Seq<JsonView>) -> Result<bool, Seq<char>> {
    if exists|i: int| 0 <= i < filters.len() && misstates_sync(#[trigger] filters[i]) {
        Err("sync_authoritative must be a boolean"@)
    } else {
        Ok(exists|i: int| 0 <= i < filters.len() && asks_for_writer(#[trigger] filters[i]))
    }
}

/// The filters that a list of JSON values deserializes to, or the message about
/// the first that does not.
pub open spec fn filter_list(values: Seq<JsonView>) -> Result<Seq<nostr::Filter>, Seq<char>>
    decreases values.len(),
{
    if values.len() == 0 {
        Ok(Seq::empty())
    } else {
        match filter_list(values.drop_last()) {
            Err(message) => Err(message),
            Ok(filters) => match filter_of_json(values.last()) {
                Ok(filter) => Ok(filters.push(filter)),
                Err(message) => Err("invalid filter: "@ + message),
            },
        }
    }
}

/// The subscription id and the filters of a REQ or COUNT frame. A REQ has one filter
/// or more.
pub open spec fn subscription(label: Seq<char>, items: Seq<JsonView>) -> Result<
    (Seq<char>, Seq<nostr::Filter>),
    Seq<char>,
> {
    if items.len() < 2 {
        Err(label + " requires sub_id"@)
    } else {
        match items[1] {
            JsonView::Text(sub_id) => if sub_id.len() == 0 {
                Err(label + " sub_id must not be empty"@)
            } else if encode_utf8(sub_id).len() > MAX_SUB_ID_LENGTH {
                Err(
                    label + " sub_id exceeds maximum length of "@ + decimal(
                        MAX_SUB_ID_LENGTH as nat,
                    ) + " bytes"@,
                )
            } else if label == "REQ"@ && items.len() == 2 {
                Err("REQ requires at least one filter"@)
            } else if items.len() - 2 > MAX_FILTERS_PER_REQ {
                Err(
                    label + " contains "@ + decimal((items.len() - 2) as nat)
                        + " filters, maximum is "@ + decimal(MAX_FILTERS_PER_REQ as nat),
                )
            } else {
                match filter_list(items.skip(2)) {
                    Ok(filters) => Ok((sub_id, filters)),
                    Err(message) => Err(message),
                }
            },
            _ => Err(label + " sub_id must be a string"@),
        }
    }
}

/// The event of an EVENT or AUTH frame; `fault` introduces the message about one
/// that does not deserialize.
pub open spec fn frame_event(label: Seq<char>, fault: Seq<char>, items: Seq<JsonView>) -> Result<
    EventView,
    Seq<char>,
> {
    if items.len() < 2 {
        Err(label + " requires event object"@)
    } else {
        match event_of_json(items[1]) {
            Ok(event) => Ok(event),
            Err(message) => Err(fault + message),
        }
    }
}

/// The message of a frame whose first element is `label`.
pub open spec fn labelled_message(label: Seq<char>, items: Seq<JsonView>) -> Result<
    ClientMessageView,
    Seq<char>,
> {
    if label == "EVENT"@ {
        match frame_event(label, "invalid event: "@, items) {
            Ok(event) => Ok(ClientMessageView::Event(event)),
            Err(message) => Err(message),
        }
    } else if label == "REQ"@ {
        match subscription(label, items) {
            Ok((sub_id, filters)) => match sync_authoritative(items.skip(2)) {
                Ok(pinned) => Ok(
                    ClientMessageView::Req { sub_id, filters, sync_authoritative: pinned },
                ),
                Err(message) => Err(message),
            },
            Err(message) => Err(message),
        }
    } else if label == "COUNT"@ {
        match subscription(label, items) {
            Ok((sub_id, filters)) => Ok(ClientMessageView::Count { sub_id, filters }),
            Err(message) => Err(message),
        }
    } else if label == "CLOSE"@ {
        if items.len() < 2 {
            Err("CLOSE requires sub_id"@)
        } else {
            match items[1] {
                JsonView::Text(sub_id) => Ok(ClientMessageView::Close(sub_id)),
                _ => Err("CLOSE sub_id must be a string"@),
            }
        }
    } else if label == "AUTH"@ {
        match frame_event(label, "invalid auth event: "@, items) {
            Ok(event) => Ok(ClientMessageView::Auth(event)),
            Err(message) => Err(message),
        }
    } else {
        Err("unknown message type: "@ + label)
    }
}

/// The message of a JSON frame, or why the frame is turned down.
pub open spec fn client_message(frame: JsonView) -> Result<ClientMessageView, Seq<char>> {
    match frame {
        JsonView::Array(items) => if items.len() == 0 {
            Err("empty array"@)
        } else {
            match items[0] {
                JsonView::Text(label) => labelled_message(label, items),
                _ => Err("first element must be a string"@),
            }
        },
        _ => Err("expected JSON array"@),
    }
}

/// The message of a raw frame, or why the frame is turned down.
pub open spec fn parsed_message(raw: Seq<char>) -> Result<ClientMessageView, Seq<char>> {
    match parsed_json(raw) {
        Ok(frame) => client_message(frame),
        Err(message) => Err("JSON parse error: "@ + message),
    }
}

/// What a parse returned: the message, or the text of the error.
pub open spec fn outcome(parsed: Result<ClientMessage, RelayError>) -> Result<
    ClientMessageView,
    Seq<char>,
> {
    match parsed {
        Ok(message) => Ok(message@),
        Err(RelayError::InvalidMessage(text)) => Err(text@),
    }
}

fn joined(first: &str, second: &str) -> (text: String)
    ensures
        text@ == first@ + second@,
{
    String::from_str(first).concat(second)
}

/// Read the `sync_authoritative` opt-in from a REQ's raw filter values.
///
/// A caller sets this when absence of a result is itself a decision, which a
/// lagging read replica cannot be distinguished from. A non-boolean value is
/// rejected rather than treated as absent: silently downgrading a consistency
/// request returns a wrong answer the caller has no way to detect.
///
/// True when any filter opts in; see [`ClientMessage::Req`] for why this is
/// subscription-wide.
pub fn parse_sync_authoritative(filter_values: &[Json]) -> (pinned: Result<bool, RelayError>)
    ensures
        match pinned {
            Ok(flag) => sync_authoritative(items_view(filter_values@)) == Ok::<bool, Seq<char>>(
                flag,
            ),
            Err(RelayError::InvalidMessage(text)) => sync_authoritative(items_view(filter_values@))
                == Err::<bool, Seq<char>>(text@),
        },
{
    let ghost views = items_view(filter_values@);
    let mut pinned = false;
    let mut i: usize = 0;
    while i < filter_values.len()
        invariant
            i <= filter_values@.len(),
            views == items_view(filter_values@),
            forall|j: int| 0 <= j < i ==> !misstates_sync(#[trigger] views[j]),
            pinned == exists|j: int| 0 <= j < i && asks_for_writer(#[trigger] views[j]),
        decreases filter_values@.len() - i,
    {
        assert(views[i as int] == filter_values@[i as int]@);
        match filter_values[i].member("sync_authoritative") {
            None => {},
            Some(Json::Bool(flag)) => {
                if *flag {
                    assert(asks_for_writer(views[i as int]));
                    pinned = true;
                }
            },
            Some(_) => {
                assert(misstates_sync(views[i as int]));
                return Err(
                    RelayError::InvalidMessage("sync_authoritative must be a boolean".to_owned()),
                );
            },
        }
        i = i + 1;
    }
    Ok(pinned)
}

/// Deserializes each of a list of filters, up to the first that fails.
fn parse_filters(filter_values: &[Json]) -> (filters: Result<Vec<nostr::Filter>, String>)
    ensures
        match filters {
            Ok(list) => filter_list(items_view(filter_values@)) == Ok::<
                Seq<nostr::Filter>,
                Seq<char>,
            >(list@),
            Err(text) => filter_list(items_view(filter_values@)) == Err::<
                Seq<nostr::Filter>,
                Seq<char>,
            >(text@),
        },
{
    let ghost views = items_view(filter_values@);
    let mut filters: Vec<nostr::Filter> = Vec::new();
    let mut i: usize = 0;
    assert(views.take(0) =~= Seq::<JsonView>::empty());
    while i < filter_values.len()
        invariant
            i <= filter_values@.len(),
            views == items_view(filter_values@),
            filter_list(views.take(i as int)) == Ok::<Seq<nostr::Filter>, Seq<char>>(filters@),
        decreases filter_values@.len() - i,
    {
        let ghost next = views.take(i + 1);
        assert(next.drop_last() =~= views.take(i as int));
        assert(next.last() == filter_values@[i as int]@);
        match filter_from_value(value_from_json(&filter_values[i])) {
            Ok(filter) => {
                filters.push(filter);
            },
            Err(message) => {
                let text = joined("invalid filter: ", message.as_str());
                proof {
                    assert(filter_list(next) == Err::<Seq<nostr::Filter>, Seq<char>>(text@));
                    lemma_filter_list_stops(views, i + 1);
                }
                return Err(text);
            },
        }
        i = i + 1;
    }
    assert(views.take(i as int) =~= views);
    Ok(filters)
}

/// The message about the first filter that fails is the message about the list.
proof fn lemma_filter_list_stops(values: Seq<JsonView>, n: int)
    requires
        0 <= n <= values.len(),
        filter_list(values.take(n)) is Err,
    ensures
        filter_list(values) == filter_list(values.take(n)),
    decreases values.len() - n,
{
    if n == values.len() {
        assert(values.take(n) =~= values);
    } else {
        assert(values.take(n + 1).drop_last() =~= values.take(n));
        lemma_filter_list_stops(values, n + 1);
    }
}

/// Reads the subscription id and the filters of a REQ or COUNT frame.
fn parse_subscription(label: &str, items: &Vec<Json>) -> (parsed: Result<
    (String, Vec<nostr::Filter>),
    String,
>)
    ensures
        match parsed {
            Ok((sub_id, filters)) => subscription(label@, items_view(items@)) == Ok::<
                (Seq<char>, Seq<nostr::Filter>),
                Seq<char>,
            >((sub_id@, filters@)),
            Err(text) => subscription(label@, items_view(items@)) == Err::<
                (Seq<char>, Seq<nostr::Filter>),
                Seq<char>,
            >(text@),
        },
{
    if items.len() < 2 {
        return Err(joined(label, " requires sub_id"));
    }
    assert(items_view(items@)[1] == items@[1]@);
    let sub_id = match &items[1] {
        Json::Text(text) => text,
        _ => {
            return Err(joined(label, " sub_id must be a string"));
        },
    };
    if sub_id.as_str().is_empty() {
        return Err(joined(label, " sub_id must not be empty"));
    }
    if sub_id.as_str().as_bytes().len() > MAX_SUB_ID_LENGTH {
        let limit = decimal_text(MAX_SUB_ID_LENGTH as u64);
        return Err(
            joined(label, " sub_id exceeds maximum length of ").concat(limit.as_str()).concat(
                " bytes",
            ),
        );
    }
    let filter_values = slice_subrange(items.as_slice(), 2, items.len());
    assert(items_view(filter_values@) =~= items_view(items@).skip(2));
    if filter_values.len() == 0 && same_text(label, "REQ") {
        return Err("REQ requires at least one filter".to_owned());
    }
    if filter_values.len() > MAX_FILTERS_PER_REQ {
        let given = decimal_text(filter_values.len() as u64);
        let limit = decimal_text(MAX_FILTERS_PER_REQ as u64);
        return Err(
            joined(label, " contains ").concat(given.as_str()).concat(
                " filters, maximum is ",
            ).concat(limit.as_str()),
        );
    }
    match parse_filters(filter_values) {
        Ok(filters) => Ok((sub_id.clone(), filters)),
        Err(text) => Err(text),
    }
}

/// Reads the event of an EVENT or AUTH frame.
fn parse_event(label: &str, fault: &str, items: &Vec<Json>) -> (parsed: Result<
    nostr::Event,
    String,
>)
    ensures
        match parsed {
            Ok(event) => frame_event(label@, fault@, items_view(items@)) == Ok::<
                EventView,
                Seq<char>,
            >(event_fields(event)),
            Err(text) => frame_event(label@, fault@, items_view(items@)) == Err::<
                EventView,
                Seq<char>,
            >(text@),
        },
{
    if items.len() < 2 {
        return Err(joined(label, " requires event object"));
    }
    assert(items_view(items@)[1] == items@[1]@);
    match event_from_value(value_from_json(&items[1])) {
        Ok(event) => Ok(event),
        Err(message) => Err(joined(fault, message.as_str())),
    }
}

impl ClientMessage {
    /// Parse a raw JSON WebSocket frame into a [`ClientMessage`].
    pub fn parse(raw: &str) -> (parsed: Result<ClientMessage, RelayError>)
        ensures
            outcome(parsed) == parsed_message(raw@),
    {
        match Json::parse(raw) {
            Ok(frame) => ClientMessage::from_json(&frame),
            Err(message) => Err(
                RelayError::InvalidMessage(joined("JSON parse error: ", message.as_str())),
            ),
        }
    }

    /// Reads the message of a JSON frame.
    pub fn from_json(frame: &Json) -> (parsed: Result<ClientMessage, RelayError>)
        ensures
            outcome(parsed) == client_message(frame@),
    {
        let items = match frame {
            Json::Array(items) => items,
            _ => {
                return Err(RelayError::InvalidMessage("expected JSON array".to_owned()));
            },
        };
        if items.len() == 0 {
            return Err(RelayError::InvalidMessage("empty array".to_owned()));
        }
        assert(items_view(items@)[0] == items@[0]@);
        match &items[0] {
            Json::Text(label) => match ClientMessage::from_labelled(label.as_str(), items) {
                Ok(message) => Ok(message),
                Err(text) => Err(RelayError::InvalidMessage(text)),
            },
            _ => Err(RelayError::InvalidMessage("first element must be a string".to_owned())),
        }
    }

    /// Reads the message of a frame whose first element is `label`.
    fn from_labelled(label: &str, items: &Vec<Json>) -> (parsed: Result<ClientMessage, String>)
        ensures
            match parsed {
                Ok(message) => labelled_message(label@, items_view(items@)) == Ok::<
                    ClientMessageView,
                    Seq<char>,
                >(message@),
                Err(text) => labelled_message(label@, items_view(items@)) == Err::<
                    ClientMessageView,
                    Seq<char>,
                >(text@),
            },
    {
        if same_text(label, "EVENT") {
            match parse_event(label, "invalid event: ", items) {
                Ok(event) => Ok(ClientMessage::Event(event)),
                Err(text) => Err(text),
            }
        } else if same_text(label, "REQ") {
            match parse_subscription(label, items) {
                Ok((sub_id, filters)) => {
                    let filter_values = slice_subrange(items.as_slice(), 2, items.len());
                    assert(items_view(filter_values@) =~= items_view(items@).skip(2));
                    match parse_sync_authoritative(filter_values) {
                        Ok(sync_authoritative) => Ok(
                            ClientMessage::Req { sub_id, filters, sync_authoritative },
                        ),
                        Err(RelayError::InvalidMessage(text)) => Err(text),
                    }
                },
                Err(text) => Err(text),
            }
        } else if same_text(label, "COUNT") {
            match parse_subscription(label, items) {
                Ok((sub_id, filters)) => Ok(ClientMessage::Count { sub_id, filters }),
                Err(text) => Err(text),
            }
        } else if same_text(label, "CLOSE") {
            if items.len() < 2 {
                return Err("CLOSE requires sub_id".to_owned());
            }
            assert(items_view(items@)[1] == items@[1]@);
            match &items[1] {
                Json::Text(sub_id) => Ok(ClientMessage::Close(sub_id.clone())),
                _ => Err("CLOSE sub_id must be a string".to_owned()),
            }
        } else if same_text(label, "AUTH") {
            match parse_event(label, "invalid auth event: ", items) {
                Ok(event) => Ok(ClientMessage::Auth(event)),
                Err(text) => Err(text),
            }
        } else {
            Err(joined("unknown message type: ", label))
        }
    }
}

/// The JSON array of a relay message.
pub open spec fn relay_frame(label: Seq<char>, rest: Seq<JsonView>) -> JsonView {
    JsonView::Array(seq![JsonView::Text(label)] + rest)
}

/// Whether a text is the compact JSON of a frame, and reads as that frame.
pub open spec fn carries(text: Seq<char>, frame: JsonView) -> bool {
    &&& text == json_text(frame)
    &&& reads_as(text, frame)
}

/// Whether a text reads as the EVENT frame of a subscription, and its third element
/// deserializes to the event.
pub open spec fn delivers(text: Seq<char>, sub_id: Seq<char>, event: EventView) -> bool {
    &&& parsed_json(text) matches Ok(JsonView::Array(items))
    &&& items.len() == 3
    &&& items[0] == JsonView::Text("EVENT"@)
    &&& items[1] == JsonView::Text(sub_id)
    &&& json_is_event(items[2], event)
}

/// Helpers for formatting NIP-01 relay-to-client messages as JSON strings.
pub struct RelayMessage;

impl RelayMessage {
    /// Formats a frame whose numbers are all unsigned integers.
    fn format(items: Vec<Json>) -> (text: String)
        requires
            forall|i: int|
                0 <= i < items@.len() ==> (#[trigger] items@[i])@.holds_only_unsigned(
                    (MAX_NESTING - 1) as nat,
                ),
        ensures
            carries(text@, JsonView::Array(items_view(items@))),
    {
        assert(forall|i: int|
            0 <= i < items@.len() ==> #[trigger] items_view(items@)[i] == items@[i]@);
        Json::Array(items).to_text()
    }

    /// Format an AUTH challenge message.
    pub fn auth_challenge(challenge: &str) -> (text: String)
        ensures
            carries(text@, relay_frame("AUTH"@, seq![JsonView::Text(challenge@)])),
    {
        let items = vec![Json::text("AUTH"), Json::text(challenge)];
        assert(items_view(items@) =~= seq![JsonView::Text("AUTH"@)] + seq![
            JsonView::Text(challenge@),
        ]);
        RelayMessage::format(items)
    }

    /// Format an EVENT message delivering an event to a subscriber.
    pub fn event(sub_id: &str, event: &nostr::Event) -> (text: String)
        ensures
            carries(
                text@,
                relay_frame(
                    "EVENT"@,
                    seq![JsonView::Text(sub_id@), event_json(event_fields(*event))],
                ),
            ),
            delivers(text@, sub_id@, event_fields(*event)),
    {
        let items = vec![Json::text("EVENT"), Json::text(sub_id), json_of_event(event)];
        proof {
            assert(items_view(items@) =~= seq![JsonView::Text("EVENT"@)] + seq![
                JsonView::Text(sub_id@),
                event_json(event_fields(*event)),
            ]);
            lemma_event_json_unsigned(event_fields(*event), (MAX_NESTING - 1) as nat);
        }
        RelayMessage::format(items)
    }

    /// Format a NOTICE message with a human-readable string.
    pub fn notice(message: &str) -> (text: String)
        ensures
            carries(text@, relay_frame("NOTICE"@, seq![JsonView::Text(message@)])),
    {
        let items = vec![Json::text("NOTICE"), Json::text(message)];
        assert(items_view(items@) =~= seq![JsonView::Text("NOTICE"@)] + seq![
            JsonView::Text(message@),
        ]);
        RelayMessage::format(items)
    }

    /// Format an EOSE (End of Stored Events) message for a subscription.
    pub fn eose(sub_id: &str) -> (text: String)
        ensures
            carries(text@, relay_frame("EOSE"@, seq![JsonView::Text(sub_id@)])),
    {
        let items = vec![Json::text("EOSE"), Json::text(sub_id)];
        assert(items_view(items@) =~= seq![JsonView::Text("EOSE"@)] + seq![
            JsonView::Text(sub_id@),
        ]);
        RelayMessage::format(items)
    }

    /// Format an OK message acknowledging an EVENT submission.
    pub fn ok(event_id: &str, accepted: bool, message: &str) -> (text: String)
        ensures
            carries(
                text@,
                relay_frame(
                    "OK"@,
                    seq![
                        JsonView::Text(event_id@),
                        JsonView::Bool(accepted),
                        JsonView::Text(message@),
                    ],
                ),
            ),
    {
        let items = vec![
            Json::text("OK"),
            Json::text(event_id),
            Json::Bool(accepted),
            Json::text(message),
        ];
        assert(items_view(items@) =~= seq![JsonView::Text("OK"@)] + seq![
            JsonView::Text(event_id@),
            JsonView::Bool(accepted),
            JsonView::Text(message@),
        ]);
        RelayMessage::format(items)
    }

    /// Format a CLOSED message indicating a subscription was terminated by the relay.
    pub fn closed(sub_id: &str, message: &str) -> (text: String)
        ensures
            carries(
                text@,
                relay_frame("CLOSED"@, seq![JsonView::Text(sub_id@), JsonView::Text(message@)]),
            ),
    {
        let items = vec![Json::text("CLOSED"), Json::text(sub_id), Json::text(message)];
        assert(items_view(items@) =~= seq![JsonView::Text("CLOSED"@)] + seq![
            JsonView::Text(sub_id@),
            JsonView::Text(message@),
        ]);
        RelayMessage::format(items)
    }

    /// Format a COUNT response (NIP-45).
    pub fn count(sub_id: &str, count: u64) -> (text: String)
        ensures
            carries(
                text@,
                relay_frame(
                    "COUNT"@,
                    seq![
                        JsonView::Text(sub_id@),
                        JsonView::Object(
                            Map::empty().insert("count"@, JsonView::Number(unsigned_number(count))),
                        ),
                    ],
                ),
            ),
    {
        let number = Json::unsigned(count);
        let members = vec![("count".to_owned(), number)];
        let ghost pairs = members_view(members@);
        let object = Json::Object(members);
        proof {
            assert(pairs.drop_last() =~= Seq::empty());
            assert(object_of(pairs.drop_last()) =~= Map::empty());
            assert(object@ == JsonView::Object(
                Map::empty().insert("count"@, JsonView::Number(unsigned_number(count))),
            ));
        }
        let items = vec![Json::text("COUNT"), Json::text(sub_id), object];
        proof {
            assert(items_view(items@) =~= seq![JsonView::Text("COUNT"@)] + seq![
                JsonView::Text(sub_id@),
                object@,
            ]);
            reveal_with_fuel(JsonView::holds_only_unsigned, 2);
            assert(object@.holds_only_unsigned((MAX_NESTING - 1) as nat));
        }
        RelayMessage::format(items)
    }
}

/// An accepted subscription is within the advertised limits: its id has one to
/// [`MAX_SUB_ID_LENGTH`] bytes, and it has at most [`MAX_FILTERS_PER_REQ`] filters,
/// one for each element after the id. A REQ has at least one.
pub proof fn law_subscription_limits(items: Seq<JsonView>)
    ensures
        match client_message(JsonView::Array(items)) {
            Ok(ClientMessageView::Req { sub_id, filters, .. }) => {
                &&& 1 <= encode_utf8(sub_id).len() <= MAX_SUB_ID_LENGTH
                &&& 1 <= filters.len() <= MAX_FILTERS_PER_REQ
                &&& filters.len() == items.len() - 2
            },
            Ok(ClientMessageView::Count { sub_id, filters }) => {
                &&& 1 <= encode_utf8(sub_id).len() <= MAX_SUB_ID_LENGTH
                &&& filters.len() <= MAX_FILTERS_PER_REQ
                &&& filters.len() == items.len() - 2
            },
            _ => true,
        },
{
    if items.len() >= 2 {
        lemma_filter_list_len(items.skip(2));
        if let JsonView::Text(sub_id) = items[1] {
            if sub_id.len() > 0 {
                vstd::utf8::encode_utf8_decode_utf8(sub_id);
                if encode_utf8(sub_id).len() == 0 {
                    assert(encode_utf8(sub_id) =~= encode_utf8(Seq::empty()));
                    vstd::utf8::encode_utf8_decode_utf8(Seq::empty());
                }
            }
        }
    }
}

/// Whatever a raw frame holds, a subscription parsed from it is within the advertised
/// limits.
pub proof fn law_parsed_subscription_limits(raw: Seq<char>)
    ensures
        match parsed_message(raw) {
            Ok(ClientMessageView::Req { sub_id, filters, .. }) => {
                &&& 1 <= encode_utf8(sub_id).len() <= MAX_SUB_ID_LENGTH
                &&& 1 <= filters.len() <= MAX_FILTERS_PER_REQ
            },
            Ok(ClientMessageView::Count { sub_id, filters }) => {
                &&& 1 <= encode_utf8(sub_id).len() <= MAX_SUB_ID_LENGTH
                &&& filters.len() <= MAX_FILTERS_PER_REQ
            },
            _ => true,
        },
{
    if let Ok(JsonView::Array(items)) = parsed_json(raw) {
        law_subscription_limits(items);
    }
}

proof fn lemma_filter_list_len(values: Seq<JsonView>)
    ensures
        filter_list(values) matches Ok(filters) ==> filters.len() == values.len(),
    decreases values.len(),
{
    if values.len() > 0 {
        lemma_filter_list_len(values.drop_last());
    }
}

/// An accepted REQ is pinned to the writer pool exactly when one of its filters
/// opts in.
pub proof fn law_any_filter_pins_the_read(items: Seq<JsonView>)
    ensures
        client_message(JsonView::Array(items)) matches Ok(
            ClientMessageView::Req { sync_authoritative, .. },
        ) ==> sync_authoritative == exists|i: int|
            2 <= i < items.len() && asks_for_writer(#[trigger] items[i]),
{
    let values = items.skip(2);
    if items.len() >= 2 {
        assert forall|i: int| 2 <= i < items.len() implies items[i] == #[trigger] values[i - 2] by {
        }
        if exists|i: int| 2 <= i < items.len() && asks_for_writer(#[trigger] items[i]) {
            let i = choose|i: int| 2 <= i < items.len() && asks_for_writer(#[trigger] items[i]);
            assert(asks_for_writer(values[i - 2]));
        }
        if exists|i: int| 0 <= i < values.len() && asks_for_writer(#[trigger] values[i]) {
            let i = choose|i: int| 0 <= i < values.len() && asks_for_writer(#[trigger] values[i]);
            assert(asks_for_writer(items[i + 2]));
        }
    }
}

/// A REQ in which a filter's `sync_authoritative` is no boolean is turned down,
/// never served unpinned.
pub proof fn law_misstated_sync_is_rejected(items: Seq<JsonView>, i: int)
    requires
        2 <= i < items.len(),
        items[0] == JsonView::Text("REQ"@),
        misstates_sync(items[i]),
    ensures
        client_message(JsonView::Array(items)) is Err,
{
    reveal_strlit("REQ");
    reveal_strlit("EVENT");
    let values = items.skip(2);
    assert(misstates_sync(values[i - 2]));
}

/// An event that a client submits in an EVENT or AUTH frame is the event that the
/// relay receives.
pub proof fn law_submitted_event_is_received(raw: Seq<char>, event: EventView, rest: Seq<JsonView>)
    requires
        json_is_event(event_json(event), event),
    ensures
        reads_as(
            raw,
            JsonView::Array(seq![JsonView::Text("EVENT"@), event_json(event)] + rest),
        ) ==> parsed_message(raw) == Ok::<ClientMessageView, Seq<char>>(
            ClientMessageView::Event(event),
        ),
        reads_as(
            raw,
            JsonView::Array(seq![JsonView::Text("AUTH"@), event_json(event)] + rest),
        ) ==> parsed_message(raw) == Ok::<ClientMessageView, Seq<char>>(
            ClientMessageView::Auth(event),
        ),
{
    reveal_strlit("EVENT");
    reveal_strlit("REQ");
    reveal_strlit("COUNT");
    reveal_strlit("CLOSE");
    reveal_strlit("AUTH");
    assert("AUTH"@.len() == 4 && "EVENT"@.len() == 5 && "REQ"@.len() == 3);
    assert("COUNT"@.len() == 5 && "CLOSE"@.len() == 5);
}

/// Filters are read one for one and in order: the list is accepted exactly if each
/// element deserializes, and each filter is what its own element deserializes to.
pub proof fn law_filters_are_read_one_for_one(
    values: Seq<JsonView>,
    filters: Seq<nostr::Filter>,
)
    ensures
        filter_list(values) == Ok::<Seq<nostr::Filter>, Seq<char>>(filters) <==> {
            &&& filters.len() == values.len()
            &&& forall|i: int|
                0 <= i < values.len() ==> filter_of_json(#[trigger] values[i]) == Ok::<
                    nostr::Filter,
                    Seq<char>,
                >(filters[i])
        },
    decreases values.len(),
{
    if values.len() == 0 {
        assert(filters.len() == 0 ==> filters =~= Seq::empty());
    } else {
        let front = values.drop_last();
        assert(forall|i: int| 0 <= i < front.len() ==> front[i] == #[trigger] values[i]);
        if filters.len() > 0 {
            law_filters_are_read_one_for_one(front, filters.drop_last());
            assert(filters =~= filters.drop_last().push(filters.last()));
            if filter_list(values) == Ok::<Seq<nostr::Filter>, Seq<char>>(filters) {
                let read = filter_list(front)->Ok_0;
                assert(filters.drop_last() =~= read);
                assert(forall|i: int|
                    0 <= i < front.len() ==> filters.drop_last()[i] == filters[i]);
                assert(values.last() == values[values.len() - 1]);
            }
            if filters.len() == values.len() && forall|i: int|
                0 <= i < values.len() ==> filter_of_json(#[trigger] values[i]) == Ok::<
                    nostr::Filter,
                    Seq<char>,
                >(filters[i]) {
                assert forall|i: int| 0 <= i < front.len() implies filter_of_json(
                    #[trigger] front[i],
                ) == Ok::<nostr::Filter, Seq<char>>(filters.drop_last()[i]) by {
                    assert(front[i] == values[i]);
                }
                assert(filter_of_json(values[values.len() - 1]) == Ok::<nostr::Filter, Seq<char>>(
                    filters[values.len() - 1],
                ));
            }
        }
    }
}

/// The first element that is no filter decides what the rejection says.
pub proof fn law_first_bad_filter_is_reported(
    values: Seq<JsonView>,
    i: int,
    message: Seq<char>,
)
    requires
        0 <= i < values.len(),
        forall|j: int| 0 <= j < i ==> filter_of_json(#[trigger] values[j]) is Ok,
        filter_of_json(values[i]) == Err::<nostr::Filter, Seq<char>>(message),
    ensures
        filter_list(values) == Err::<Seq<nostr::Filter>, Seq<char>>(
            "invalid filter: "@ + message,
        ),
{
    let front = values.take(i);
    let filters = Seq::new(i as nat, |j: int| filter_of_json(values[j])->Ok_0);
    assert forall|j: int| 0 <= j < front.len() implies filter_of_json(#[trigger] front[j]) == Ok::<
        nostr::Filter,
        Seq<char>,
    >(filters[j]) by {
        assert(front[j] == values[j]);
    }
    law_filters_are_read_one_for_one(front, filters);
    let next = values.take(i + 1);
    assert(next.drop_last() =~= front);
    assert(next.last() == values[i]);
    lemma_filter_list_stops(values, i + 1);
}

/// A frame is a REQ message exactly if its label is REQ, its second element is the
/// client's id of 1 to 256 bytes, and one to ten filters follow, none of them with a
/// `sync_authoritative` that is no boolean. The message has the id as it was sent, a
/// filter for each element, and is pinned exactly if an element asks for it.
pub proof fn law_req_says_what_was_sent(
    items: Seq<JsonView>,
    sub_id: Seq<char>,
    filters: Seq<nostr::Filter>,
    pinned: bool,
)
    ensures
        client_message(JsonView::Array(items)) == Ok::<ClientMessageView, Seq<char>>(
            ClientMessageView::Req { sub_id, filters, sync_authoritative: pinned },
        ) <==> {
            &&& 3 <= items.len() <= 12
            &&& items[0] == JsonView::Text("REQ"@)
            &&& items[1] == JsonView::Text(sub_id)
            &&& 1 <= encode_utf8(sub_id).len() <= 256
            &&& filters.len() == items.len() - 2
            &&& forall|i: int|
                2 <= i < items.len() ==> filter_of_json(#[trigger] items[i]) == Ok::<
                    nostr::Filter,
                    Seq<char>,
                >(filters[i - 2])
            &&& forall|i: int|
                2 <= i < items.len() && (#[trigger] items[i]) is Object
                    && items[i]->Object_0.contains_key("sync_authoritative"@)
                    ==> items[i]->Object_0["sync_authoritative"@] is Bool
            &&& pinned == exists|i: int|
                2 <= i < items.len() && (#[trigger] items[i]) is Object
                    && items[i]->Object_0.contains_key("sync_authoritative"@)
                    && items[i]->Object_0["sync_authoritative"@] == JsonView::Bool(true)
        },
{
    lemma_labels_differ();
    let message = client_message(JsonView::Array(items));
    if items.len() >= 2 {
        let values = items.skip(2);
        assert(forall|i: int| 2 <= i < items.len() ==> values[i - 2] == #[trigger] items[i]);
        assert(forall|i: int| 0 <= i < values.len() ==> #[trigger] values[i] == items[i + 2]);
        law_filters_are_read_one_for_one(values, filters);
        lemma_text_has_bytes(sub_id);
        assert((forall|i: int|
            2 <= i < items.len() ==> filter_of_json(#[trigger] items[i]) == Ok::<
                nostr::Filter,
                Seq<char>,
            >(filters[i - 2])) <==> (forall|i: int|
            0 <= i < values.len() ==> filter_of_json(#[trigger] values[i]) == Ok::<
                nostr::Filter,
                Seq<char>,
            >(filters[i]))) by {
            if forall|i: int|
                2 <= i < items.len() ==> filter_of_json(#[trigger] items[i]) == Ok::<
                    nostr::Filter,
                    Seq<char>,
                >(filters[i - 2]) {
                assert forall|i: int| 0 <= i < values.len() implies filter_of_json(
                    #[trigger] values[i],
                ) == Ok::<nostr::Filter, Seq<char>>(filters[i]) by {
                    assert(filter_of_json(items[i + 2]) == Ok::<nostr::Filter, Seq<char>>(
                        filters[i + 2 - 2],
                    ));
                }
            }
        }
        assert((exists|i: int| 0 <= i < values.len() && misstates_sync(#[trigger] values[i])) <==> (
        exists|i: int|
            2 <= i < items.len() && (#[trigger] items[i]) is Object
                && items[i]->Object_0.contains_key("sync_authoritative"@)
                && !(items[i]->Object_0["sync_authoritative"@] is Bool))) by {
            if exists|i: int| 0 <= i < values.len() && misstates_sync(#[trigger] values[i]) {
                let i = choose|i: int| 0 <= i < values.len() && misstates_sync(#[trigger] values[i]);
                assert(items[i + 2] is Object);
            }
            if exists|i: int|
                2 <= i < items.len() && (#[trigger] items[i]) is Object
                    && items[i]->Object_0.contains_key("sync_authoritative"@)
                    && !(items[i]->Object_0["sync_authoritative"@] is Bool) {
                let i = choose|i: int|
                    2 <= i < items.len() && (#[trigger] items[i]) is Object
                        && items[i]->Object_0.contains_key("sync_authoritative"@)
                        && !(items[i]->Object_0["sync_authoritative"@] is Bool);
                assert(misstates_sync(values[i - 2]));
            }
        }
        assert((exists|i: int| 0 <= i < values.len() && asks_for_writer(#[trigger] values[i])) <==> (
        exists|i: int|
            2 <= i < items.len() && (#[trigger] items[i]) is Object
                && items[i]->Object_0.contains_key("sync_authoritative"@)
                && items[i]->Object_0["sync_authoritative"@] == JsonView::Bool(true))) by {
            if exists|i: int| 0 <= i < values.len() && asks_for_writer(#[trigger] values[i]) {
                let i = choose|i: int|
                    0 <= i < values.len() && asks_for_writer(#[trigger] values[i]);
                assert(items[i + 2] is Object);
            }
            if exists|i: int|
                2 <= i < items.len() && (#[trigger] items[i]) is Object
                    && items[i]->Object_0.contains_key("sync_authoritative"@)
                    && items[i]->Object_0["sync_authoritative"@] == JsonView::Bool(true) {
                let i = choose|i: int|
                    2 <= i < items.len() && (#[trigger] items[i]) is Object
                        && items[i]->Object_0.contains_key("sync_authoritative"@)
                        && items[i]->Object_0["sync_authoritative"@] == JsonView::Bool(true);
                assert(asks_for_writer(values[i - 2]));
            }
        }
    }
}

/// The labels of the client messages are different texts.
proof fn lemma_labels_differ()
    ensures
        "EVENT"@ != "REQ"@,
        "EVENT"@ != "COUNT"@,
        "EVENT"@ != "CLOSE"@,
        "EVENT"@ != "AUTH"@,
        "REQ"@ != "COUNT"@,
        "REQ"@ != "CLOSE"@,
        "REQ"@ != "AUTH"@,
        "COUNT"@ != "CLOSE"@,
        "COUNT"@ != "AUTH"@,
        "CLOSE"@ != "AUTH"@,
{
    reveal_strlit("EVENT");
    reveal_strlit("REQ");
    reveal_strlit("COUNT");
    reveal_strlit("CLOSE");
    reveal_strlit("AUTH");
    assert("EVENT"@[0] == 'E' && "REQ"@[0] == 'R' && "COUNT"@[0] == 'C' && "AUTH"@[0] == 'A');
    assert("CLOSE"@[0] == 'C' && "CLOSE"@[1] == 'L' && "COUNT"@[1] == 'O');
}

/// A text has UTF-8 bytes exactly if it has characters.
proof fn lemma_text_has_bytes(text: Seq<char>)
    ensures
        encode_utf8(text).len() > 0 <==> text.len() > 0,
{
    vstd::utf8::encode_utf8_decode_utf8(text);
    vstd::utf8::encode_utf8_decode_utf8(Seq::empty());
    if encode_utf8(text).len() == 0 {
        assert(encode_utf8(text) =~= encode_utf8(Seq::empty()));
    }
    if text.len() == 0 {
        assert(text =~= Seq::empty());
    }
}

/// A frame is a COUNT message exactly if its label is COUNT, its second element is the
/// client's id of 1 to 256 bytes, and up to ten filters follow. The message has the id as
/// it was sent and a filter for each element.
pub proof fn law_count_says_what_was_sent(
    items: Seq<JsonView>,
    sub_id: Seq<char>,
    filters: Seq<nostr::Filter>,
)
    ensures
        client_message(JsonView::Array(items)) == Ok::<ClientMessageView, Seq<char>>(
            ClientMessageView::Count { sub_id, filters },
        ) <==> {
            &&& 2 <= items.len() <= 12
            &&& items[0] == JsonView::Text("COUNT"@)
            &&& items[1] == JsonView::Text(sub_id)
            &&& 1 <= encode_utf8(sub_id).len() <= 256
            &&& filters.len() == items.len() - 2
            &&& forall|i: int|
                2 <= i < items.len() ==> filter_of_json(#[trigger] items[i]) == Ok::<
                    nostr::Filter,
                    Seq<char>,
                >(filters[i - 2])
        },
{
    lemma_labels_differ();
    if items.len() >= 2 {
        let values = items.skip(2);
        assert(forall|i: int| 2 <= i < items.len() ==> values[i - 2] == #[trigger] items[i]);
        assert(forall|i: int| 0 <= i < values.len() ==> #[trigger] values[i] == items[i + 2]);
        law_filters_are_read_one_for_one(values, filters);
        lemma_text_has_bytes(sub_id);
        if forall|i: int|
            2 <= i < items.len() ==> filter_of_json(#[trigger] items[i]) == Ok::<
                nostr::Filter,
                Seq<char>,
            >(filters[i - 2]) {
            assert forall|i: int| 0 <= i < values.len() implies filter_of_json(
                #[trigger] values[i],
            ) == Ok::<nostr::Filter, Seq<char>>(filters[i]) by {
                assert(filter_of_json(items[i + 2]) == Ok::<nostr::Filter, Seq<char>>(
                    filters[i + 2 - 2],
                ));
            }
        }
    }
}

/// A frame closes a subscription exactly if its label is CLOSE and its second element is
/// that subscription's id.
pub proof fn law_close_names_the_subscription(items: Seq<JsonView>, sub_id: Seq<char>)
    ensures
        client_message(JsonView::Array(items)) == Ok::<ClientMessageView, Seq<char>>(
            ClientMessageView::Close(sub_id),
        ) <==> items.len() >= 2 && items[0] == JsonView::Text("CLOSE"@) && items[1]
            == JsonView::Text(sub_id),
{
    lemma_labels_differ();
}

/// A frame submits an event, or answers a challenge with one, exactly if its label says
/// so and its second element deserializes to that event.
pub proof fn law_event_is_the_one_sent(items: Seq<JsonView>, event: EventView)
    ensures
        client_message(JsonView::Array(items)) == Ok::<ClientMessageView, Seq<char>>(
            ClientMessageView::Event(event),
        ) <==> items.len() >= 2 && items[0] == JsonView::Text("EVENT"@) && event_of_json(items[1])
            == Ok::<EventView, Seq<char>>(event),
        client_message(JsonView::Array(items)) == Ok::<ClientMessageView, Seq<char>>(
            ClientMessageView::Auth(event),
        ) <==> items.len() >= 2 && items[0] == JsonView::Text("AUTH"@) && event_of_json(items[1])
            == Ok::<EventView, Seq<char>>(event),
{
    lemma_labels_differ();
}

/// Frames that are no labelled array, or whose label is unknown, are turned down.
pub proof fn law_unlabelled_frames_are_rejected(raw: Seq<char>, message: Seq<char>)
    ensures
        parsed_json(raw) == Err::<JsonView, Seq<char>>(message) ==> parsed_message(raw) == Err::<
            ClientMessageView,
            Seq<char>,
        >("JSON parse error: "@ + message),
        parsed_json(raw) matches Ok(frame) ==> {
            &&& !(frame is Array) ==> parsed_message(raw) == Err::<ClientMessageView, Seq<char>>(
                "expected JSON array"@,
            )
            &&& frame matches JsonView::Array(items) ==> {
                &&& items.len() == 0 ==> parsed_message(raw) == Err::<
                    ClientMessageView,
                    Seq<char>,
                >("empty array"@)
                &&& items.len() > 0 && !(items[0] is Text) ==> parsed_message(raw) == Err::<
                    ClientMessageView,
                    Seq<char>,
                >("first element must be a string"@)
                &&& items.len() > 0 && items[0] == JsonView::Text(message) && message != "EVENT"@
                    && message != "REQ"@ && message != "COUNT"@ && message != "CLOSE"@ && message
                    != "AUTH"@ ==> parsed_message(raw) == Err::<ClientMessageView, Seq<char>>(
                    "unknown message type: "@ + message,
                )
            }
        },
{
}

/// A frame means what its JSON means, however it is spelled.
pub proof fn law_frames_are_read_by_their_json(raw: Seq<char>, other: Seq<char>, frame: JsonView)
    requires
        parsed_json(raw) == Ok::<JsonView, Seq<char>>(frame),
        parsed_json(other) == Ok::<JsonView, Seq<char>>(frame),
    ensures
        parsed_message(raw) == client_message(frame),
        parsed_message(other) == parsed_message(raw),
{
}

/// What is said of an EVENT, AUTH or CLOSE frame that is turned down.
pub proof fn law_event_and_close_rejections(items: Seq<JsonView>, message: Seq<char>)
    requires
        items.len() > 0,
    ensures
        items[0] == JsonView::Text("EVENT"@) && items.len() == 1 ==> client_message(
            JsonView::Array(items),
        ) == Err::<ClientMessageView, Seq<char>>("EVENT requires event object"@),
        items[0] == JsonView::Text("EVENT"@) && items.len() >= 2 && event_of_json(items[1])
            == Err::<EventView, Seq<char>>(message) ==> client_message(JsonView::Array(items))
            == Err::<ClientMessageView, Seq<char>>("invalid event: "@ + message),
        items[0] == JsonView::Text("AUTH"@) && items.len() == 1 ==> client_message(
            JsonView::Array(items),
        ) == Err::<ClientMessageView, Seq<char>>("AUTH requires event object"@),
        items[0] == JsonView::Text("AUTH"@) && items.len() >= 2 && event_of_json(items[1]) == Err::<
            EventView,
            Seq<char>,
        >(message) ==> client_message(JsonView::Array(items)) == Err::<
            ClientMessageView,
            Seq<char>,
        >("invalid auth event: "@ + message),
        items[0] == JsonView::Text("CLOSE"@) && items.len() == 1 ==> client_message(
            JsonView::Array(items),
        ) == Err::<ClientMessageView, Seq<char>>("CLOSE requires sub_id"@),
        items[0] == JsonView::Text("CLOSE"@) && items.len() >= 2 && !(items[1] is Text)
            ==> client_message(JsonView::Array(items)) == Err::<ClientMessageView, Seq<char>>(
            "CLOSE sub_id must be a string"@,
        ),
{
    lemma_labels_differ();
    reveal_strlit("EVENT");
    reveal_strlit("AUTH");
    reveal_strlit(" requires event object");
    reveal_strlit("EVENT requires event object");
    reveal_strlit("AUTH requires event object");
    assert("EVENT"@ + " requires event object"@ =~= "EVENT requires event object"@);
    assert("AUTH"@ + " requires event object"@ =~= "AUTH requires event object"@);
}

/// The limits as they stand in the rejections.
proof fn lemma_limits_in_words()
    ensures
        decimal(MAX_SUB_ID_LENGTH as nat) == "256"@,
        decimal(MAX_FILTERS_PER_REQ as nat) == "10"@,
{
    reveal_with_fuel(decimal, 4);
    reveal_strlit("256");
    reveal_strlit("10");
    assert(decimal(256) =~= "256"@);
    assert(decimal(10) =~= "10"@);
}

/// What is said of a REQ frame that is turned down, and in which order its elements
/// are looked at.
pub proof fn law_req_rejections(
    items: Seq<JsonView>,
    text: Seq<char>,
    i: int,
    message: Seq<char>,
)
    requires
        items.len() > 0,
        items[0] == JsonView::Text("REQ"@),
    ensures
        items.len() == 1 ==> client_message(JsonView::Array(items)) == Err::<
            ClientMessageView,
            Seq<char>,
        >("REQ requires sub_id"@),
        items.len() >= 2 && !(items[1] is Text) ==> client_message(JsonView::Array(items)) == Err::<
            ClientMessageView,
            Seq<char>,
        >("REQ sub_id must be a string"@),
        items.len() >= 2 && items[1] == JsonView::Text(text) && text.len() == 0 ==> client_message(
            JsonView::Array(items),
        ) == Err::<ClientMessageView, Seq<char>>("REQ sub_id must not be empty"@),
        items.len() >= 2 && items[1] == JsonView::Text(text) && encode_utf8(text).len() > 256
            ==> client_message(JsonView::Array(items)) == Err::<ClientMessageView, Seq<char>>(
            "REQ sub_id exceeds maximum length of 256 bytes"@,
        ),
        items.len() == 2 && items[1] == JsonView::Text(text) && 1 <= encode_utf8(text).len() <= 256
            ==> client_message(JsonView::Array(items)) == Err::<ClientMessageView, Seq<char>>(
            "REQ requires at least one filter"@,
        ),
        items.len() > 12 && items[1] == JsonView::Text(text) && 1 <= encode_utf8(text).len() <= 256
            ==> client_message(JsonView::Array(items)) == Err::<ClientMessageView, Seq<char>>(
            "REQ contains "@ + decimal((items.len() - 2) as nat) + " filters, maximum is 10"@,
        ),
        3 <= items.len() <= 12 && items[1] == JsonView::Text(text) && 1 <= encode_utf8(text).len()
            <= 256 && 2 <= i < items.len() && (forall|k: int|
            2 <= k < i ==> filter_of_json(#[trigger] items[k]) is Ok) && filter_of_json(items[i])
            == Err::<nostr::Filter, Seq<char>>(message) ==> client_message(JsonView::Array(items))
            == Err::<ClientMessageView, Seq<char>>("invalid filter: "@ + message),
        (exists|k: int|
            2 <= k < items.len() && (#[trigger] items[k]) is Object
                && items[k]->Object_0.contains_key("sync_authoritative"@)
                && !(items[k]->Object_0["sync_authoritative"@] is Bool)) && 3 <= items.len() <= 12
            && items[1] == JsonView::Text(text) && 1 <= encode_utf8(text).len() <= 256 && (forall|
            k: int,
        |
            2 <= k < items.len() ==> filter_of_json(#[trigger] items[k]) is Ok) ==> client_message(
            JsonView::Array(items),
        ) == Err::<ClientMessageView, Seq<char>>("sync_authoritative must be a boolean"@),
{
    lemma_labels_differ();
    lemma_text_has_bytes(text);
    lemma_limits_in_words();
    reveal_strlit("REQ");
    reveal_strlit(" requires sub_id");
    reveal_strlit("REQ requires sub_id");
    assert("REQ"@ + " requires sub_id"@ =~= "REQ requires sub_id"@);
    reveal_strlit(" sub_id must be a string");
    reveal_strlit("REQ sub_id must be a string");
    assert("REQ"@ + " sub_id must be a string"@ =~= "REQ sub_id must be a string"@);
    reveal_strlit(" sub_id must not be empty");
    reveal_strlit("REQ sub_id must not be empty");
    assert("REQ"@ + " sub_id must not be empty"@ =~= "REQ sub_id must not be empty"@);
    reveal_strlit(" sub_id exceeds maximum length of ");
    reveal_strlit("256");
    reveal_strlit(" bytes");
    reveal_strlit("REQ sub_id exceeds maximum length of 256 bytes");
    assert("REQ"@ + " sub_id exceeds maximum length of "@ + "256"@ + " bytes"@
        =~= "REQ sub_id exceeds maximum length of 256 bytes"@);
    let given = decimal((items.len() - 2) as nat);
    reveal_strlit(" contains ");
    reveal_strlit("REQ contains ");
    assert("REQ"@ + " contains "@ =~= "REQ contains "@);
    reveal_strlit(" filters, maximum is ");
    reveal_strlit("10");
    reveal_strlit(" filters, maximum is 10");
    assert(" filters, maximum is "@ + "10"@ =~= " filters, maximum is 10"@);
    assert("REQ contains "@ + given + " filters, maximum is "@ + "10"@ =~= "REQ contains "@
        + given + (" filters, maximum is "@ + "10"@));
    if 2 <= i < items.len() && (forall|k: int|
        2 <= k < i ==> filter_of_json(#[trigger] items[k]) is Ok) && filter_of_json(items[i])
        == Err::<nostr::Filter, Seq<char>>(message) {
        let values = items.skip(2);
        assert forall|k: int| 0 <= k < i - 2 implies filter_of_json(#[trigger] values[k]) is Ok by {
            assert(values[k] == items[k + 2]);
        }
        assert(values[i - 2] == items[i]);
        law_first_bad_filter_is_reported(values, i - 2, message);
    }
    if (exists|k: int|
        2 <= k < items.len() && (#[trigger] items[k]) is Object
            && items[k]->Object_0.contains_key("sync_authoritative"@)
            && !(items[k]->Object_0["sync_authoritative"@] is Bool)) && 3 <= items.len() <= 12
        && items[1] == JsonView::Text(text) && 1 <= encode_utf8(text).len() <= 256 && (forall|k: int|
        2 <= k < items.len() ==> filter_of_json(#[trigger] items[k]) is Ok) {
        let values = items.skip(2);
        let filters = Seq::new(values.len(), |k: int| filter_of_json(values[k])->Ok_0);
        assert forall|k: int| 0 <= k < values.len() implies filter_of_json(#[trigger] values[k])
            == Ok::<nostr::Filter, Seq<char>>(filters[k]) by {
            assert(values[k] == items[k + 2]);
        }
        law_filters_are_read_one_for_one(values, filters);
        let k = choose|k: int|
            2 <= k < items.len() && (#[trigger] items[k]) is Object
                && items[k]->Object_0.contains_key("sync_authoritative"@)
                && !(items[k]->Object_0["sync_authoritative"@] is Bool);
        assert(values[k - 2] == items[k]);
        assert(misstates_sync(values[k - 2]));
    }
}

/// What is said of a COUNT frame that is turned down, and in which order its elements
/// are looked at.
pub proof fn law_count_rejections(
    items: Seq<JsonView>,
    text: Seq<char>,
    i: int,
    message: Seq<char>,
)
    requires
        items.len() > 0,
        items[0] == JsonView::Text("COUNT"@),
    ensures
        items.len() == 1 ==> client_message(JsonView::Array(items)) == Err::<
            ClientMessageView,
            Seq<char>,
        >("COUNT requires sub_id"@),
        items.len() >= 2 && !(items[1] is Text) ==> client_message(JsonView::Array(items)) == Err::<
            ClientMessageView,
            Seq<char>,
        >("COUNT sub_id must be a string"@),
        items.len() >= 2 && items[1] == JsonView::Text(text) && text.len() == 0 ==> client_message(
            JsonView::Array(items),
        ) == Err::<ClientMessageView, Seq<char>>("COUNT sub_id must not be empty"@),
        items.len() >= 2 && items[1] == JsonView::Text(text) && encode_utf8(text).len() > 256
            ==> client_message(JsonView::Array(items)) == Err::<ClientMessageView, Seq<char>>(
            "COUNT sub_id exceeds maximum length of 256 bytes"@,
        ),
        items.len() > 12 && items[1] == JsonView::Text(text) && 1 <= encode_utf8(text).len() <= 256
            ==> client_message(JsonView::Array(items)) == Err::<ClientMessageView, Seq<char>>(
            "COUNT contains "@ + decimal((items.len() - 2) as nat) + " filters, maximum is 10"@,
        ),
        2 <= items.len() <= 12 && items[1] == JsonView::Text(text) && 1 <= encode_utf8(text).len()
            <= 256 && 2 <= i < items.len() && (forall|k: int|
            2 <= k < i ==> filter_of_json(#[trigger] items[k]) is Ok) && filter_of_json(items[i])
            == Err::<nostr::Filter, Seq<char>>(message) ==> client_message(JsonView::Array(items))
            == Err::<ClientMessageView, Seq<char>>("invalid filter: "@ + message),
{
    lemma_labels_differ();
    lemma_text_has_bytes(text);
    lemma_limits_in_words();
    reveal_strlit("COUNT");
    reveal_strlit(" requires sub_id");
    reveal_strlit("COUNT requires sub_id");
    assert("COUNT"@ + " requires sub_id"@ =~= "COUNT requires sub_id"@);
    reveal_strlit(" sub_id must be a string");
    reveal_strlit("COUNT sub_id must be a string");
    assert("COUNT"@ + " sub_id must be a string"@ =~= "COUNT sub_id must be a string"@);
    reveal_strlit(" sub_id must not be empty");
    reveal_strlit("COUNT sub_id must not be empty");
    assert("COUNT"@ + " sub_id must not be empty"@ =~= "COUNT sub_id must not be empty"@);
    reveal_strlit(" sub_id exceeds maximum length of ");
    reveal_strlit("256");
    reveal_strlit(" bytes");
    reveal_strlit("COUNT sub_id exceeds maximum length of 256 bytes");
    assert("COUNT"@ + " sub_id exceeds maximum length of "@ + "256"@ + " bytes"@
        =~= "COUNT sub_id exceeds maximum length of 256 bytes"@);
    let given = decimal((items.len() - 2) as nat);
    reveal_strlit(" contains ");
    reveal_strlit("COUNT contains ");
    assert("COUNT"@ + " contains "@ =~= "COUNT contains "@);
    reveal_strlit(" filters, maximum is ");
    reveal_strlit("10");
    reveal_strlit(" filters, maximum is 10");
    assert(" filters, maximum is "@ + "10"@ =~= " filters, maximum is 10"@);
    assert("COUNT contains "@ + given + " filters, maximum is "@ + "10"@ =~= "COUNT contains "@
        + given + (" filters, maximum is "@ + "10"@));
    if 2 <= i < items.len() && (forall|k: int|
        2 <= k < i ==> filter_of_json(#[trigger] items[k]) is Ok) && filter_of_json(items[i])
        == Err::<nostr::Filter, Seq<char>>(message) {
        let values = items.skip(2);
        assert forall|k: int| 0 <= k < i - 2 implies filter_of_json(#[trigger] values[k]) is Ok by {
            assert(values[k] == items[k + 2]);
        }
        assert(values[i - 2] == items[i]);
        law_first_bad_filter_is_reported(values, i - 2, message);
    }
}

/// A relay message reads as a JSON array of its label and what follows it, in order.
pub proof fn law_relay_messages_read_back(
    text: Seq<char>,
    label: Seq<char>,
    rest: Seq<JsonView>,
)
    requires
        carries(text, relay_frame(label, rest)),
    ensures
        parsed_json(text) matches Ok(JsonView::Array(items)) && {
            &&& items.len() == rest.len() + 1
            &&& items[0] == JsonView::Text(label)
            &&& forall|i: int| 0 <= i < rest.len() ==> items[i + 1] == #[trigger] rest[i]
            &&& text == json_text(JsonView::Array(items))
        },
{
}

/// A delivered event is in the third place of an EVENT frame for the subscription.
pub proof fn law_delivery_reads_back(text: Seq<char>, sub_id: Seq<char>, event: EventView)
    requires
        delivers(text, sub_id, event),
    ensures
        parsed_json(text) matches Ok(JsonView::Array(items)) && {
            &&& items.len() == 3
            &&& items[0] == JsonView::Text("EVENT"@)
            &&& items[1] == JsonView::Text(sub_id)
            &&& event_of_json(items[2]) == Ok::<EventView, Seq<char>>(event)
        },
{
}

/// A message says what its fields hold.
pub proof fn law_messages_say_their_fields(message: ClientMessage)
    ensures
        message matches ClientMessage::Event(event) ==> message@ == ClientMessageView::Event(
            event_fields(event),
        ),
        message matches ClientMessage::Auth(event) ==> message@ == ClientMessageView::Auth(
            event_fields(event),
        ),
        message matches ClientMessage::Close(sub_id) ==> message@ == ClientMessageView::Close(
            sub_id@,
        ),
        message matches ClientMessage::Count { sub_id, filters } ==> message@
            == (ClientMessageView::Count { sub_id: sub_id@, filters: filters@ }),
        message matches ClientMessage::Req { sub_id, filters, sync_authoritative } ==> message@ == (
        ClientMessageView::Req { sub_id: sub_id@, filters: filters@, sync_authoritative }),
{
}

/// A parse is judged by the message or the text of the error that it returned.
pub proof fn law_outcome_is_what_was_returned(parsed: Result<ClientMessage, RelayError>)
    ensures
        parsed matches Ok(message) ==> outcome(parsed) == Ok::<ClientMessageView, Seq<char>>(
            message@,
        ),
        parsed matches Err(RelayError::InvalidMessage(text)) ==> outcome(parsed) == Err::<
            ClientMessageView,
            Seq<char>,
        >(text@),
{
}

/// The flag of a REQ is read from its filters: a misstated one is an error, and else any
/// filter that asks for the writer pool pins the read.
pub proof fn law_sync_flag_of_filters(filters: Seq<JsonView>, pinned: bool)
    ensures
        sync_authoritative(filters) == Ok::<bool, Seq<char>>(pinned) <==> {
            &&& forall|i: int|
                0 <= i < filters.len() && (#[trigger] filters[i]) is Object
                    && filters[i]->Object_0.contains_key("sync_authoritative"@)
                    ==> filters[i]->Object_0["sync_authoritative"@] is Bool
            &&& pinned == exists|i: int|
                0 <= i < filters.len() && (#[trigger] filters[i]) is Object
                    && filters[i]->Object_0.contains_key("sync_authoritative"@)
                    && filters[i]->Object_0["sync_authoritative"@] == JsonView::Bool(true)
        },
        sync_authoritative(filters) matches Err(text) ==> text
            == "sync_authoritative must be a boolean"@,
{
    assert forall|i: int| 0 <= i < filters.len() implies misstates_sync(#[trigger] filters[i]) == (
    filters[i] is Object && filters[i]->Object_0.contains_key("sync_authoritative"@)
        && !(filters[i]->Object_0["sync_authoritative"@] is Bool)) by {
    }
    assert forall|i: int| 0 <= i < filters.len() implies asks_for_writer(#[trigger] filters[i]) == (
    filters[i] is Object && filters[i]->Object_0.contains_key("sync_authoritative"@)
        && filters[i]->Object_0["sync_authoritative"@] == JsonView::Bool(true)) by {
    }
    if exists|i: int|
        0 <= i < filters.len() && (#[trigger] filters[i]) is Object
            && filters[i]->Object_0.contains_key("sync_authoritative"@)
            && filters[i]->Object_0["sync_authoritative"@] == JsonView::Bool(true) {
        let i = choose|i: int|
            0 <= i < filters.len() && (#[trigger] filters[i]) is Object
                && filters[i]->Object_0.contains_key("sync_authoritative"@)
                && filters[i]->Object_0["sync_authoritative"@] == JsonView::Bool(true);
        assert(asks_for_writer(filters[i]));
    }
}

} // verus!
