//! Forum messages, thread replies and link-preview suppression, made from events.

use vstd::prelude::*;

use crate::event::copy_tags;
use crate::event::event_fields;
use crate::event::read_event;
use crate::event::EventData;
use crate::event::EventView;
use crate::json::items_view;
use crate::json::members_view;
use crate::json::object_of;
use crate::json::unsigned_number;
use crate::json::Json;
use crate::json::JsonView;
use crate::text::same_text;

pub use vstd::hash_map::StringHashMap;
pub use vstd::hash_set::StringHashSet;

verus! {

/// What is known of the replies to a message.
#[derive(Debug)]
pub struct ThreadSummary {
    pub reply_count: u32,
    pub descendant_count: u32,
    pub last_reply_at: Option<i64>,
    pub participants: Vec<String>,
}

/// A forum message.
#[derive(Debug)]
pub struct ForumMessageInfo {
    pub event_id: String,
    pub pubkey: String,
    pub sig: String,
    pub content: String,
    pub kind: u32,
    pub created_at: i64,
    pub channel_id: String,
    pub tags: Vec<Vec<String>>,
    pub thread_summary: Option<ThreadSummary>,
    pub reactions: Json,
}

/// A reply in a forum thread.
#[derive(Debug)]
pub struct ForumThreadReplyInfo {
    pub event_id: String,
    pub pubkey: String,
    pub sig: String,
    pub content: String,
    pub kind: u32,
    pub created_at: i64,
    pub channel_id: String,
    pub tags: Vec<Vec<String>>,
    pub parent_event_id: Option<String>,
    pub root_event_id: Option<String>,
    pub depth: u32,
    pub broadcast: bool,
    pub reactions: Json,
}

/// Whether nothing is known of any reply.
pub open spec fn no_replies_yet(summary: ThreadSummary) -> bool {
    &&& summary.reply_count == 0
    &&& summary.descendant_count == 0
    &&& summary.last_reply_at is None
    &&& summary.participants@.len() == 0
}

impl ForumMessageInfo {
    /// Whether the message is the event's, in the channel, with no replies yet.
    pub open spec fn shows(self, event: EventView, channel_id: Seq<char>) -> bool {
        &&& self.event_id@ == event.id
        &&& self.pubkey@ == event.pubkey
        &&& self.sig@ == event.sig
        &&& self.content@ == event.content
        &&& self.kind == event.kind
        &&& self.created_at == event.created_at as i64
        &&& self.channel_id@ == channel_id
        &&& self.tags.deep_view() == event.tags
        &&& self.thread_summary matches Some(summary) && no_replies_yet(summary)
        &&& self.reactions@ == JsonView::Null
    }
}

impl ForumThreadReplyInfo {
    /// Whether the reply is the event's, in the channel, and stands in the thread
    /// where the event's tags put it.
    pub open spec fn shows(
        self,
        event: EventView,
        channel_id: Seq<char>,
        root_event_id: Seq<char>,
    ) -> bool {
        let parent = parent_id(event.tags, root_event_id);
        let root = root_id(event.tags, root_event_id);
        &&& self.event_id@ == event.id
        &&& self.pubkey@ == event.pubkey
        &&& self.sig@ == event.sig
        &&& self.content@ == event.content
        &&& self.kind == event.kind
        &&& self.created_at == event.created_at as i64
        &&& self.channel_id@ == channel_id
        &&& self.tags.deep_view() == event.tags
        &&& self.parent_event_id matches Some(id) && id@ == parent
        &&& self.root_event_id matches Some(id) && id@ == root
        &&& self.depth == (if parent == root {
            1u32
        } else {
            2u32
        })
        &&& !self.broadcast
        &&& self.reactions@ == JsonView::Null
    }
}

/// Whether a tag refers to an event.
pub open spec fn is_reference(tag: Seq<Seq<char>>) -> bool {
    tag.len() >= 2 && tag[0] == "e"@
}

/// Whether a tag refers to an event and carries the marker.
pub open spec fn is_marked(tag: Seq<Seq<char>>, marker: Seq<char>) -> bool {
    is_reference(tag) && tag.len() > 3 && tag[3] == marker
}

/// Whether a tag refers to an event without saying whether it is root or parent.
pub open spec fn is_unmarked(tag: Seq<Seq<char>>) -> bool {
    is_reference(tag) && !is_marked(tag, "root"@) && !is_marked(tag, "reply"@)
}

/// The event that the last reference with the marker names.
pub open spec fn last_marked(tags: Seq<Seq<Seq<char>>>, marker: Seq<char>) -> Option<Seq<char>>
    decreases tags.len(),
{
    if tags.len() == 0 {
        None
    } else if is_marked(tags.last(), marker) {
        Some(tags.last()[1])
    } else {
        last_marked(tags.drop_last(), marker)
    }
}

/// The event that the first unmarked reference names.
pub open spec fn first_unmarked(tags: Seq<Seq<Seq<char>>>) -> Option<Seq<char>>
    decreases tags.len(),
{
    if tags.len() == 0 {
        None
    } else {
        match first_unmarked(tags.drop_last()) {
            Some(id) => Some(id),
            None => if is_unmarked(tags.last()) {
                Some(tags.last()[1])
            } else {
                None
            },
        }
    }
}

/// The event that the tags name as the parent: the last reference marked as reply,
/// else the first unmarked one.
pub open spec fn named_parent(tags: Seq<Seq<Seq<char>>>) -> Option<Seq<char>> {
    match last_marked(tags, "reply"@) {
        Some(id) => Some(id),
        None => first_unmarked(tags),
    }
}

/// The parent of a reply: the one that its tags name, else the thread's root event.
pub open spec fn parent_id(tags: Seq<Seq<Seq<char>>>, root_event_id: Seq<char>) -> Seq<char> {
    match named_parent(tags) {
        Some(id) => id,
        None => root_event_id,
    }
}

/// The root of a reply: the last reference marked as root, else the thread's root
/// event.
pub open spec fn root_id(tags: Seq<Seq<Seq<char>>>, root_event_id: Seq<char>) -> Seq<char> {
    match last_marked(tags, "root"@) {
        Some(id) => id,
        None => root_event_id,
    }
}

/// The tags of an event.
fn tags_to_vec(event: &EventData) -> (tags: Vec<Vec<String>>)
    ensures
        tags.deep_view() == event@.tags,
{
    copy_tags(&event.tags)
}

/// The forum message of a signed event.
pub fn forum_message_from_event(event: &nostr::Event, channel_id: &str) -> (info: ForumMessageInfo)
    ensures
        info.shows(event_fields(*event), channel_id@),
{
    forum_message(&read_event(event), channel_id)
}

/// The forum message of an event.
pub fn forum_message(event: &EventData, channel_id: &str) -> (info: ForumMessageInfo)
    ensures
        info.shows(event@, channel_id@),
{
    ForumMessageInfo {
        event_id: event.id.clone(),
        pubkey: event.pubkey.clone(),
        sig: event.sig.clone(),
        content: event.content.clone(),
        kind: event.kind as u32,
        created_at: event.created_at as i64,
        channel_id: channel_id.to_owned(),
        tags: tags_to_vec(event),
        thread_summary: Some(
            ThreadSummary {
                reply_count: 0,
                descendant_count: 0,
                last_reply_at: None,
                participants: Vec::new(),
            },
        ),
        reactions: Json::Null,
    }
}

/// The thread reply of a signed event.
pub fn forum_reply_from_event(
    event: &nostr::Event,
    channel_id: &str,
    root_event_id: &str,
) -> (info: ForumThreadReplyInfo)
    ensures
        info.shows(event_fields(*event), channel_id@, root_event_id@),
        info.parent_event_id is Some && info.root_event_id is Some,
        info.depth == 1 <==> info.parent_event_id.unwrap()@ == info.root_event_id.unwrap()@,
        info.depth == 1 || info.depth == 2,
{
    forum_reply(&read_event(event), channel_id, root_event_id)
}

/// The thread reply of an event.
pub fn forum_reply(
    event: &EventData,
    channel_id: &str,
    root_event_id: &str,
) -> (info: ForumThreadReplyInfo)
    ensures
        info.shows(event@, channel_id@, root_event_id@),
        info.parent_event_id is Some && info.root_event_id is Some,
        info.depth == 1 <==> info.parent_event_id.unwrap()@ == info.root_event_id.unwrap()@,
        info.depth == 1 || info.depth == 2,
{
    let ghost tags = event@.tags;
    let mut named: Option<String> = None;
    let mut explicit_root: Option<String> = None;
    let mut i: usize = 0;
    assert(tags.take(0) =~= Seq::empty());
    while i < event.tags.len()
        invariant
            i <= event.tags@.len(),
            tags == event.tags.deep_view(),
            named.deep_view() == named_parent(tags.take(i as int)),
            explicit_root.deep_view() == last_marked(tags.take(i as int), "root"@),
        decreases event.tags@.len() - i,
    {
        let values = &event.tags[i];
        proof {
            reveal_strlit("root");
            reveal_strlit("reply");
            assert("root"@.len() != "reply"@.len());
            assert(tags.take(i + 1).drop_last() =~= tags.take(i as int));
            assert(tags.take(i + 1).last() == values.deep_view());
        }
        if values.len() >= 2 && same_text(values[0].as_str(), "e") {
            if values.len() > 3 && same_text(values[3].as_str(), "root") {
                explicit_root = Some(values[1].clone());
            } else if values.len() > 3 && same_text(values[3].as_str(), "reply") {
                named = Some(values[1].clone());
            } else if named.is_none() {
                named = Some(values[1].clone());
            }
        }
        i = i + 1;
    }
    assert(tags.take(i as int) =~= tags);
    let parent = match named {
        Some(id) => id,
        None => root_event_id.to_owned(),
    };
    let root = match explicit_root {
        Some(id) => id,
        None => root_event_id.to_owned(),
    };
    let depth: u32 = if same_text(parent.as_str(), root.as_str()) {
        1
    } else {
        2
    };
    ForumThreadReplyInfo {
        event_id: event.id.clone(),
        pubkey: event.pubkey.clone(),
        sig: event.sig.clone(),
        content: event.content.clone(),
        kind: event.kind as u32,
        created_at: event.created_at as i64,
        channel_id: channel_id.to_owned(),
        tags: tags_to_vec(event),
        parent_event_id: Some(parent),
        root_event_id: Some(root),
        depth,
        broadcast: false,
        reactions: Json::Null,
    }
}

/// The kind of an event that edits another.
pub const EDIT_KIND: u16 = 40003;

/// The tag that turns link previews off.
pub open spec fn preview_off_tag() -> Seq<Seq<char>> {
    seq!["link-preview"@, "none"@]
}

/// The event that the first reference names.
pub open spec fn first_reference(tags: Seq<Seq<Seq<char>>>) -> Option<Seq<char>>
    decreases tags.len(),
{
    if tags.len() == 0 {
        None
    } else {
        match first_reference(tags.drop_last()) {
            Some(id) => Some(id),
            None => if is_reference(tags.last()) {
                Some(tags.last()[1])
            } else {
                None
            },
        }
    }
}

/// Where the last event with the id stands.
pub open spec fn last_with_id(events: Seq<EventView>, id: Seq<char>) -> Option<int>
    decreases events.len(),
{
    if events.len() == 0 {
        None
    } else if events.last().id == id {
        Some(events.len() - 1)
    } else {
        last_with_id(events.drop_last(), id)
    }
}

/// The owner on record for each agent, as texts.
pub open spec fn owners_view(owners: Map<Seq<char>, String>) -> Map<Seq<char>, Seq<char>> {
    Map::new(|agent: Seq<char>| owners.contains_key(agent), |agent: Seq<char>| owners[agent]@)
}

/// Whether `owner` is the owner on record for `agent`.
pub open spec fn is_owner(
    owners: Map<Seq<char>, Seq<char>>,
    agent: Seq<char>,
    owner: Seq<char>,
) -> bool {
    owners.contains_key(agent) && owners[agent] == owner
}

/// Whether an edit turns off the link previews of the event with the id.
///
/// It does if it is an edit, carries the tag for it, names that event first, the
/// event is among the originals, and the signer is its author or the author's owner.
pub open spec fn suppresses(
    edit: EventView,
    originals: Seq<EventView>,
    owners: Map<Seq<char>, Seq<char>>,
    id: Seq<char>,
) -> bool {
    &&& edit.kind == EDIT_KIND
    &&& edit.tags.contains(preview_off_tag())
    &&& first_reference(edit.tags) == Some(id)
    &&& last_with_id(originals, id) matches Some(i) && {
        ||| edit.pubkey == originals[i].pubkey
        ||| is_owner(owners, originals[i].pubkey, edit.pubkey)
    }
}

/// The ids of the originals whose link previews some edit turns off.
pub open spec fn suppressed_ids(
    originals: Seq<EventView>,
    edits: Seq<EventView>,
    owners: Map<Seq<char>, Seq<char>>,
) -> Set<Seq<char>> {
    Set::new(
        |id: Seq<char>|
            exists|i: int|
                0 <= i < edits.len() && suppresses(#[trigger] edits[i], originals, owners, id),
    )
}

/// The fields of each of a list of events.
pub open spec fn event_views(events: Seq<EventData>) -> Seq<EventView> {
    Seq::new(events.len(), |i: int| events[i]@)
}

/// The fields of each of a list of signed events.
pub open spec fn signed_views(events: Seq<nostr::Event>) -> Seq<EventView> {
    Seq::new(events.len(), |i: int| event_fields(events[i]))
}

/// Reads the fields of each of a list of signed events.
fn read_events(events: &[nostr::Event]) -> (list: Vec<EventData>)
    ensures
        event_views(list@) == signed_views(events@),
{
    let mut list: Vec<EventData> = Vec::new();
    let mut i: usize = 0;
    while i < events.len()
        invariant
            i <= events@.len(),
            list@.len() == i,
            forall|j: int| 0 <= j < i ==> (#[trigger] list@[j])@ == event_fields(events@[j]),
        decreases events@.len() - i,
    {
        list.push(read_event(&events[i]));
        i = i + 1;
    }
    assert(event_views(list@) =~= signed_views(events@));
    list
}

/// Whether a tag is the one that turns link previews off.
fn turns_previews_off(tag: &Vec<String>) -> (off: bool)
    ensures
        off == (tag.deep_view() == preview_off_tag()),
{
    if tag.len() != 2 {
        assert(tag.deep_view().len() != preview_off_tag().len());
        return false;
    }
    let off = same_text(tag[0].as_str(), "link-preview") && same_text(tag[1].as_str(), "none");
    proof {
        if off {
            assert(tag.deep_view() =~= preview_off_tag());
        } else {
            assert(tag.deep_view()[0] != preview_off_tag()[0] || tag.deep_view()[1]
                != preview_off_tag()[1]);
        }
    }
    off
}

/// Whether a list of tags holds the one that turns link previews off.
fn has_previews_off(tags: &Vec<Vec<String>>) -> (off: bool)
    ensures
        off == tags.deep_view().contains(preview_off_tag()),
{
    let mut i: usize = 0;
    while i < tags.len()
        invariant
            i <= tags@.len(),
            forall|j: int| 0 <= j < i ==> (#[trigger] tags.deep_view()[j]) != preview_off_tag(),
        decreases tags@.len() - i,
    {
        assert(tags.deep_view()[i as int] == tags@[i as int].deep_view());
        if turns_previews_off(&tags[i]) {
            return true;
        }
        i = i + 1;
    }
    false
}

/// The event that the first reference among the tags names.
fn edit_target(tags: &Vec<Vec<String>>) -> (target: Option<&String>)
    ensures
        match target {
            Some(id) => first_reference(tags.deep_view()) == Some(id@),
            None => first_reference(tags.deep_view()) is None,
        },
{
    let ghost views = tags.deep_view();
    let mut i: usize = 0;
    assert(views.take(0) =~= Seq::empty());
    while i < tags.len()
        invariant
            i <= tags@.len(),
            views == tags.deep_view(),
            first_reference(views.take(i as int)) is None,
        decreases tags@.len() - i,
    {
        let values = &tags[i];
        proof {
            assert(views.take(i + 1).drop_last() =~= views.take(i as int));
            assert(views.take(i + 1).last() == values.deep_view());
        }
        if values.len() >= 2 && same_text(values[0].as_str(), "e") {
            proof {
                lemma_first_reference_stays(views, i + 1);
            }
            return Some(&values[1]);
        }
        i = i + 1;
    }
    assert(views.take(i as int) =~= views);
    None
}

/// Later tags do not change which reference is the first.
proof fn lemma_first_reference_stays(tags: Seq<Seq<Seq<char>>>, n: int)
    requires
        0 <= n <= tags.len(),
        first_reference(tags.take(n)) is Some,
    ensures
        first_reference(tags) == first_reference(tags.take(n)),
    decreases tags.len() - n,
{
    if n == tags.len() {
        assert(tags.take(n) =~= tags);
    } else {
        assert(tags.take(n + 1).drop_last() =~= tags.take(n));
        lemma_first_reference_stays(tags, n + 1);
    }
}

/// Whether an index tells where the last event with each id stands.
spec fn indexes(index: Map<Seq<char>, usize>, events: Seq<EventView>) -> bool {
    forall|id: Seq<char>| #[trigger]
        index.contains_key(id) == (last_with_id(events, id) is Some) && (index.contains_key(id)
            ==> last_with_id(events, id) == Some(index[id] as int) && index[id] < events.len())
}

/// Where the last event with each id stands.
fn index_by_id(events: &[EventData]) -> (index: StringHashMap<usize>)
    ensures
        indexes(index@, event_views(events@)),
{
    let ghost views = event_views(events@);
    let mut index: StringHashMap<usize> = StringHashMap::new();
    let mut i: usize = 0;
    assert(views.take(0) =~= Seq::empty());
    while i < events.len()
        invariant
            i <= events@.len(),
            views == event_views(events@),
            indexes(index@, views.take(i as int)),
        decreases events@.len() - i,
    {
        let ghost before = index@;
        assert(views.take(i + 1).drop_last() =~= views.take(i as int));
        assert(views.take(i + 1).last() == views[i as int]);
        index.insert(events[i].id.clone(), i);
        assert forall|id: Seq<char>| #[trigger]
            index@.contains_key(id) == (last_with_id(views.take(i + 1), id) is Some) && (
            index@.contains_key(id) ==> last_with_id(views.take(i + 1), id) == Some(
                index@[id] as int,
            ) && index@[id] < i + 1) by {
            assert(before.contains_key(id) == (last_with_id(views.take(i as int), id) is Some));
        }
        i = i + 1;
    }
    assert(views.take(i as int) =~= views);
    index
}

/// The ids of the originals whose link previews some signed edit turns off.
pub fn link_preview_suppression_targets(
    originals: &[nostr::Event],
    edits: &[nostr::Event],
    owner_pubkeys: &StringHashMap<String>,
) -> (targets: StringHashSet)
    ensures
        targets@ == suppressed_ids(
            signed_views(originals@),
            signed_views(edits@),
            owners_view(owner_pubkeys@),
        ),
{
    let originals = read_events(originals);
    let edits = read_events(edits);
    suppression_targets(originals.as_slice(), edits.as_slice(), owner_pubkeys)
}

/// The event whose link previews an edit turns off, if it does so for any.
fn suppressed_by(
    edit: &EventData,
    originals: &[EventData],
    originals_by_id: &StringHashMap<usize>,
    owner_pubkeys: &StringHashMap<String>,
) -> (target: Option<String>)
    requires
        indexes(originals_by_id@, event_views(originals@)),
    ensures
        forall|id: Seq<char>| #[trigger]
            suppresses(edit@, event_views(originals@), owners_view(owner_pubkeys@), id) == (
            target.deep_view() == Some(id)),
{
    if edit.kind != EDIT_KIND || !has_previews_off(&edit.tags) {
        return None;
    }
    let target_id = match edit_target(&edit.tags) {
        Some(id) => id,
        None => {
            return None;
        },
    };
    assert(originals_by_id@.contains_key(target_id@) == (last_with_id(
        event_views(originals@),
        target_id@,
    ) is Some));
    let target = match originals_by_id.get(target_id.as_str()) {
        Some(i) => &originals[*i],
        None => {
            return None;
        },
    };
    let allowed = same_text(edit.pubkey.as_str(), target.pubkey.as_str())
        || match owner_pubkeys.get(target.pubkey.as_str()) {
        Some(owner) => same_text(owner.as_str(), edit.pubkey.as_str()),
        None => false,
    };
    if allowed {
        Some(target_id.clone())
    } else {
        None
    }
}

/// The ids of the originals whose link previews some edit turns off.
pub fn suppression_targets(
    originals: &[EventData],
    edits: &[EventData],
    owner_pubkeys: &StringHashMap<String>,
) -> (targets: StringHashSet)
    ensures
        targets@ == suppressed_ids(
            event_views(originals@),
            event_views(edits@),
            owners_view(owner_pubkeys@),
        ),
{
    let ghost views = event_views(originals@);
    let ghost changes = event_views(edits@);
    let originals_by_id = index_by_id(originals);
    let mut targets = StringHashSet::new();
    let mut i: usize = 0;
    assert(targets@ =~= suppressed_ids(views, changes.take(0), owners_view(owner_pubkeys@)));
    while i < edits.len()
        invariant
            i <= edits@.len(),
            views == event_views(originals@),
            changes == event_views(edits@),
            indexes(originals_by_id@, views),
            targets@ == suppressed_ids(views, changes.take(i as int), owners_view(owner_pubkeys@)),
        decreases edits@.len() - i,
    {
        let ghost before = targets@;
        let ghost owners = owners_view(owner_pubkeys@);
        let ghost now = changes.take(i + 1);
        let target = suppressed_by(&edits[i], originals, &originals_by_id, owner_pubkeys);
        let ghost found = target.deep_view();
        if let Some(id) = target {
            targets.insert(id);
        }
        proof {
            assert(now[i as int] == edits@[i as int]@);
            assert forall|id: Seq<char>|
                targets@.contains(id) == suppressed_ids(views, now, owners).contains(id) by {
                assert(targets@.contains(id) == (before.contains(id) || found == Some(id)));
                if before.contains(id) {
                    let j = choose|j: int|
                        0 <= j < i && suppresses(
                            #[trigger] changes.take(i as int)[j],
                            views,
                            owners,
                            id,
                        );
                    assert(now[j] == changes.take(i as int)[j]);
                }
                if suppressed_ids(views, now, owners).contains(id) {
                    let j = choose|j: int|
                        0 <= j < now.len() && suppresses(#[trigger] now[j], views, owners, id);
                    if j < i {
                        assert(now[j] == changes.take(i as int)[j]);
                    }
                }
            }
            assert(targets@ =~= suppressed_ids(views, now, owners));
        }
        i = i + 1;
    }
    assert(changes.take(i as int) =~= changes);
    targets
}

/// Adds the tag that turns link previews off to the tags of a suppressed event.
pub fn apply_link_preview_suppression(
    tags: &mut Vec<Vec<String>>,
    event_id: &str,
    suppressed: &StringHashSet,
)
    ensures
        final(tags).deep_view() == suppressed_tags(
            old(tags).deep_view(),
            suppressed@.contains(event_id@),
        ),
{
    if suppressed.contains(event_id) && !has_previews_off(tags) {
        let ghost before = tags.deep_view();
        let marker = vec!["link-preview".to_owned(), "none".to_owned()];
        assert(marker.deep_view() =~= preview_off_tag());
        tags.push(marker);
        assert(tags.deep_view() =~= before.push(preview_off_tag()));
    }
}

/// The tags of an event once its link previews are turned off, if they are to be.
pub open spec fn suppressed_tags(tags: Seq<Seq<Seq<char>>>, suppressed: bool) -> Seq<
    Seq<Seq<char>>,
> {
    if suppressed && !tags.contains(preview_off_tag()) {
        tags.push(preview_off_tag())
    } else {
        tags
    }
}

/// The texts of a list, each where it first occurs.
pub open spec fn distinct(texts: Seq<Seq<char>>) -> Seq<Seq<char>>
    decreases texts.len(),
{
    if texts.len() == 0 {
        Seq::empty()
    } else {
        let front = distinct(texts.drop_last());
        if front.contains(texts.last()) {
            front
        } else {
            front.push(texts.last())
        }
    }
}

/// The public key of each author of some events, once.
pub open spec fn authors_of(events: Seq<EventView>) -> Seq<Seq<char>> {
    distinct(Seq::new(events.len(), |i: int| events[i].pubkey))
}

/// The filter that asks for the profiles of some authors.
pub open spec fn profile_filter(authors: Seq<Seq<char>>) -> JsonView {
    JsonView::Object(
        Map::empty().insert(
            "kinds"@,
            JsonView::Array(seq![JsonView::Number(unsigned_number(0))]),
        ).insert(
            "authors"@,
            JsonView::Array(Seq::new(authors.len(), |i: int| JsonView::Text(authors[i]))),
        ),
    )
}

/// The public key of each author of some events, once, in the order of their first
/// events.
pub fn author_pubkeys(events: &[EventData]) -> (authors: Vec<String>)
    ensures
        authors.deep_view() == authors_of(event_views(events@)),
{
    let ghost keys = Seq::new(events@.len(), |i: int| event_views(events@)[i].pubkey);
    let mut seen = StringHashSet::new();
    let mut authors: Vec<String> = Vec::new();
    let mut i: usize = 0;
    assert(authors.deep_view() =~= distinct(keys.take(0)));
    while i < events.len()
        invariant
            i <= events@.len(),
            keys == Seq::new(events@.len(), |i: int| event_views(events@)[i].pubkey),
            authors.deep_view() == distinct(keys.take(i as int)),
            forall|key: Seq<char>| #[trigger]
                seen@.contains(key) == authors.deep_view().contains(key),
        decreases events@.len() - i,
    {
        let ghost before = authors.deep_view();
        let ghost known = seen@;
        proof {
            assert(keys.take(i + 1).drop_last() =~= keys.take(i as int));
            assert(keys.take(i + 1).last() == events@[i as int].pubkey@);
            assert(known.contains(events@[i as int].pubkey@) == before.contains(
                events@[i as int].pubkey@,
            ));
        }
        if seen.insert(events[i].pubkey.clone()) {
            authors.push(events[i].pubkey.clone());
            assert(authors.deep_view() =~= before.push(events@[i as int].pubkey@));
        }
        assert forall|key: Seq<char>| #[trigger]
            seen@.contains(key) == authors.deep_view().contains(key) by {
            assert(known.contains(key) == before.contains(key));
            if before.contains(key) {
                let j = before.index_of(key);
                assert(authors.deep_view()[j] == key);
            }
            if key == events@[i as int].pubkey@ && !before.contains(key) {
                assert(authors.deep_view()[before.len() as int] == key);
            }
        }
        i = i + 1;
    }
    assert(keys.take(i as int) =~= keys);
    authors
}

/// The filter that asks for the profiles of the authors of some signed events; none
/// where there is nobody to ask about.
pub fn owner_lookup(events: &[nostr::Event]) -> (filter: Option<Json>)
    ensures
        match filter {
            Some(json) => events@.len() > 0 && json@ == profile_filter(
                authors_of(signed_views(events@)),
            ),
            None => events@.len() == 0,
        },
{
    let list = read_events(events);
    assert(event_views(list@).len() == events@.len());
    owner_lookup_filter(list.as_slice())
}

/// The filter that asks for the profiles of the authors of some events; none where
/// there is nobody to ask about.
pub fn owner_lookup_filter(events: &[EventData]) -> (filter: Option<Json>)
    ensures
        match filter {
            Some(json) => events@.len() > 0 && json@ == profile_filter(
                authors_of(event_views(events@)),
            ),
            None => events@.len() == 0,
        },
{
    let authors = author_pubkeys(events);
    let ghost texts = authors.deep_view();
    proof {
        let keys = Seq::new(events@.len(), |i: int| event_views(events@)[i].pubkey);
        lemma_distinct_empty(keys);
    }
    if authors.len() == 0 {
        return None;
    }
    let mut list: Vec<Json> = Vec::new();
    let mut i: usize = 0;
    while i < authors.len()
        invariant
            i <= authors@.len(),
            list@.len() == i,
            forall|j: int| 0 <= j < i ==> (#[trigger] list@[j])@ == JsonView::Text(authors@[j]@),
        decreases authors@.len() - i,
    {
        list.push(Json::text(authors[i].as_str()));
        i = i + 1;
    }
    let kinds = vec![Json::unsigned(0)];
    let ghost kinds_view = items_view(kinds@);
    let ghost list_view = items_view(list@);
    let members = vec![
        ("kinds".to_owned(), Json::Array(kinds)),
        ("authors".to_owned(), Json::Array(list)),
    ];
    proof {
        assert(kinds_view =~= seq![JsonView::Number(unsigned_number(0))]);
        assert(list_view =~= Seq::new(texts.len(), |i: int| JsonView::Text(texts[i])));
        let pairs = members_view(members@);
        assert(pairs =~= seq![
            ("kinds"@, JsonView::Array(kinds_view)),
            ("authors"@, JsonView::Array(list_view)),
        ]);
        reveal_with_fuel(object_of, 3);
        assert(pairs.drop_last().drop_last() =~= Seq::empty());
    }
    Some(Json::Object(members))
}

/// Without repetitions a list has the same texts.
proof fn lemma_distinct(texts: Seq<Seq<char>>)
    ensures
        distinct(texts).no_duplicates(),
        forall|text: Seq<char>| #[trigger] distinct(texts).contains(text) == texts.contains(text),
    decreases texts.len(),
{
    if texts.len() > 0 {
        let front = distinct(texts.drop_last());
        let last = texts.last();
        lemma_distinct(texts.drop_last());
        assert forall|text: Seq<char>| #[trigger] distinct(texts).contains(text) == texts.contains(
            text,
        ) by {
            if texts.drop_last().contains(text) {
                let i = texts.drop_last().index_of(text);
                assert(texts[i] == text);
            } else if texts.contains(text) {
                let i = texts.index_of(text);
                if i < texts.len() - 1 {
                    assert(texts.drop_last()[i] == text);
                }
            }
            assert(texts[texts.len() - 1] == last);
            if !front.contains(last) {
                if front.contains(text) {
                    let i = front.index_of(text);
                    assert(distinct(texts)[i] == text);
                }
                assert(distinct(texts)[front.len() as int] == last);
            }
            assert(front.contains(text) == texts.drop_last().contains(text));
        }
    }
}

/// Each author is asked for once, and no author is left out.
pub proof fn law_each_author_is_asked_for_once(events: Seq<EventView>)
    ensures
        authors_of(events).no_duplicates(),
        forall|i: int|
            0 <= i < events.len() ==> authors_of(events).contains((#[trigger] events[i]).pubkey),
        forall|key: Seq<char>| #[trigger]
            authors_of(events).contains(key) ==> exists|i: int|
                0 <= i < events.len() && (#[trigger] events[i]).pubkey == key,
{
    let keys = Seq::new(events.len(), |i: int| events[i].pubkey);
    lemma_distinct(keys);
    assert forall|i: int| 0 <= i < events.len() implies authors_of(events).contains(
        (#[trigger] events[i]).pubkey,
    ) by {
        assert(keys[i] == events[i].pubkey);
    }
    assert forall|key: Seq<char>| #[trigger] authors_of(events).contains(key) implies exists|i: int|
        0 <= i < events.len() && (#[trigger] events[i]).pubkey == key by {
        let i = keys.index_of(key);
        assert(events[i].pubkey == key);
    }
}

/// A list has distinct texts exactly if it has texts.
proof fn lemma_distinct_empty(texts: Seq<Seq<char>>)
    ensures
        distinct(texts).len() == 0 <==> texts.len() == 0,
    decreases texts.len(),
{
    if texts.len() > 0 {
        lemma_distinct_empty(texts.drop_last());
        if distinct(texts.drop_last()).len() == 0 {
            assert(!distinct(texts.drop_last()).contains(texts.last()));
        }
    }
}

/// The owner that the last profile of each agent with a valid attestation names.
pub open spec fn attested_owners(profiles: Seq<(Seq<char>, Option<Seq<char>>)>) -> Map<
    Seq<char>,
    Seq<char>,
>
    decreases profiles.len(),
{
    if profiles.len() == 0 {
        Map::empty()
    } else {
        let front = attested_owners(profiles.drop_last());
        match profiles.last().1 {
            Some(owner) => front.insert(profiles.last().0, owner),
            None => front,
        }
    }
}

/// The agent of each profile, with the owner that the profile validly attests.
pub open spec fn profile_views(profiles: Seq<(nostr::Event, Option<String>)>) -> Seq<
    (Seq<char>, Option<Seq<char>>),
> {
    Seq::new(
        profiles.len(),
        |i: int| (event_fields(profiles[i].0).pubkey, profiles[i].1.deep_view()),
    )
}

/// The agents of a list, each with its owner if there is one, as texts.
pub open spec fn pair_views(pairs: Seq<(String, Option<String>)>) -> Seq<
    (Seq<char>, Option<Seq<char>>),
> {
    Seq::new(pairs.len(), |i: int| (pairs[i].0@, pairs[i].1.deep_view()))
}

/// The owner on record for each agent, from the agents' signed profiles: each comes with
/// the owner that it validly attests, if it does.
pub fn owners_of_profiles(profiles: &[(nostr::Event, Option<String>)]) -> (owners: StringHashMap<
    String,
>)
    ensures
        owners_view(owners@) == attested_owners(profile_views(profiles@)),
{
    let mut pairs: Vec<(String, Option<String>)> = Vec::new();
    let mut i: usize = 0;
    while i < profiles.len()
        invariant
            i <= profiles@.len(),
            pairs@.len() == i,
            forall|j: int|
                0 <= j < i ==> #[trigger] pair_views(pairs@)[j] == profile_views(profiles@)[j],
        decreases profiles@.len() - i,
    {
        let ghost before = pairs@;
        let owner = match &profiles[i].1 {
            Some(owner) => Some(owner.clone()),
            None => None,
        };
        pairs.push((read_event(&profiles[i].0).pubkey, owner));
        assert forall|j: int| 0 <= j < i + 1 implies #[trigger] pair_views(pairs@)[j]
            == profile_views(profiles@)[j] by {
            if j < i {
                assert(pair_views(before)[j] == profile_views(profiles@)[j]);
            }
        }
        i = i + 1;
    }
    assert(pair_views(pairs@) =~= profile_views(profiles@));
    collect_owner_pubkeys(pairs.as_slice())
}

/// The owner on record for each agent, from the agents' profiles: each is the
/// agent's public key with the owner that the profile validly attests, if it does.
pub fn collect_owner_pubkeys(profiles: &[(String, Option<String>)]) -> (owners: StringHashMap<
    String,
>)
    ensures
        owners_view(owners@) == attested_owners(pair_views(profiles@)),
{
    let ghost pairs = pair_views(profiles@);
    let mut owners: StringHashMap<String> = StringHashMap::new();
    let mut i: usize = 0;
    assert(owners_view(owners@) =~= attested_owners(pairs.take(0)));
    while i < profiles.len()
        invariant
            i <= profiles@.len(),
            pairs == pair_views(profiles@),
            owners_view(owners@) == attested_owners(pairs.take(i as int)),
        decreases profiles@.len() - i,
    {
        let ghost before = owners@;
        assert(pairs.take(i + 1).drop_last() =~= pairs.take(i as int));
        if let Some(owner) = &profiles[i].1 {
            owners.insert(profiles[i].0.clone(), owner.clone());
            assert(owners_view(owners@) =~= owners_view(before).insert(
                profiles@[i as int].0@,
                owner@,
            ));
        }
        i = i + 1;
    }
    assert(pairs.take(i as int) =~= pairs);
    owners
}

/// Link previews are turned off only for an original, and only by its author or the
/// owner on record for its author.
pub proof fn law_only_author_or_owner_suppresses(
    originals: Seq<EventView>,
    edits: Seq<EventView>,
    owners: Map<Seq<char>, Seq<char>>,
    id: Seq<char>,
)
    requires
        suppressed_ids(originals, edits, owners).contains(id),
    ensures
        exists|i: int, j: int|
            0 <= i < originals.len() && 0 <= j < edits.len() && (#[trigger] originals[i]).id == id
                && ((#[trigger] edits[j]).pubkey == originals[i].pubkey || is_owner(
                owners,
                originals[i].pubkey,
                edits[j].pubkey,
            )),
{
    let j = choose|j: int|
        0 <= j < edits.len() && suppresses(#[trigger] edits[j], originals, owners, id);
    lemma_last_with_id(originals, id);
    let i = last_with_id(originals, id)->0;
    assert(originals[i].id == id && suppresses(edits[j], originals, owners, id));
}

/// An edit by the author of an original, or by the owner on record for that author,
/// turns the link previews of the original off if it carries the tag for it and refers
/// to the original first.
pub proof fn law_author_and_owner_suppress(
    originals: Seq<EventView>,
    edits: Seq<EventView>,
    owners: Map<Seq<char>, Seq<char>>,
    i: int,
    j: int,
)
    requires
        0 <= i < originals.len(),
        forall|k: int| i < k < originals.len() ==> (#[trigger] originals[k]).id != originals[i].id,
        0 <= j < edits.len(),
        edits[j].kind == EDIT_KIND,
        edits[j].tags.contains(preview_off_tag()),
        first_reference(edits[j].tags) == Some(originals[i].id),
        edits[j].pubkey == originals[i].pubkey || is_owner(
            owners,
            originals[i].pubkey,
            edits[j].pubkey,
        ),
    ensures
        suppressed_ids(originals, edits, owners).contains(originals[i].id),
{
    lemma_last_with_id_at(originals, i);
    assert(suppresses(edits[j], originals, owners, originals[i].id));
}

/// An event without a later one of the same id is the last with its id.
proof fn lemma_last_with_id_at(events: Seq<EventView>, i: int)
    requires
        0 <= i < events.len(),
        forall|k: int| i < k < events.len() ==> (#[trigger] events[k]).id != events[i].id,
    ensures
        last_with_id(events, events[i].id) == Some(i),
    decreases events.len(),
{
    if i < events.len() - 1 {
        let front = events.drop_last();
        assert(events[events.len() - 1].id != events[i].id);
        assert(forall|k: int| i < k < front.len() ==> front[k] == events[k]);
        lemma_last_with_id_at(front, i);
    }
}

/// The last event with an id has that id.
proof fn lemma_last_with_id(events: Seq<EventView>, id: Seq<char>)
    ensures
        last_with_id(events, id) matches Some(i) ==> 0 <= i < events.len() && events[i].id == id,
    decreases events.len(),
{
    if events.len() > 0 {
        lemma_last_with_id(events.drop_last(), id);
    }
}

/// Turning link previews off keeps every tag, in its place, leaves the tag for it
/// behind, and done twice is the same as done once.
pub proof fn law_suppression_is_idempotent(tags: Seq<Seq<Seq<char>>>, suppressed: bool)
    ensures
        tags.is_prefix_of(suppressed_tags(tags, suppressed)),
        suppressed ==> suppressed_tags(tags, suppressed).contains(preview_off_tag()),
        suppressed_tags(suppressed_tags(tags, suppressed), suppressed) == suppressed_tags(
            tags,
            suppressed,
        ),
{
    let after = suppressed_tags(tags, suppressed);
    if suppressed && !tags.contains(preview_off_tag()) {
        assert(after.last() == preview_off_tag());
    }
}

/// A reference marked as reply, with no such reference after it, names the parent,
/// whatever unmarked references there are.
pub proof fn law_reply_marker_names_the_parent(
    tags: Seq<Seq<Seq<char>>>,
    root_event_id: Seq<char>,
    i: int,
)
    requires
        0 <= i < tags.len(),
        is_marked(tags[i], "reply"@),
        forall|j: int| i < j < tags.len() ==> !is_marked(#[trigger] tags[j], "reply"@),
    ensures
        parent_id(tags, root_event_id) == tags[i][1],
{
    lemma_last_marked(tags, "reply"@, i);
}

/// A reference marked as root, with no such reference after it, names the root.
pub proof fn law_root_marker_names_the_root(
    tags: Seq<Seq<Seq<char>>>,
    root_event_id: Seq<char>,
    i: int,
)
    requires
        0 <= i < tags.len(),
        is_marked(tags[i], "root"@),
        forall|j: int| i < j < tags.len() ==> !is_marked(#[trigger] tags[j], "root"@),
    ensures
        root_id(tags, root_event_id) == tags[i][1],
{
    lemma_last_marked(tags, "root"@, i);
}

/// A reply whose tags refer to no event hangs directly under the thread's root.
pub proof fn law_bare_reply_hangs_under_the_root(
    tags: Seq<Seq<Seq<char>>>,
    root_event_id: Seq<char>,
)
    requires
        forall|i: int| 0 <= i < tags.len() ==> !is_reference(#[trigger] tags[i]),
    ensures
        parent_id(tags, root_event_id) == root_event_id,
        root_id(tags, root_event_id) == root_event_id,
{
    lemma_none_named(tags);
}

proof fn lemma_last_marked(tags: Seq<Seq<Seq<char>>>, marker: Seq<char>, i: int)
    requires
        0 <= i < tags.len(),
        is_marked(tags[i], marker),
        forall|j: int| i < j < tags.len() ==> !is_marked(#[trigger] tags[j], marker),
    ensures
        last_marked(tags, marker) == Some(tags[i][1]),
    decreases tags.len(),
{
    if i < tags.len() - 1 {
        let front = tags.drop_last();
        assert(forall|j: int| i < j < front.len() ==> front[j] == tags[j]);
        assert(!is_marked(tags[tags.len() - 1], marker));
        lemma_last_marked(front, marker, i);
    }
}

proof fn lemma_none_named(tags: Seq<Seq<Seq<char>>>)
    requires
        forall|i: int| 0 <= i < tags.len() ==> !is_reference(#[trigger] tags[i]),
    ensures
        first_unmarked(tags) is None,
        last_marked(tags, "reply"@) is None,
        last_marked(tags, "root"@) is None,
    decreases tags.len(),
{
    if tags.len() > 0 {
        let front = tags.drop_last();
        assert(forall|i: int| 0 <= i < front.len() ==> front[i] == tags[i]);
        assert(!is_reference(tags[tags.len() - 1]));
        lemma_none_named(front);
    }
}

/// A forum message has the fields of its event, stands in the channel that it was asked
/// for, and knows of no replies and no reactions.
pub proof fn law_message_has_the_fields_of_its_event(
    info: ForumMessageInfo,
    event: EventView,
    channel_id: Seq<char>,
)
    requires
        info.shows(event, channel_id),
    ensures
        info.event_id@ == event.id,
        info.pubkey@ == event.pubkey,
        info.sig@ == event.sig,
        info.content@ == event.content,
        info.kind == event.kind,
        info.created_at == event.created_at as i64,
        info.channel_id@ == channel_id,
        info.tags.deep_view() == event.tags,
        info.thread_summary matches Some(summary) && summary.reply_count == 0
            && summary.descendant_count == 0 && summary.last_reply_at is None
            && summary.participants@.len() == 0,
        info.reactions is Null,
{
}

/// A reply has the fields of its event, stands in the channel that it was asked for, and
/// is neither broadcast nor reacted to.
pub proof fn law_reply_has_the_fields_of_its_event(
    info: ForumThreadReplyInfo,
    event: EventView,
    channel_id: Seq<char>,
    root_event_id: Seq<char>,
)
    requires
        info.shows(event, channel_id, root_event_id),
    ensures
        info.event_id@ == event.id,
        info.pubkey@ == event.pubkey,
        info.sig@ == event.sig,
        info.content@ == event.content,
        info.kind == event.kind,
        info.created_at == event.created_at as i64,
        info.channel_id@ == channel_id,
        info.tags.deep_view() == event.tags,
        !info.broadcast,
        info.reactions is Null,
{
}

/// A reply is at depth one exactly if its parent is its root, and else at depth two.
pub proof fn law_depth_tells_whether_the_parent_is_the_root(
    info: ForumThreadReplyInfo,
    event: EventView,
    channel_id: Seq<char>,
    root_event_id: Seq<char>,
)
    requires
        info.shows(event, channel_id, root_event_id),
    ensures
        info.parent_event_id is Some,
        info.root_event_id is Some,
        info.depth == 1 <==> info.parent_event_id.unwrap()@ == info.root_event_id.unwrap()@,
        info.depth == 2 <==> info.parent_event_id.unwrap()@ != info.root_event_id.unwrap()@,
{
}

/// The parent of a reply is what its last `e` tag marked as reply names; without one,
/// what its first `e` tag marked neither as root nor as reply names; and without that,
/// the event that the thread was opened with.
pub proof fn law_parent_of_a_reply(
    info: ForumThreadReplyInfo,
    event: EventView,
    channel_id: Seq<char>,
    root_event_id: Seq<char>,
    i: int,
)
    requires
        info.shows(event, channel_id, root_event_id),
    ensures
        info.parent_event_id is Some,
        0 <= i < event.tags.len() && event.tags[i].len() >= 4 && event.tags[i][0] == "e"@
            && event.tags[i][3] == "reply"@ && (forall|j: int|
            i < j < event.tags.len() ==> !((#[trigger] event.tags[j]).len() >= 4 && event.tags[j][0]
                == "e"@ && event.tags[j][3] == "reply"@)) ==> info.parent_event_id.unwrap()@
            == event.tags[i][1],
        (forall|j: int|
            0 <= j < event.tags.len() ==> !((#[trigger] event.tags[j]).len() >= 4 && event.tags[j][0]
                == "e"@ && event.tags[j][3] == "reply"@)) && 0 <= i < event.tags.len()
            && event.tags[i].len() >= 2 && event.tags[i][0] == "e"@ && !(event.tags[i].len() >= 4
            && event.tags[i][3] == "root"@) && (forall|j: int|
            0 <= j < i ==> !((#[trigger] event.tags[j]).len() >= 2 && event.tags[j][0] == "e"@ && !(
            event.tags[j].len() >= 4 && event.tags[j][3] == "root"@)))
            ==> info.parent_event_id.unwrap()@ == event.tags[i][1],
        (forall|j: int|
            0 <= j < event.tags.len() ==> !((#[trigger] event.tags[j]).len() >= 2 && event.tags[j][0]
                == "e"@ && !(event.tags[j].len() >= 4 && event.tags[j][3] == "root"@)))
            ==> info.parent_event_id.unwrap()@ == root_event_id,
{
    let tags = event.tags;
    reveal_strlit("root");
    reveal_strlit("reply");
    assert("root"@.len() != "reply"@.len());
    if 0 <= i < tags.len() && tags[i].len() >= 4 && tags[i][0] == "e"@ && tags[i][3] == "reply"@ && (
    forall|j: int|
        i < j < tags.len() ==> !((#[trigger] tags[j]).len() >= 4 && tags[j][0] == "e"@ && tags[j][3]
            == "reply"@)) {
        lemma_last_marked(tags, "reply"@, i);
    }
    if forall|j: int|
        0 <= j < tags.len() ==> !((#[trigger] tags[j]).len() >= 4 && tags[j][0] == "e"@ && tags[j][3]
            == "reply"@) {
        lemma_none_marked(tags, "reply"@);
        if 0 <= i < tags.len() && tags[i].len() >= 2 && tags[i][0] == "e"@ && !(tags[i].len() >= 4
            && tags[i][3] == "root"@) && (forall|j: int|
            0 <= j < i ==> !((#[trigger] tags[j]).len() >= 2 && tags[j][0] == "e"@ && !(
            tags[j].len() >= 4 && tags[j][3] == "root"@))) {
            lemma_first_unmarked(tags, i);
        }
    }
    if forall|j: int|
        0 <= j < tags.len() ==> !((#[trigger] tags[j]).len() >= 2 && tags[j][0] == "e"@ && !(
        tags[j].len() >= 4 && tags[j][3] == "root"@)) {
        lemma_none_marked(tags, "reply"@);
        lemma_none_unmarked(tags);
    }
}

/// The root of a reply is what its last `e` tag marked as root names, and without one
/// the event that the thread was opened with.
pub proof fn law_root_of_a_reply(
    info: ForumThreadReplyInfo,
    event: EventView,
    channel_id: Seq<char>,
    root_event_id: Seq<char>,
    i: int,
)
    requires
        info.shows(event, channel_id, root_event_id),
    ensures
        info.root_event_id is Some,
        0 <= i < event.tags.len() && event.tags[i].len() >= 4 && event.tags[i][0] == "e"@
            && event.tags[i][3] == "root"@ && (forall|j: int|
            i < j < event.tags.len() ==> !((#[trigger] event.tags[j]).len() >= 4 && event.tags[j][0]
                == "e"@ && event.tags[j][3] == "root"@)) ==> info.root_event_id.unwrap()@
            == event.tags[i][1],
        (forall|j: int|
            0 <= j < event.tags.len() ==> !((#[trigger] event.tags[j]).len() >= 4 && event.tags[j][0]
                == "e"@ && event.tags[j][3] == "root"@)) ==> info.root_event_id.unwrap()@
            == root_event_id,
{
    let tags = event.tags;
    if 0 <= i < tags.len() && tags[i].len() >= 4 && tags[i][0] == "e"@ && tags[i][3] == "root"@ && (
    forall|j: int|
        i < j < tags.len() ==> !((#[trigger] tags[j]).len() >= 4 && tags[j][0] == "e"@ && tags[j][3]
            == "root"@)) {
        lemma_last_marked(tags, "root"@, i);
    }
    if forall|j: int|
        0 <= j < tags.len() ==> !((#[trigger] tags[j]).len() >= 4 && tags[j][0] == "e"@ && tags[j][3]
            == "root"@) {
        lemma_none_marked(tags, "root"@);
    }
}

proof fn lemma_none_marked(tags: Seq<Seq<Seq<char>>>, marker: Seq<char>)
    requires
        forall|i: int| 0 <= i < tags.len() ==> !is_marked(#[trigger] tags[i], marker),
    ensures
        last_marked(tags, marker) is None,
    decreases tags.len(),
{
    if tags.len() > 0 {
        let front = tags.drop_last();
        assert(forall|i: int| 0 <= i < front.len() ==> front[i] == tags[i]);
        assert(!is_marked(tags[tags.len() - 1], marker));
        lemma_none_marked(front, marker);
    }
}

proof fn lemma_none_unmarked(tags: Seq<Seq<Seq<char>>>)
    requires
        forall|i: int| 0 <= i < tags.len() ==> !is_unmarked(#[trigger] tags[i]),
    ensures
        first_unmarked(tags) is None,
    decreases tags.len(),
{
    if tags.len() > 0 {
        let front = tags.drop_last();
        assert(forall|i: int| 0 <= i < front.len() ==> front[i] == tags[i]);
        assert(!is_unmarked(tags[tags.len() - 1]));
        lemma_none_unmarked(front);
    }
}

proof fn lemma_first_unmarked(tags: Seq<Seq<Seq<char>>>, i: int)
    requires
        0 <= i < tags.len(),
        is_unmarked(tags[i]),
        forall|j: int| 0 <= j < i ==> !is_unmarked(#[trigger] tags[j]),
    ensures
        first_unmarked(tags) == Some(tags[i][1]),
    decreases tags.len(),
{
    let front = tags.drop_last();
    assert(forall|j: int| 0 <= j < front.len() ==> front[j] == tags[j]);
    if i < tags.len() - 1 {
        lemma_first_unmarked(front, i);
    } else {
        lemma_none_unmarked(front);
    }
}

proof fn lemma_first_reference(tags: Seq<Seq<Seq<char>>>)
    ensures
        match first_reference(tags) {
            Some(id) => exists|i: int|
                0 <= i < tags.len() && (#[trigger] tags[i]).len() >= 2 && tags[i][0] == "e"@
                    && tags[i][1] == id && forall|j: int|
                    0 <= j < i ==> !((#[trigger] tags[j]).len() >= 2 && tags[j][0] == "e"@),
            None => forall|j: int|
                0 <= j < tags.len() ==> !((#[trigger] tags[j]).len() >= 2 && tags[j][0] == "e"@),
        },
    decreases tags.len(),
{
    if tags.len() > 0 {
        let front = tags.drop_last();
        assert(forall|j: int| 0 <= j < front.len() ==> front[j] == tags[j]);
        lemma_first_reference(front);
        match first_reference(front) {
            Some(id) => {
                let i = choose|i: int|
                    0 <= i < front.len() && (#[trigger] front[i]).len() >= 2 && front[i][0] == "e"@
                        && front[i][1] == id && forall|j: int|
                        0 <= j < i ==> !((#[trigger] front[j]).len() >= 2 && front[j][0] == "e"@);
                assert(tags[i] == front[i]);
                assert forall|j: int| 0 <= j < i implies !((#[trigger] tags[j]).len() >= 2
                    && tags[j][0] == "e"@) by {
                    assert(front[j] == tags[j]);
                }
            },
            None => {
                let last = tags.len() - 1;
                assert forall|j: int| 0 <= j < last implies !((#[trigger] tags[j]).len() >= 2
                    && tags[j][0] == "e"@) by {
                    assert(front[j] == tags[j]);
                }
                assert(tags[last] == tags.last());
            },
        }
    }
}

/// Previews of an event are turned off only by a kind 40003 edit that carries the tag
/// `["link-preview", "none"]`, whose first `e` tag with a value names the event, and whose
/// signer is the author of the last original of that id or that author's owner on record.
pub proof fn law_suppressed_by_a_marked_edit_only(
    originals: Seq<EventView>,
    edits: Seq<EventView>,
    owners: Map<Seq<char>, Seq<char>>,
    id: Seq<char>,
) -> (found: (int, int, int))
    requires
        suppressed_ids(originals, edits, owners).contains(id),
    ensures
        ({
            let (i, j, k) = found;
            &&& 0 <= i < originals.len()
            &&& originals[i].id == id
            &&& forall|l: int| i < l < originals.len() ==> (#[trigger] originals[l]).id != id
            &&& 0 <= j < edits.len()
            &&& edits[j].kind == 40003
            &&& edits[j].tags.contains(seq!["link-preview"@, "none"@])
            &&& 0 <= k < edits[j].tags.len()
            &&& edits[j].tags[k].len() >= 2
            &&& edits[j].tags[k][0] == "e"@
            &&& edits[j].tags[k][1] == id
            &&& forall|l: int|
                0 <= l < k ==> !((#[trigger] edits[j].tags[l]).len() >= 2 && edits[j].tags[l][0]
                    == "e"@)
            &&& edits[j].pubkey == originals[i].pubkey || (owners.contains_key(originals[i].pubkey)
                && owners[originals[i].pubkey] == edits[j].pubkey)
        }),
{
    let j = choose|j: int|
        0 <= j < edits.len() && suppresses(#[trigger] edits[j], originals, owners, id);
    let tags = edits[j].tags;
    lemma_first_reference(tags);
    let k = choose|k: int|
        0 <= k < tags.len() && (#[trigger] tags[k]).len() >= 2 && tags[k][0] == "e"@ && tags[k][1]
            == id && forall|l: int|
            0 <= l < k ==> !((#[trigger] tags[l]).len() >= 2 && tags[l][0] == "e"@);
    lemma_last_with_id(originals, id);
    lemma_none_after_last(originals, id);
    (last_with_id(originals, id)->0, j, k)
}

proof fn lemma_none_after_last(events: Seq<EventView>, id: Seq<char>)
    requires
        last_with_id(events, id) is Some,
    ensures
        forall|l: int|
            last_with_id(events, id)->0 < l < events.len() ==> (#[trigger] events[l]).id != id,
    decreases events.len(),
{
    if events.last().id != id {
        let front = events.drop_last();
        lemma_none_after_last(front, id);
        lemma_last_with_id(front, id);
        assert forall|l: int| last_with_id(events, id)->0 < l < events.len() implies (
        #[trigger] events[l]).id != id by {
            if l < front.len() {
                assert(front[l] == events[l]);
            }
        }
    }
}

/// Previews of an event are turned off by every kind 40003 edit that carries the tag
/// `["link-preview", "none"]`, whose first `e` tag with a value names the event, and whose
/// signer is the author of the last original of that id or that author's owner on record.
pub proof fn law_marked_edit_suppresses(
    originals: Seq<EventView>,
    edits: Seq<EventView>,
    owners: Map<Seq<char>, Seq<char>>,
    i: int,
    j: int,
    k: int,
)
    requires
        0 <= i < originals.len(),
        forall|l: int| i < l < originals.len() ==> (#[trigger] originals[l]).id != originals[i].id,
        0 <= j < edits.len(),
        edits[j].kind == 40003,
        edits[j].tags.contains(seq!["link-preview"@, "none"@]),
        0 <= k < edits[j].tags.len(),
        edits[j].tags[k].len() >= 2,
        edits[j].tags[k][0] == "e"@,
        edits[j].tags[k][1] == originals[i].id,
        forall|l: int|
            0 <= l < k ==> !((#[trigger] edits[j].tags[l]).len() >= 2 && edits[j].tags[l][0]
                == "e"@),
        edits[j].pubkey == originals[i].pubkey || (owners.contains_key(originals[i].pubkey)
            && owners[originals[i].pubkey] == edits[j].pubkey),
    ensures
        suppressed_ids(originals, edits, owners).contains(originals[i].id),
{
    let tags = edits[j].tags;
    lemma_first_reference(tags);
    match first_reference(tags) {
        Some(id) => {
            let m = choose|m: int|
                0 <= m < tags.len() && (#[trigger] tags[m]).len() >= 2 && tags[m][0] == "e"@
                    && tags[m][1] == id && forall|l: int|
                    0 <= l < m ==> !((#[trigger] tags[l]).len() >= 2 && tags[l][0] == "e"@);
            if k < m {
                assert(!(tags[k].len() >= 2 && tags[k][0] == "e"@));
            }
            if m < k {
                assert(!(tags[m].len() >= 2 && tags[m][0] == "e"@));
            }
        },
        None => {
            assert(!(tags[k].len() >= 2 && tags[k][0] == "e"@));
        },
    }
    law_author_and_owner_suppress(originals, edits, owners, i, j);
}

/// The tags of an event that nobody suppressed stay as they are; those of a suppressed
/// one get the tag `["link-preview", "none"]` at the end, unless they have it.
pub proof fn law_only_suppressed_events_are_marked(tags: Seq<Seq<Seq<char>>>)
    ensures
        suppressed_tags(tags, false) == tags,
        tags.contains(seq!["link-preview"@, "none"@]) ==> suppressed_tags(tags, true) == tags,
        !tags.contains(seq!["link-preview"@, "none"@]) ==> suppressed_tags(tags, true)
            == tags.push(seq!["link-preview"@, "none"@]),
{
}

/// The owners on record are those of the map, as texts.
pub proof fn law_owners_are_those_of_the_map(owners: Map<Seq<char>, String>)
    ensures
        owners_view(owners).dom() == owners.dom(),
        forall|agent: Seq<char>| #[trigger]
            owners.contains_key(agent) ==> owners_view(owners)[agent] == owners[agent]@,
{
    assert(owners_view(owners).dom() =~= owners.dom());
}

/// Lists of events, profiles and owners are read one for one and in order.
pub proof fn law_lists_are_read_one_for_one(
    events: Seq<EventData>,
    signed: Seq<nostr::Event>,
    profiles: Seq<(nostr::Event, Option<String>)>,
    pairs: Seq<(String, Option<String>)>,
)
    ensures
        event_views(events).len() == events.len(),
        forall|i: int| 0 <= i < events.len() ==> event_views(events)[i] == (#[trigger] events[i])@,
        signed_views(signed).len() == signed.len(),
        forall|i: int|
            0 <= i < signed.len() ==> signed_views(signed)[i] == event_fields(#[trigger] signed[i]),
        profile_views(profiles).len() == profiles.len(),
        forall|i: int|
            0 <= i < profiles.len() ==> profile_views(profiles)[i].0 == event_fields(
                (#[trigger] profiles[i]).0,
            ).pubkey && profile_views(profiles)[i].1 == (match profiles[i].1 {
                Some(owner) => Some(owner@),
                None => None,
            }),
        pair_views(pairs).len() == pairs.len(),
        forall|i: int|
            0 <= i < pairs.len() ==> pair_views(pairs)[i].0 == (#[trigger] pairs[i]).0@
                && pair_views(pairs)[i].1 == (match pairs[i].1 {
                Some(owner) => Some(owner@),
                None => None,
            }),
{
}

/// Every agent with an attested profile has an owner on record, the one that its last
/// attested profile names.
pub proof fn law_last_attested_profile_names_the_owner(
    profiles: Seq<(Seq<char>, Option<Seq<char>>)>,
    i: int,
)
    requires
        0 <= i < profiles.len(),
        profiles[i].1 is Some,
        forall|j: int|
            i < j < profiles.len() && (#[trigger] profiles[j]).1 is Some ==> profiles[j].0
                != profiles[i].0,
    ensures
        attested_owners(profiles).contains_key(profiles[i].0),
        attested_owners(profiles)[profiles[i].0] == profiles[i].1.unwrap(),
    decreases profiles.len(),
{
    if i < profiles.len() - 1 {
        let front = profiles.drop_last();
        assert(forall|j: int| 0 <= j < front.len() ==> front[j] == profiles[j]);
        assert(profiles.last() == profiles[profiles.len() - 1]);
        law_last_attested_profile_names_the_owner(front, i);
    }
}

/// No agent has an owner on record that no profile of it attests.
pub proof fn law_no_owner_without_an_attested_profile(
    profiles: Seq<(Seq<char>, Option<Seq<char>>)>,
    agent: Seq<char>,
)
    requires
        attested_owners(profiles).contains_key(agent),
    ensures
        exists|i: int|
            0 <= i < profiles.len() && (#[trigger] profiles[i]).0 == agent && profiles[i].1 == Some(
                attested_owners(profiles)[agent],
            ),
    decreases profiles.len(),
{
    if profiles.len() > 0 {
        let front = profiles.drop_last();
        let last = profiles.len() - 1;
        if profiles[last].1 is Some && profiles[last].0 == agent {
            assert(profiles[last].1 == Some(attested_owners(profiles)[agent]));
        } else {
            law_no_owner_without_an_attested_profile(front, agent);
            let i = choose|i: int|
                0 <= i < front.len() && (#[trigger] front[i]).0 == agent && front[i].1 == Some(
                    attested_owners(front)[agent],
                );
            assert(profiles[i] == front[i]);
        }
    }
}

/// The filter that is sent asks for the profiles, kind 0, of exactly the given authors.
pub proof fn law_profile_filter_asks_for_the_authors(authors: Seq<Seq<char>>)
    ensures
        profile_filter(authors) matches JsonView::Object(members) && {
            &&& members.dom() == set!["kinds"@, "authors"@]
            &&& members["kinds"@] == JsonView::Array(
                seq![JsonView::Number(unsigned_number(0))],
            )
            &&& members["authors"@] matches JsonView::Array(items) && items.len() == authors.len()
                && forall|i: int|
                0 <= i < authors.len() ==> items[i] == JsonView::Text(#[trigger] authors[i])
        },
{
    reveal_strlit("kinds");
    reveal_strlit("authors");
    assert("kinds"@.len() != "authors"@.len());
    assert(profile_filter(authors)->Object_0.dom() =~= set!["kinds"@, "authors"@]);
}

/// The authors are asked for in the order of their first events.
pub proof fn law_authors_keep_the_order_of_their_events(events: Seq<EventView>, i: int, j: int)
    requires
        0 <= i < j < authors_of(events).len(),
    ensures
        exists|k: int|
            0 <= k < events.len() && (#[trigger] events[k]).pubkey == authors_of(events)[i]
                && forall|l: int|
                0 <= l <= k ==> (#[trigger] events[l]).pubkey != authors_of(events)[j],
{
    let keys = Seq::new(events.len(), |i: int| events[i].pubkey);
    lemma_distinct_order(keys, i, j);
    let k = choose|k: int|
        0 <= k < keys.len() && #[trigger] keys[k] == distinct(keys)[i] && forall|l: int|
            0 <= l <= k ==> #[trigger] keys[l] != distinct(keys)[j];
    assert(events[k].pubkey == keys[k]);
    assert forall|l: int| 0 <= l <= k implies (#[trigger] events[l]).pubkey != authors_of(
        events,
    )[j] by {
        assert(keys[l] != distinct(keys)[j]);
    }
}

proof fn lemma_distinct_order(texts: Seq<Seq<char>>, i: int, j: int)
    requires
        0 <= i < j < distinct(texts).len(),
    ensures
        exists|k: int|
            0 <= k < texts.len() && #[trigger] texts[k] == distinct(texts)[i] && forall|l: int|
                0 <= l <= k ==> #[trigger] texts[l] != distinct(texts)[j],
    decreases texts.len(),
{
    let front = texts.drop_last();
    let known = distinct(front);
    assert(forall|l: int| 0 <= l < front.len() ==> front[l] == texts[l]);
    if j < known.len() {
        lemma_distinct_order(front, i, j);
        let k = choose|k: int|
            0 <= k < front.len() && #[trigger] front[k] == known[i] && forall|l: int|
                0 <= l <= k ==> #[trigger] front[l] != known[j];
        assert(texts[k] == front[k]);
        assert forall|l: int| 0 <= l <= k implies #[trigger] texts[l] != distinct(texts)[j] by {
            assert(front[l] == texts[l]);
        }
    } else {
        lemma_distinct(front);
        assert(known.contains(known[i]));
        let k = front.index_of(known[i]);
        assert(texts[k] == known[i]);
        assert forall|l: int| 0 <= l <= k implies #[trigger] texts[l] != distinct(texts)[j] by {
            assert(front[l] == texts[l]);
            if texts[l] == texts.last() {
                assert(front.contains(texts.last()));
                assert(known.contains(texts.last()));
            }
        }
    }
}

} // verus!
