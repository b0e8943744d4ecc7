//! The retention table for persona events, enabling offline boot when the relay
//! is unreachable.
//!
//! Rows are keyed on `(kind, pubkey, d_tag)`, and an upsert replaces only on a
//! newer-or-equal `created_at`, for NIP-33 latest-wins semantics.

use vstd::prelude::*;
use vstd::utf8::encode_utf8;

use crate::retained_event::inbound_wins_equal_timestamp;
use crate::retained_event::row_view;
use crate::retained_event::wins_tie;
use crate::retained_event::Coordinate;
use crate::retained_event::RetainedEvent;
use crate::retained_event::RetainedEventView;
use crate::text::bytes_less;
use crate::text::is_text_less;
use crate::text::lemma_text_order_is_strict;
use crate::text::same_text;
use crate::text::text_less;

verus! {

/// What a table holds: the rows by coordinate.
pub type TableView = Map<Coordinate, RetainedEventView>;

/// The rows of a retention store, at most one per coordinate.
#[derive(Debug)]
pub struct RetentionTable {
    rows: Vec<RetainedEvent>,
}

/// No two rows share a coordinate.
spec fn keyed_once(rows: Seq<RetainedEvent>) -> bool {
    forall|i: int, j: int|
        0 <= i < j < rows.len() ==> #[trigger] rows[i]@.coordinate()
            != #[trigger] rows[j]@.coordinate()
}

spec fn stands_at(rows: Seq<RetainedEvent>, coordinate: Coordinate, i: int) -> bool {
    0 <= i < rows.len() && rows[i]@.coordinate() == coordinate
}

spec fn has_row(rows: Seq<RetainedEvent>, coordinate: Coordinate) -> bool {
    exists|i: int| #[trigger] stands_at(rows, coordinate, i)
}

spec fn row_at(rows: Seq<RetainedEvent>, coordinate: Coordinate) -> RetainedEventView {
    rows[choose|i: int| #[trigger] stands_at(rows, coordinate, i)]@
}

spec fn rows_by_coordinate(rows: Seq<RetainedEvent>) -> TableView {
    Map::new(|c: Coordinate| has_row(rows, c), |c: Coordinate| row_at(rows, c))
}

proof fn lemma_row_at(rows: Seq<RetainedEvent>, i: int)
    requires
        keyed_once(rows),
        0 <= i < rows.len(),
    ensures
        has_row(rows, rows[i]@.coordinate()),
        row_at(rows, rows[i]@.coordinate()) == rows[i]@,
{
    let coordinate = rows[i]@.coordinate();
    assert(stands_at(rows, coordinate, i));
    let j = choose|j: int| #[trigger] stands_at(rows, coordinate, j);
    assert(stands_at(rows, coordinate, j));
    assert(i == j);
}

impl View for RetentionTable {
    type V = TableView;

    closed spec fn view(&self) -> TableView {
        rows_by_coordinate(self.rows@)
    }
}

/// Where the row of a coordinate stands, if there is one.
fn find_row(rows: &Vec<RetainedEvent>, kind: u32, pubkey: &str, d_tag: &str) -> (found: Option<
    usize,
>)
    ensures
        match found {
            Some(i) => stands_at(
                rows@,
                (Coordinate { kind, pubkey: pubkey@, d_tag: d_tag@ }),
                i as int,
            ),
            None => !has_row(rows@, (Coordinate { kind, pubkey: pubkey@, d_tag: d_tag@ })),
        },
{
    let ghost coordinate = Coordinate { kind, pubkey: pubkey@, d_tag: d_tag@ };
    let mut i: usize = 0;
    while i < rows.len()
        invariant
            coordinate == (Coordinate { kind, pubkey: pubkey@, d_tag: d_tag@ }),
            i <= rows@.len(),
            forall|j: int| 0 <= j < i ==> !#[trigger] stands_at(rows@, coordinate, j),
        decreases rows@.len() - i,
    {
        let row = &rows[i];
        if row.kind == kind && same_text(row.pubkey.as_str(), pubkey) && same_text(
            row.d_tag.as_str(),
            d_tag,
        ) {
            return Some(i);
        }
        assert(!stands_at(rows@, coordinate, i as int));
        i = i + 1;
    }
    None
}

impl RetentionTable {
    #[verifier::type_invariant]
    spec fn wf(self) -> bool {
        keyed_once(self.rows@)
    }

    /// A table without rows.
    pub fn new() -> (table: RetentionTable)
        ensures
            table@ == TableView::empty(),
    {
        let table = RetentionTable { rows: Vec::new() };
        assert(table@ =~= TableView::empty());
        table
    }

    /// Puts a row in place of the one at its coordinate.
    pub fn insert(&mut self, row: RetainedEvent)
        ensures
            final(self)@ == old(self)@.insert(row@.coordinate(), row@),
    {
        proof {
            use_type_invariant(&*self);
        }
        let mut rows: Vec<RetainedEvent> = Vec::new();
        std::mem::swap(&mut rows, &mut self.rows);
        let ghost before = rows@;
        match find_row(&rows, row.kind, row.pubkey.as_str(), row.d_tag.as_str()) {
            Some(i) => {
                rows.set(i, row);
                proof {
                    lemma_update(before, rows@, i as int);
                }
            },
            None => {
                rows.push(row);
                proof {
                    lemma_push(before, rows@.last());
                    assert(rows@ =~= before.push(rows@.last()));
                }
            },
        }
        self.rows = rows;
    }
}

proof fn lemma_update(before: Seq<RetainedEvent>, after: Seq<RetainedEvent>, i: int)
    requires
        keyed_once(before),
        0 <= i < before.len(),
        after == before.update(i, after[i]),
        after[i]@.coordinate() == before[i]@.coordinate(),
    ensures
        keyed_once(after),
        rows_by_coordinate(after) == rows_by_coordinate(before).insert(
            after[i]@.coordinate(),
            after[i]@,
        ),
{
    let coordinate = after[i]@.coordinate();
    assert forall|c: Coordinate|
        has_row(after, c) == (c == coordinate || has_row(before, c)) && (has_row(after, c)
            ==> row_at(after, c) == (if c == coordinate {
            after[i]@
        } else {
            row_at(before, c)
        })) by {
        if has_row(after, c) {
            let j = choose|j: int| #[trigger] stands_at(after, c, j);
            assert(stands_at(before, c, j));
            lemma_row_at(after, j);
            lemma_row_at(before, j);
        }
        if has_row(before, c) {
            let j = choose|j: int| #[trigger] stands_at(before, c, j);
            assert(stands_at(after, c, j));
        }
        assert(stands_at(after, coordinate, i));
        lemma_row_at(after, i);
    }
    assert(rows_by_coordinate(after) =~= rows_by_coordinate(before).insert(
        coordinate,
        after[i]@,
    ));
}

proof fn lemma_push(before: Seq<RetainedEvent>, row: RetainedEvent)
    requires
        keyed_once(before),
        !has_row(before, row@.coordinate()),
    ensures
        keyed_once(before.push(row)),
        rows_by_coordinate(before.push(row)) == rows_by_coordinate(before).insert(
            row@.coordinate(),
            row@,
        ),
{
    let after = before.push(row);
    let last = before.len() as int;
    let coordinate = row@.coordinate();
    assert forall|i: int, j: int| 0 <= i < j < after.len() implies after[i]@.coordinate()
        != after[j]@.coordinate() by {
        if j == last {
            assert(!stands_at(before, coordinate, i));
        }
    }
    assert forall|c: Coordinate|
        has_row(after, c) == (c == coordinate || has_row(before, c)) && (has_row(after, c)
            ==> row_at(after, c) == (if c == coordinate {
            row@
        } else {
            row_at(before, c)
        })) by {
        assert(stands_at(after, coordinate, last));
        lemma_row_at(after, last);
        if has_row(before, c) {
            let j = choose|j: int| #[trigger] stands_at(before, c, j);
            assert(stands_at(after, c, j));
            lemma_row_at(after, j);
            lemma_row_at(before, j);
        } else if has_row(after, c) {
            let j = choose|j: int| #[trigger] stands_at(after, c, j);
            if j < last {
                assert(stands_at(before, c, j));
            }
        }
    }
    assert(rows_by_coordinate(after) =~= rows_by_coordinate(before).insert(coordinate, row@));
}

proof fn lemma_remove(before: Seq<RetainedEvent>, i: int)
    requires
        keyed_once(before),
        0 <= i < before.len(),
    ensures
        keyed_once(before.remove(i)),
        rows_by_coordinate(before.remove(i)) == rows_by_coordinate(before).remove(
            before[i]@.coordinate(),
        ),
{
    let after = before.remove(i);
    let coordinate = before[i]@.coordinate();
    assert(keyed_once(after));
    assert forall|c: Coordinate|
        has_row(after, c) == (c != coordinate && has_row(before, c)) && (has_row(after, c)
            ==> row_at(after, c) == row_at(before, c)) by {
        if has_row(after, c) {
            let j = choose|j: int| #[trigger] stands_at(after, c, j);
            let k = if j < i {
                j
            } else {
                j + 1
            };
            assert(stands_at(before, c, k));
            lemma_row_at(after, j);
            lemma_row_at(before, k);
        }
        if c != coordinate && has_row(before, c) {
            let k = choose|k: int| #[trigger] stands_at(before, c, k);
            let j = if k < i {
                k
            } else {
                k - 1
            };
            assert(stands_at(after, c, j));
        }
    }
    assert(rows_by_coordinate(after) =~= rows_by_coordinate(before).remove(coordinate));
}

/// The row of a coordinate in a table, if there is one.
pub open spec fn lookup(
    table: TableView,
    coordinate: Coordinate,
) -> Option<RetainedEventView> {
    if table.contains_key(coordinate) {
        Some(table[coordinate])
    } else {
        None
    }
}

/// Look up a single retained event by its coordinate.
pub fn get_retained_event(table: &RetentionTable, kind: u32, pubkey: &str, d_tag: &str) -> (found:
    Option<RetainedEvent>)
    ensures
        row_view(found) == lookup(table@, (Coordinate { kind, pubkey: pubkey@, d_tag: d_tag@ })),
{
    proof {
        use_type_invariant(table);
    }
    match find_row(&table.rows, kind, pubkey, d_tag) {
        Some(i) => {
            proof {
                lemma_row_at(table.rows@, i as int);
            }
            Some(table.rows[i].clone())
        },
        None => None,
    }
}

/// A table after an upsert: the event replaces an existing row unless that row is
/// strictly newer.
pub open spec fn retained(
    table: TableView,
    event: RetainedEventView,
) -> TableView {
    match lookup(table, event.coordinate()) {
        Some(row) => if event.created_at >= row.created_at {
            table.insert(event.coordinate(), event)
        } else {
            table
        },
        None => table.insert(event.coordinate(), event),
    }
}

/// Upsert a persona event into the retention store.
///
/// Only replaces if the new event has a newer or equal `created_at` (NIP-33 semantics).
pub fn retain_event(table: &mut RetentionTable, event: &RetainedEvent)
    ensures
        final(table)@ == retained(old(table)@, event@),
{
    let replaces = match get_retained_event(
        table,
        event.kind,
        event.pubkey.as_str(),
        event.d_tag.as_str(),
    ) {
        Some(row) => event.created_at >= row.created_at,
        None => true,
    };
    if replaces {
        table.insert(event.clone());
    }
}

/// Outcome of an inbound retain: whether the local store now reflects the
/// inbound event, so the caller knows whether to patch `personas.json`.
///
/// Only [`InboundOutcome::Applied`] authorizes a disk write. Both other
/// variants leave every local file untouched; they differ in what the
/// coordinate is waiting for.
#[derive(Debug, Clone, Copy, PartialEq, Eq, Structural)]
pub enum InboundOutcome {
    /// The inbound event was applied (no row, or it beat a non-pending local
    /// row). The caller patches the local record store.
    Applied,
    /// The inbound event lost the ordering compare against a non-pending
    /// retained row, or the pair could not be ordered at all. Nothing changes.
    Skipped,
    /// The coordinate carries a pending local edit, so the inbound event is
    /// not resolved here at any timestamp. The retained row, its content, and
    /// its `pending_sync` flag are left exactly as they were, for the boot
    /// decision pass to arbitrate against a writer-consistent head.
    Deferred,
}

/// How an inbound event fares against the row at its coordinate.
pub open spec fn inbound_outcome(
    existing: Option<RetainedEventView>,
    event: RetainedEventView,
) -> InboundOutcome {
    match existing {
        None => InboundOutcome::Applied,
        Some(row) => if row.pending_sync {
            InboundOutcome::Deferred
        } else if event.created_at > row.created_at || (event.created_at == row.created_at
            && wins_tie(event, row)) {
            InboundOutcome::Applied
        } else {
            InboundOutcome::Skipped
        },
    }
}

/// A table after the arrival of an inbound event.
pub open spec fn received(
    table: TableView,
    event: RetainedEventView,
) -> TableView {
    if inbound_outcome(lookup(table, event.coordinate()), event) == InboundOutcome::Applied {
        table.insert(event.coordinate(), event.with_pending_sync(false))
    } else {
        table
    }
}

/// Retain an event arriving from the relay, resolving it against any local row.
///
/// Inbound events are already on the relay, so they are retained with
/// `pending_sync` cleared. The resolution is deliberately narrower than
/// [`retain_event`]'s blind newer-or-equal upsert, which would clobber a
/// pending local edit's `pending_sync` flag and silently drop its publish.
///
/// Resolution order, **pending being checked before any timestamp compare**:
///
/// - Local row pending, at any inbound `created_at`: defer. Nothing is written
///   and the caller does not patch disk.
/// - No local row, or inbound strictly newer than a non-pending row: apply the
///   inbound event.
/// - Equal `created_at`, non-pending row: order by event id, matching the
///   relay's own NIP-33 comparator: lowest id wins. Without this the local cache
///   can disagree with the relay about which of two same-second events is the
///   head, and every subsequent compare against that head inherits the error.
/// - Inbound older than a non-pending row: skip, nothing to change.
///
/// An unorderable compare is never resolved by guessing: if either side's
/// `event_id` is `None` at an equal timestamp, the local row stands.
///
/// # Why a newer timestamp does not beat pending
///
/// A set `pending_sync` is durable local intent: an edit the user made and this
/// device has not yet published. A newer `created_at` is not evidence that the
/// remote content is newer *intent*: a stale store re-signs its old content at a
/// time later than the head, so every such revert arrives strictly newer than
/// whatever it is reverting. Letting strictly-newer inbound clear the flag would
/// destroy an unpublished edit. Deferring leaves it to be arbitrated against a
/// writer-consistent head, and preserving an edit that can still be reconciled
/// beats destroying one that cannot be recovered.
pub fn retain_inbound_event(table: &mut RetentionTable, event: &RetainedEvent) -> (outcome:
    InboundOutcome)
    ensures
        outcome == inbound_outcome(lookup(old(table)@, event@.coordinate()), event@),
        final(table)@ == received(old(table)@, event@),
{
    let existing = get_retained_event(
        table,
        event.kind,
        event.pubkey.as_str(),
        event.d_tag.as_str(),
    );
    let outcome = resolve_inbound(&existing, event);
    if outcome == InboundOutcome::Applied {
        let mut row = event.clone();
        row.pending_sync = false;
        table.insert(row);
    }
    outcome
}

/// How an inbound event fares against the row at its coordinate, if there is one.
pub fn resolve_inbound(existing: &Option<RetainedEvent>, event: &RetainedEvent) -> (outcome:
    InboundOutcome)
    ensures
        outcome == inbound_outcome(row_view(*existing), event@),
{
    match existing {
        None => InboundOutcome::Applied,
        Some(row) => {
            // Durable local intent outranks every ordering rule below it.
            if row.pending_sync {
                InboundOutcome::Deferred
            } else if event.created_at > row.created_at {
                InboundOutcome::Applied
            } else if event.created_at == row.created_at && inbound_wins_equal_timestamp(
                event,
                row,
            ) {
                InboundOutcome::Applied
            } else {
                InboundOutcome::Skipped
            }
        },
    }
}

/// A table after the relay confirmed what was published from a coordinate.
pub open spec fn synced(
    table: TableView,
    coordinate: Coordinate,
    created_at: i64,
    content: Seq<char>,
) -> TableView {
    match lookup(table, coordinate) {
        Some(row) => if row.created_at == created_at && row.content == content {
            table.insert(coordinate, row.with_pending_sync(false))
        } else {
            table
        },
        None => table,
    }
}

/// Clear the `pending_sync` flag for an event the relay just confirmed.
///
/// Compare-and-clear: only clears the row if its `created_at` and `content`
/// still match what was published. A concurrent edit that upserted a newer
/// version at the same coordinate between the flush loop's read and this call
/// leaves `pending_sync` set, so the newer edit publishes on the next pass
/// instead of being silently dropped.
pub fn mark_synced(
    table: &mut RetentionTable,
    kind: u32,
    pubkey: &str,
    d_tag: &str,
    created_at: i64,
    content: &str,
)
    ensures
        final(table)@ == synced(
            old(table)@,
            (Coordinate { kind, pubkey: pubkey@, d_tag: d_tag@ }),
            created_at,
            content@,
        ),
{
    match get_retained_event(table, kind, pubkey, d_tag) {
        Some(row) => {
            if row.created_at == created_at && same_text(row.content.as_str(), content) {
                let mut row = row;
                row.pending_sync = false;
                table.insert(row);
            }
        },
        None => {},
    }
}

/// Delete a retained event by its coordinate.
///
/// Called from the synchronous, lock-held delete-persona command body so the
/// purge serializes against `retain_event` upserts at the same coordinate,
/// closing the same-second resurrect race where a pending edit would otherwise
/// publish after the deletion tombstone.
pub fn delete_retained_event(table: &mut RetentionTable, kind: u32, pubkey: &str, d_tag: &str)
    ensures
        final(table)@ == old(table)@.remove(
            (Coordinate { kind, pubkey: pubkey@, d_tag: d_tag@ }),
        ),
{
    proof {
        use_type_invariant(&*table);
    }
    let mut rows: Vec<RetainedEvent> = Vec::new();
    std::mem::swap(&mut rows, &mut table.rows);
    let ghost before = rows@;
    match find_row(&rows, kind, pubkey, d_tag) {
        Some(i) => {
            rows.remove(i);
            proof {
                lemma_remove(before, i as int);
            }
        },
        None => {
            assert(rows_by_coordinate(before) =~= rows_by_coordinate(before).remove(
                (Coordinate { kind, pubkey: pubkey@, d_tag: d_tag@ }),
            ));
        },
    }
    table.rows = rows;
}

/// How a query orders its rows.
#[derive(Clone, Copy)]
pub enum RowOrder {
    /// Tombstones first, and the oldest first among the tombstones and among the rest.
    Publication,
    /// By `d_tag`.
    DTag,
}

/// The kind of NIP-09 deletion events.
pub const TOMBSTONE_KIND: u32 = 5;

/// Whether `a` comes strictly before `b`.
pub open spec fn precedes(order: RowOrder, a: RetainedEventView, b: RetainedEventView) -> bool {
    match order {
        RowOrder::Publication => {
            let a_deletes = a.kind == TOMBSTONE_KIND;
            let b_deletes = b.kind == TOMBSTONE_KIND;
            if a_deletes == b_deletes {
                a.created_at < b.created_at
            } else {
                a_deletes
            }
        },
        RowOrder::DTag => text_less(a.d_tag, b.d_tag),
    }
}

fn row_precedes(order: RowOrder, a: &RetainedEvent, b: &RetainedEvent) -> (before: bool)
    ensures
        before == precedes(order, a@, b@),
{
    match order {
        RowOrder::Publication => {
            let a_deletes = a.kind == TOMBSTONE_KIND;
            let b_deletes = b.kind == TOMBSTONE_KIND;
            if a_deletes == b_deletes {
                a.created_at < b.created_at
            } else {
                a_deletes
            }
        },
        RowOrder::DTag => is_text_less(a.d_tag.as_str(), b.d_tag.as_str()),
    }
}

proof fn lemma_precedes_is_strict(
    order: RowOrder,
    a: RetainedEventView,
    b: RetainedEventView,
    c: RetainedEventView,
)
    ensures
        !precedes(order, a, a),
        precedes(order, a, b) && precedes(order, b, c) ==> precedes(order, a, c),
{
    lemma_text_order_is_strict(a.d_tag, b.d_tag, c.d_tag);
}

/// What a list of rows says.
pub open spec fn row_views(rows: Seq<RetainedEvent>) -> Seq<RetainedEventView> {
    Seq::new(rows.len(), |i: int| rows[i]@)
}

/// No row comes after one that it should precede.
pub open spec fn in_order(order: RowOrder, rows: Seq<RetainedEventView>) -> bool {
    forall|i: int, j: int|
        0 <= i < j < rows.len() ==> !precedes(order, #[trigger] rows[j], #[trigger] rows[i])
}

/// The list holds each wanted row of the table once, and nothing else.
pub open spec fn selects(
    rows: Seq<RetainedEventView>,
    table: TableView,
    wanted: spec_fn(RetainedEventView) -> bool,
) -> bool {
    &&& rows.no_duplicates()
    &&& forall|row: RetainedEventView| #[trigger]
        rows.contains(row) <==> lookup(table, row.coordinate()) == Some(row) && wanted(row)
}

/// Asks for the rows not yet confirmed on the relay.
pub open spec fn awaits_sync() -> spec_fn(RetainedEventView) -> bool {
    |row: RetainedEventView| row.pending_sync
}

/// Asks for the rows of one author.
pub open spec fn is_by(pubkey: Seq<char>) -> spec_fn(RetainedEventView) -> bool {
    |row: RetainedEventView| row.pubkey == pubkey
}

/// Whether a table holds a row of an author.
pub open spec fn has_author(table: TableView, pubkey: Seq<char>) -> bool {
    exists|coordinate: Coordinate| #[trigger]
        table.contains_key(coordinate) && coordinate.pubkey == pubkey
}

/// Puts a row behind those that it does not precede.
fn insert_in_order(rows: &mut Vec<RetainedEvent>, row: RetainedEvent, order: RowOrder)
    requires
        in_order(order, row_views(old(rows)@)),
    ensures
        in_order(order, row_views(final(rows)@)),
        exists|i: int|
            0 <= i <= old(rows)@.len() && #[trigger] old(rows)@.insert(i, row) == final(rows)@,
{
    let mut i: usize = 0;
    while i < rows.len() && !row_precedes(order, &row, &rows[i])
        invariant
            i <= rows@.len(),
            forall|j: int| 0 <= j < i ==> !precedes(order, row@, #[trigger] rows@[j]@),
        decreases rows@.len() - i,
    {
        i = i + 1;
    }
    let ghost before = rows@;
    let ghost placed = row@;
    rows.insert(i, row);
    proof {
        let after = row_views(rows@);
        assert forall|j: int, k: int| 0 <= j < k < after.len() implies !precedes(
            order,
            #[trigger] after[k],
            #[trigger] after[j],
        ) by {
            let views = row_views(before);
            if j == i {
                // What stands at `i` is preceded by the new row, and so is all behind it.
                assert(after[k] == views[k - 1]);
                lemma_precedes_is_strict(order, views[k - 1], placed, views[i as int]);
                lemma_precedes_is_strict(order, views[k - 1], views[k - 1], placed);
                assert(precedes(order, placed, views[i as int]));
                if k - 1 > i {
                    assert(!precedes(order, views[k - 1], views[i as int]));
                } else {
                    lemma_precedes_is_strict(order, views[i as int], placed, views[i as int]);
                }
            } else if k == i {
                assert(!precedes(order, placed, before[j]@));
            } else {
                let j_before = if j < i {
                    j
                } else {
                    j - 1
                };
                let k_before = if k < i {
                    k
                } else {
                    k - 1
                };
                assert(after[j] == views[j_before]);
                assert(after[k] == views[k_before]);
            }
        }
    }
}

/// Which rows a query asks for.
#[derive(Clone, Copy)]
enum RowFilter<'a> {
    /// Those not yet confirmed on the relay.
    Pending,
    /// Those of one author.
    Author(&'a str),
}

spec fn passes(filter: RowFilter, row: RetainedEventView) -> bool {
    match filter {
        RowFilter::Pending => row.pending_sync,
        RowFilter::Author(pubkey) => row.pubkey == pubkey@,
    }
}

fn row_passes(filter: RowFilter, row: &RetainedEvent) -> (pass: bool)
    ensures
        pass == passes(filter, row@),
{
    match filter {
        RowFilter::Pending => row.pending_sync,
        RowFilter::Author(pubkey) => same_text(row.pubkey.as_str(), pubkey),
    }
}

spec fn passed_at(
    rows: Seq<RetainedEvent>,
    filter: RowFilter,
    row: RetainedEventView,
    i: int,
) -> bool {
    0 <= i < rows.len() && rows[i]@ == row && passes(filter, row)
}

/// The list holds what passes of the first `count` rows, each once.
spec fn selects_of(
    found: Seq<RetainedEventView>,
    rows: Seq<RetainedEvent>,
    count: int,
    filter: RowFilter,
) -> bool {
    &&& found.no_duplicates()
    &&& forall|row: RetainedEventView| #[trigger]
        found.contains(row) <==> exists|i: int|
            i < count && #[trigger] passed_at(rows, filter, row, i)
}

proof fn lemma_row_inserted(
    before: Seq<RetainedEvent>,
    after: Seq<RetainedEvent>,
    rows: Seq<RetainedEvent>,
    count: int,
    filter: RowFilter,
    k: int,
    placed: RetainedEvent,
)
    requires
        keyed_once(rows),
        0 <= count < rows.len(),
        selects_of(row_views(before), rows, count, filter),
        0 <= k <= before.len(),
        after == before.insert(k, placed),
        placed@ == rows[count]@,
        passes(filter, placed@),
    ensures
        selects_of(row_views(after), rows, count + 1, filter),
{
    let views = row_views(before);
    let longer = row_views(after);
    assert(longer =~= views.insert(k, placed@));
    if views.contains(placed@) {
        let i = choose|i: int| i < count && #[trigger] passed_at(rows, filter, placed@, i);
        assert(rows[i]@.coordinate() == rows[count]@.coordinate());
    }
    assert(longer.no_duplicates()) by {
        assert forall|i: int, j: int| 0 <= i < longer.len() && 0 <= j < longer.len() && i
            != j implies longer[i] != longer[j] by {
            let i_before = if i < k {
                i
            } else {
                i - 1
            };
            let j_before = if j < k {
                j
            } else {
                j - 1
            };
            if i == k {
                assert(views[j_before] == longer[j]);
            } else if j == k {
                assert(views[i_before] == longer[i]);
            } else {
                assert(views[i_before] == longer[i]);
                assert(views[j_before] == longer[j]);
            }
        }
    }
    assert forall|row: RetainedEventView| #[trigger] longer.contains(row) <==> (exists|i: int|
        i < count + 1 && #[trigger] passed_at(rows, filter, row, i)) by {
        assert(longer[k] == placed@);
        assert(longer.contains(row) <==> row == placed@ || views.contains(row)) by {
            if longer.contains(row) && row != placed@ {
                let i = longer.index_of(row);
                let i_before = if i < k {
                    i
                } else {
                    i - 1
                };
                assert(views[i_before] == row);
            }
            if views.contains(row) {
                let i = views.index_of(row);
                let i_after = if i < k {
                    i
                } else {
                    i + 1
                };
                assert(longer[i_after] == row);
            }
        }
        assert(passed_at(rows, filter, placed@, count));
        if views.contains(row) {
            let i = choose|i: int| i < count && #[trigger] passed_at(rows, filter, row, i);
            assert(passed_at(rows, filter, row, i) && i < count + 1);
        }
        if exists|i: int| i < count + 1 && #[trigger] passed_at(rows, filter, row, i) {
            let i = choose|i: int| i < count + 1 && #[trigger] passed_at(rows, filter, row, i);
            if i < count {
                assert(views.contains(row));
            }
        }
    }
}

fn select_rows(table: &RetentionTable, filter: RowFilter, order: RowOrder) -> (found: Vec<
    RetainedEvent,
>)
    ensures
        in_order(order, row_views(found@)),
        selects(row_views(found@), table@, |row: RetainedEventView| passes(filter, row)),
{
    proof {
        use_type_invariant(table);
    }
    let rows = &table.rows;
    let mut found: Vec<RetainedEvent> = Vec::new();
    let mut i: usize = 0;
    while i < rows.len()
        invariant
            i <= rows@.len(),
            keyed_once(rows@),
            in_order(order, row_views(found@)),
            selects_of(row_views(found@), rows@, i as int, filter),
        decreases rows@.len() - i,
    {
        let ghost before = found@;
        if row_passes(filter, &rows[i]) {
            let row = rows[i].clone();
            let ghost placed = row;
            insert_in_order(&mut found, row, order);
            proof {
                let k = choose|k: int|
                    0 <= k <= before.len() && #[trigger] before.insert(k, placed) == found@;
                lemma_row_inserted(before, found@, rows@, i as int, filter, k, placed);
            }
        } else {
            assert forall|row: RetainedEventView, j: int|
                j < i + 1 && #[trigger] passed_at(rows@, filter, row, j) implies j < i by {
                if j == i {
                    assert(rows@[j]@ == row);
                }
            }
            assert forall|row: RetainedEventView| #[trigger]
                row_views(found@).contains(row) <==> exists|j: int|
                    j < i + 1 && #[trigger] passed_at(rows@, filter, row, j) by {
                if exists|j: int| j < i + 1 && #[trigger] passed_at(rows@, filter, row, j) {
                    let j = choose|j: int|
                        j < i + 1 && #[trigger] passed_at(rows@, filter, row, j);
                    assert(j < i && passed_at(rows@, filter, row, j));
                }
            }
        }
        i = i + 1;
    }
    proof {
        assert forall|row: RetainedEventView| #[trigger]
            row_views(found@).contains(row) <==> lookup(table@, row.coordinate()) == Some(row)
                && passes(filter, row) by {
            if row_views(found@).contains(row) {
                let j = choose|j: int| j < i && #[trigger] passed_at(rows@, filter, row, j);
                lemma_row_at(rows@, j);
            }
            if lookup(table@, row.coordinate()) == Some(row) && passes(filter, row) {
                let j = choose|j: int| #[trigger] stands_at(rows@, row.coordinate(), j);
                assert(passed_at(rows@, filter, row, j));
            }
        }
    }
    found
}

/// Get all events marked as pending sync (not yet confirmed on relay).
///
/// Tombstones (kind:5) sort first: a delete retained in one session and its
/// coordinate's replacement retained in a later one must publish in that order.
/// The relay's a-tag deletion soft-deletes every live row at the coordinate with
/// no timestamp comparison, so a tombstone published after the replacement would
/// wipe it. Within each group, oldest first for the same reason.
pub fn get_pending_sync(table: &RetentionTable) -> (rows: Vec<RetainedEvent>)
    ensures
        selects(row_views(rows@), table@, awaits_sync()),
        in_order(RowOrder::Publication, row_views(rows@)),
{
    select_rows(table, RowFilter::Pending, RowOrder::Publication)
}

/// Load all retained persona events for a given pubkey, ordered by `d_tag`.
pub fn get_retained_personas(table: &RetentionTable, pubkey: &str) -> (rows: Vec<RetainedEvent>)
    ensures
        selects(row_views(rows@), table@, is_by(pubkey@)),
        in_order(RowOrder::DTag, row_views(rows@)),
{
    select_rows(table, RowFilter::Author(pubkey), RowOrder::DTag)
}

/// Check if the retention store has any persona events for the given pubkey.
pub fn has_retained_personas(table: &RetentionTable, pubkey: &str) -> (has: bool)
    ensures
        has == has_author(table@, pubkey@),
{
    let rows = &table.rows;
    let mut i: usize = 0;
    while i < rows.len()
        invariant
            i <= rows@.len(),
            *rows == table.rows,
            forall|j: int| 0 <= j < i ==> (#[trigger] rows@[j])@.pubkey != pubkey@,
        decreases rows@.len() - i,
    {
        if same_text(rows[i].pubkey.as_str(), pubkey) {
            proof {
                let coordinate = rows@[i as int]@.coordinate();
                assert(stands_at(rows@, coordinate, i as int));
                assert(table@.contains_key(coordinate));
            }
            return true;
        }
        i = i + 1;
    }
    proof {
        assert forall|coordinate: Coordinate| #[trigger]
            table@.contains_key(coordinate) implies coordinate.pubkey != pubkey@ by {
            let j = choose|j: int| #[trigger] stands_at(rows@, coordinate, j);
            assert(rows@[j]@.pubkey != pubkey@);
        }
    }
    false
}

/// Each row of a table stands under its own coordinate.
pub proof fn law_rows_stand_at_their_coordinates(table: RetentionTable, coordinate: Coordinate)
    ensures
        table@.contains_key(coordinate) ==> table@[coordinate].coordinate() == coordinate,
{
    if table@.contains_key(coordinate) {
        let i = choose|i: int| #[trigger] stands_at(table.rows@, coordinate, i);
        assert(stands_at(table.rows@, coordinate, i));
    }
}

/// An author has rows in a table exactly if the list of the author's rows is not empty.
pub proof fn law_authors_with_rows_have_a_list(
    table: RetentionTable,
    pubkey: Seq<char>,
    rows: Seq<RetainedEventView>,
)
    requires
        selects(rows, table@, is_by(pubkey)),
    ensures
        has_author(table@, pubkey) <==> rows.len() > 0,
{
    if has_author(table@, pubkey) {
        let coordinate = choose|coordinate: Coordinate| #[trigger]
            table@.contains_key(coordinate) && coordinate.pubkey == pubkey;
        law_rows_stand_at_their_coordinates(table, coordinate);
        assert(rows.contains(table@[coordinate]));
    }
    if rows.len() > 0 {
        assert(rows.contains(rows[0]));
        assert(table@.contains_key(rows[0].coordinate()));
    }
}

/// A row waits for the relay exactly if it is in the queue, once.
pub proof fn law_the_queue_holds_every_pending_row(
    table: RetentionTable,
    coordinate: Coordinate,
    rows: Seq<RetainedEventView>,
)
    requires
        selects(rows, table@, awaits_sync()),
        table@.contains_key(coordinate),
    ensures
        table@[coordinate].pending_sync <==> rows.contains(table@[coordinate]),
        rows.no_duplicates(),
{
    law_rows_stand_at_their_coordinates(table, coordinate);
}

/// A pending local edit outranks every inbound event at its coordinate, whatever the
/// timestamps: the event is deferred and the table stays as it was.
pub proof fn law_pending_edit_survives_inbound(table: TableView, event: RetainedEventView)
    requires
        table.contains_key(event.coordinate()),
        table[event.coordinate()].pending_sync,
    ensures
        inbound_outcome(lookup(table, event.coordinate()), event) == InboundOutcome::Deferred,
        received(table, event) == table,
{
}

/// An inbound event is in the table exactly if it was applied, marked as published; on
/// every other outcome nothing has changed.
pub proof fn law_only_applied_changes_the_table(table: TableView, event: RetainedEventView)
    ensures
        ({
            let outcome = inbound_outcome(lookup(table, event.coordinate()), event);
            &&& outcome == InboundOutcome::Applied ==> lookup(
                received(table, event),
                event.coordinate(),
            ) == Some(event.with_pending_sync(false))
            &&& outcome != InboundOutcome::Applied ==> received(table, event) == table
        }),
{
}

/// The same inbound event arriving again changes nothing.
pub proof fn law_redelivery_changes_nothing(table: TableView, event: RetainedEventView)
    ensures
        received(received(table, event), event) == received(table, event),
{
    if event.event_id is Some {
        lemma_text_order_is_strict(
            event.event_id.unwrap(),
            event.event_id.unwrap(),
            event.event_id.unwrap(),
        );
    }
}

/// Two inbound events leave the same table in whichever order they arrive, provided
/// that two different events of one coordinate and one second have known and different
/// ids.
pub proof fn law_arrival_order_is_irrelevant(
    table: TableView,
    a: RetainedEventView,
    b: RetainedEventView,
)
    requires
        a.coordinate() == b.coordinate() && a.created_at == b.created_at
            && a.with_pending_sync(false) != b.with_pending_sync(false) ==> a.event_id is Some
            && b.event_id is Some && a.event_id != b.event_id,
    ensures
        received(received(table, a), b) == received(received(table, b), a),
{
    if a.coordinate() == b.coordinate() {
        let existing = lookup(table, a.coordinate());
        if a.event_id is Some && b.event_id is Some {
            let a_id = a.event_id.unwrap();
            let b_id = b.event_id.unwrap();
            lemma_text_order_is_strict(a_id, b_id, a_id);
            lemma_text_order_is_strict(b_id, a_id, b_id);
            if existing is Some && existing.unwrap().event_id is Some {
                let id = existing.unwrap().event_id.unwrap();
                lemma_text_order_is_strict(a_id, b_id, id);
                lemma_text_order_is_strict(b_id, a_id, id);
                lemma_text_order_is_strict(a_id, id, b_id);
                lemma_text_order_is_strict(b_id, id, a_id);
            }
        }
    }
    assert(received(received(table, a), b) =~= received(received(table, b), a));
}

/// Whatever is retained, the row of a coordinate never becomes older.
pub proof fn law_latest_wins(table: TableView, event: RetainedEventView)
    ensures
        ({
            let after = lookup(retained(table, event), event.coordinate());
            let kept = lookup(table, event.coordinate());
            &&& after is Some
            &&& after == Some(event) || after == kept
            &&& after.unwrap().created_at >= event.created_at
            &&& kept is Some ==> after.unwrap().created_at >= kept.unwrap().created_at
        }),
        lookup(received(table, event), event.coordinate()) is Some,
        table.contains_key(event.coordinate()) ==> lookup(
            received(table, event),
            event.coordinate(),
        ).unwrap().created_at >= table[event.coordinate()].created_at,
{
}

/// An event is read back as it was retained, unless the table held a newer one.
pub proof fn law_retained_event_is_read_back(table: TableView, event: RetainedEventView)
    requires
        table.contains_key(event.coordinate()) ==> table[event.coordinate()].created_at
            <= event.created_at,
    ensures
        lookup(retained(table, event), event.coordinate()) == Some(event),
        retained(retained(table, event), event) == retained(table, event),
{
    assert(retained(retained(table, event), event) =~= retained(table, event));
}

/// Every change of a table touches one coordinate only.
pub proof fn law_other_coordinates_are_untouched(
    table: TableView,
    event: RetainedEventView,
    created_at: i64,
    content: Seq<char>,
    other: Coordinate,
)
    requires
        other != event.coordinate(),
    ensures
        lookup(retained(table, event), other) == lookup(table, other),
        lookup(received(table, event), other) == lookup(table, other),
        lookup(synced(table, event.coordinate(), created_at, content), other) == lookup(
            table,
            other,
        ),
        lookup(table.remove(event.coordinate()), other) == lookup(table, other),
{
}

/// Whether every id in a table is the one that the stored event may be trusted to have.
pub open spec fn ids_are_trusted(table: TableView) -> bool {
    forall|coordinate: Coordinate| #[trigger]
        table.contains_key(coordinate) ==> table[coordinate].has_trusted_id()
}

/// While what is retained has trusted ids, so has the whole table: no change gives a row
/// an id that describes other bytes than its own.
pub proof fn law_ids_stay_trusted(
    table: TableView,
    event: RetainedEventView,
    coordinate: Coordinate,
    created_at: i64,
    content: Seq<char>,
)
    requires
        ids_are_trusted(table),
        event.has_trusted_id(),
    ensures
        ids_are_trusted(retained(table, event)),
        ids_are_trusted(received(table, event)),
        ids_are_trusted(synced(table, coordinate, created_at, content)),
        ids_are_trusted(table.remove(coordinate)),
{
}

/// An edit that replaced the published version before the relay confirmed it stays
/// pending, to be published on the next pass.
pub proof fn law_newer_edit_stays_pending(
    table: TableView,
    published: RetainedEventView,
    edit: RetainedEventView,
)
    requires
        edit.coordinate() == published.coordinate(),
        edit.pending_sync,
        edit.created_at != published.created_at || edit.content != published.content,
        table.contains_key(edit.coordinate()) ==> table[edit.coordinate()].created_at
            <= edit.created_at,
    ensures
        lookup(
            synced(
                retained(table, edit),
                published.coordinate(),
                published.created_at,
                published.content,
            ),
            edit.coordinate(),
        ) == Some(edit),
{
}

/// Confirming a row that is still as it was published clears its flag and nothing else.
pub proof fn law_confirmed_row_leaves_the_queue(table: TableView, published: RetainedEventView)
    requires
        lookup(table, published.coordinate()) == Some(published),
    ensures
        lookup(
            synced(table, published.coordinate(), published.created_at, published.content),
            published.coordinate(),
        ) == Some(published.with_pending_sync(false)),
{
}

/// In the order of publication every tombstone comes before every other row, and within
/// both groups the older before the newer.
pub proof fn law_tombstones_publish_first(rows: Seq<RetainedEventView>, i: int, j: int)
    requires
        in_order(RowOrder::Publication, rows),
        0 <= i < j < rows.len(),
    ensures
        rows[j].kind == TOMBSTONE_KIND ==> rows[i].kind == TOMBSTONE_KIND,
        (rows[i].kind == TOMBSTONE_KIND) == (rows[j].kind == TOMBSTONE_KIND)
            ==> rows[i].created_at <= rows[j].created_at,
{
}

/// A lookup finds the row of a coordinate exactly if the table has one there.
pub proof fn law_lookup_finds_what_is_there(table: TableView, coordinate: Coordinate)
    ensures
        table.contains_key(coordinate) ==> lookup(table, coordinate) == Some(table[coordinate]),
        !table.contains_key(coordinate) ==> lookup(table, coordinate) is None,
{
}

/// A retained event takes the place of the row at its kind, key and `d_tag` unless that
/// row is strictly newer, in which case nothing changes.
pub proof fn law_newer_or_equal_replaces(table: TableView, event: RetainedEventView)
    ensures
        ({
            let at = Coordinate { kind: event.kind, pubkey: event.pubkey, d_tag: event.d_tag };
            &&& table.contains_key(at) && table[at].created_at > event.created_at ==> retained(
                table,
                event,
            ) == table
            &&& !table.contains_key(at) || table[at].created_at <= event.created_at ==> retained(
                table,
                event,
            ) == table.insert(at, event)
        }),
{
}

/// An inbound event is applied where there is no row, or a published one that is older,
/// or one of the same second that loses the tie; it is deferred behind a pending row,
/// whatever the times; and it is skipped else.
pub proof fn law_inbound_resolution(table: TableView, event: RetainedEventView)
    ensures
        ({
            let at = Coordinate { kind: event.kind, pubkey: event.pubkey, d_tag: event.d_tag };
            let outcome = inbound_outcome(lookup(table, at), event);
            &&& !table.contains_key(at) ==> outcome == InboundOutcome::Applied
            &&& table.contains_key(at) && table[at].pending_sync ==> outcome
                == InboundOutcome::Deferred
            &&& table.contains_key(at) && !table[at].pending_sync && event.created_at
                > table[at].created_at ==> outcome == InboundOutcome::Applied
            &&& table.contains_key(at) && !table[at].pending_sync && event.created_at
                < table[at].created_at ==> outcome == InboundOutcome::Skipped
            &&& table.contains_key(at) && !table[at].pending_sync && event.created_at
                == table[at].created_at ==> outcome == (if wins_tie(event, table[at]) {
                InboundOutcome::Applied
            } else {
                InboundOutcome::Skipped
            })
            &&& outcome != InboundOutcome::Applied ==> received(table, event) == table
            &&& outcome == InboundOutcome::Applied ==> received(table, event) == table.insert(
                at,
                RetainedEventView { pending_sync: false, ..event },
            )
        }),
{
}

/// A confirmation clears the flag of the row at its coordinate if time and content are
/// those that were published, and changes nothing else.
pub proof fn law_only_the_published_version_is_cleared(
    table: TableView,
    coordinate: Coordinate,
    created_at: i64,
    content: Seq<char>,
)
    ensures
        table.contains_key(coordinate) && table[coordinate].created_at == created_at
            && table[coordinate].content == content ==> synced(
            table,
            coordinate,
            created_at,
            content,
        ) == table.insert(
            coordinate,
            RetainedEventView { pending_sync: false, ..table[coordinate] },
        ),
        !table.contains_key(coordinate) || table[coordinate].created_at != created_at
            || table[coordinate].content != content ==> synced(
            table,
            coordinate,
            created_at,
            content,
        ) == table,
{
}

/// What is read back after each change of a table, at any coordinate.
pub proof fn law_reading_after_a_change(
    table: TableView,
    event: RetainedEventView,
    coordinate: Coordinate,
    at: Coordinate,
)
    ensures
        lookup(retained(table, event), at) == lookup(table, at) || (at == event.coordinate()
            && lookup(retained(table, event), at) == Some(event)),
        lookup(received(table, event), at) == lookup(table, at) || (at == event.coordinate()
            && lookup(received(table, event), at) == Some(
            RetainedEventView { pending_sync: false, ..event },
        )),
        lookup(table.remove(coordinate), at) == (if at == coordinate {
            None
        } else {
            lookup(table, at)
        }),
{
}

/// In the order of publication deletions, kind 5, come before everything else, and the
/// older before the newer among the deletions and among the rest.
pub proof fn law_publication_order(rows: Seq<RetainedEventView>, i: int, j: int)
    requires
        in_order(RowOrder::Publication, rows),
        0 <= i < j < rows.len(),
    ensures
        rows[i].kind == 5 || rows[j].kind != 5,
        rows[i].kind == 5 && rows[j].kind == 5 ==> rows[i].created_at <= rows[j].created_at,
        rows[i].kind != 5 && rows[j].kind != 5 ==> rows[i].created_at <= rows[j].created_at,
{
}

/// In the order of the `d_tag` no row has a `d_tag` whose bytes come before those of an
/// earlier row's.
pub proof fn law_d_tag_order(rows: Seq<RetainedEventView>, i: int, j: int)
    requires
        in_order(RowOrder::DTag, rows),
        0 <= i < j < rows.len(),
    ensures
        rows[i].d_tag == rows[j].d_tag || bytes_less(
            encode_utf8(rows[i].d_tag),
            encode_utf8(rows[j].d_tag),
        ),
{
    lemma_text_order_is_strict(rows[i].d_tag, rows[j].d_tag, rows[i].d_tag);
    assert(!precedes(RowOrder::DTag, rows[j], rows[i]));
}

/// The queue lists every row of the table that is pending, once, and no other row.
pub proof fn law_the_queue_is_what_is_pending(
    table: RetentionTable,
    rows: Seq<RetainedEventView>,
    coordinate: Coordinate,
    i: int,
    j: int,
)
    requires
        selects(rows, table@, awaits_sync()),
    ensures
        table@.contains_key(coordinate) && table@[coordinate].pending_sync ==> exists|k: int|
            0 <= k < rows.len() && #[trigger] rows[k] == table@[coordinate],
        0 <= i < rows.len() ==> rows[i].pending_sync && table@.contains_key(rows[i].coordinate())
            && table@[rows[i].coordinate()] == rows[i],
        0 <= i < j < rows.len() ==> rows[i].coordinate() != rows[j].coordinate(),
{
    lemma_selected(table, rows, awaits_sync(), coordinate, i, j);
}

/// The list of an author has every row of the table with that key, once, and no other
/// row.
pub proof fn law_the_list_is_what_the_author_has(
    table: RetentionTable,
    pubkey: Seq<char>,
    rows: Seq<RetainedEventView>,
    coordinate: Coordinate,
    i: int,
    j: int,
)
    requires
        selects(rows, table@, is_by(pubkey)),
    ensures
        table@.contains_key(coordinate) && coordinate.pubkey == pubkey ==> exists|k: int|
            0 <= k < rows.len() && #[trigger] rows[k] == table@[coordinate],
        0 <= i < rows.len() ==> rows[i].pubkey == pubkey && table@.contains_key(
            rows[i].coordinate(),
        ) && table@[rows[i].coordinate()] == rows[i],
        0 <= i < j < rows.len() ==> rows[i].coordinate() != rows[j].coordinate(),
{
    law_rows_stand_at_their_coordinates(table, coordinate);
    lemma_selected(table, rows, is_by(pubkey), coordinate, i, j);
}

proof fn lemma_selected(
    table: RetentionTable,
    rows: Seq<RetainedEventView>,
    wanted: spec_fn(RetainedEventView) -> bool,
    coordinate: Coordinate,
    i: int,
    j: int,
)
    requires
        selects(rows, table@, wanted),
    ensures
        table@.contains_key(coordinate) && wanted(table@[coordinate]) ==> exists|k: int|
            0 <= k < rows.len() && #[trigger] rows[k] == table@[coordinate],
        0 <= i < rows.len() ==> wanted(rows[i]) && table@.contains_key(rows[i].coordinate())
            && table@[rows[i].coordinate()] == rows[i],
        0 <= i < j < rows.len() ==> rows[i].coordinate() != rows[j].coordinate(),
{
    law_rows_stand_at_their_coordinates(table, coordinate);
    if table@.contains_key(coordinate) && wanted(table@[coordinate]) {
        assert(rows.contains(table@[coordinate]));
        let k = rows.index_of(table@[coordinate]);
        assert(rows[k] == table@[coordinate]);
    }
    if 0 <= i < rows.len() {
        assert(rows.contains(rows[i]));
    }
    if 0 <= i < j < rows.len() {
        assert(rows.contains(rows[j]));
    }
}

/// An author has rows exactly if the table has a coordinate with that key.
pub proof fn law_authors_are_those_of_the_coordinates(table: TableView, pubkey: Seq<char>)
    ensures
        has_author(table, pubkey) <==> exists|coordinate: Coordinate| #[trigger]
            table.contains_key(coordinate) && coordinate.pubkey == pubkey,
{
}

/// A list of rows is read one for one and in order.
pub proof fn law_rows_are_read_one_for_one(rows: Seq<RetainedEvent>)
    ensures
        row_views(rows).len() == rows.len(),
        forall|i: int| 0 <= i < rows.len() ==> row_views(rows)[i] == (#[trigger] rows[i])@,
{
}

} // verus!
