//! Tombstone rows: their keys in the retention table, and what waits behind one that
//! failed to publish.

use vstd::prelude::*;
use vstd::string::*;

use crate::retention::TOMBSTONE_KIND;
use crate::text::decimal;
use crate::text::decimal_text;
use crate::text::digit;
use crate::text::same_text;

verus! {

/// The retention key of the tombstone for a target.
pub open spec fn tombstone_key(target_kind: u32, d_tag: Seq<char>) -> Seq<char> {
    decimal(target_kind as nat) + seq![':'] + d_tag
}

/// Build the retention `d_tag` column value for a kind:5 tombstone row.
///
/// Tombstones for all target kinds share `kind = 5` in the retention table, so
/// keying a tombstone by the bare target d-tag would collide across kinds when
/// a persona slug, team id, and agent pubkey happen to coincide: one tombstone
/// row would clobber another's pending publish. Folding the target kind into the
/// key (`"<target_kind>:<d_tag>"`) gives each its own row. This is the
/// retention-store key only; the published NIP-09 event still carries the plain
/// `a`-tag coordinate.
pub fn tombstone_retention_d_tag(target_kind: u32, d_tag: &str) -> (key: String)
    ensures
        key@ == tombstone_key(target_kind, d_tag@),
{
    proof {
        reveal_strlit(":");
    }
    let mut key = decimal_text(target_kind as u64);
    key.append(":");
    key.append(d_tag);
    assert(key@ =~= tombstone_key(target_kind, d_tag@));
    key
}

/// Whether the list names a failed tombstone: the author's, under this key.
pub open spec fn has_failed(
    failed_tombstones: Seq<(String, String)>,
    pubkey: Seq<char>,
    key: Seq<char>,
) -> bool {
    exists|i: int|
        0 <= i < failed_tombstones.len() && (#[trigger] failed_tombstones[i]).0@ == pubkey
            && failed_tombstones[i].1@ == key
}

/// Whether a row waits behind a failed tombstone. Tombstones never do.
pub open spec fn is_deferred(
    kind: u32,
    pubkey: Seq<char>,
    d_tag: Seq<char>,
    failed_tombstones: Seq<(String, String)>,
) -> bool {
    kind != TOMBSTONE_KIND && has_failed(failed_tombstones, pubkey, tombstone_key(kind, d_tag))
}

/// Whether a pending row must be deferred to the next sweep because a kind:5
/// tombstone covering its coordinate failed to publish earlier in the same
/// sweep.
///
/// The failed tombstones are given by author and retention key, in any order.
///
/// `get_pending_sync` orders tombstones first so a deletion always reaches the
/// relay before the replacement that supersedes it. But the flush is
/// best-effort per row, so a tombstone that fails mid-sweep would otherwise be
/// leapfrogged by its own replacement and then wipe it on the next sweep.
/// Deferring the replacement restores the ordering guarantee: next sweep the
/// tombstone comes first again. Kind:5 rows are never deferred.
pub fn deferred_behind_failed_tombstone(
    kind: u32,
    pubkey: &str,
    d_tag: &str,
    failed_tombstones: &[(String, String)],
) -> (deferred: bool)
    ensures
        deferred == is_deferred(kind, pubkey@, d_tag@, failed_tombstones@),
{
    if kind == TOMBSTONE_KIND {
        return false;
    }
    let key = tombstone_retention_d_tag(kind, d_tag);
    let mut i: usize = 0;
    while i < failed_tombstones.len()
        invariant
            i <= failed_tombstones@.len(),
            kind != TOMBSTONE_KIND,
            key@ == tombstone_key(kind, d_tag@),
            forall|j: int|
                0 <= j < i ==> !((#[trigger] failed_tombstones@[j]).0@ == pubkey@
                    && failed_tombstones@[j].1@ == key@),
        decreases failed_tombstones@.len() - i,
    {
        let failed = &failed_tombstones[i];
        if same_text(failed.0.as_str(), pubkey) && same_text(failed.1.as_str(), key.as_str()) {
            assert(failed_tombstones@[i as int].0@ == pubkey@);
            return true;
        }
        i = i + 1;
    }
    false
}

proof fn lemma_decimal_has_digits_only(n: nat)
    ensures
        decimal(n).len() > 0,
        forall|i: int| 0 <= i < decimal(n).len() ==> #[trigger] decimal(n)[i] != ':',
    decreases n,
{
    if n >= 10 {
        lemma_decimal_has_digits_only(n / 10);
    }
}

proof fn lemma_decimal_is_injective(m: nat, n: nat)
    requires
        decimal(m) == decimal(n),
    ensures
        m == n,
    decreases m,
{
    lemma_decimal_has_digits_only(m / 10);
    lemma_decimal_has_digits_only(n / 10);
    assert(m < 10 <==> decimal(m).len() == 1);
    assert(n < 10 <==> decimal(n).len() == 1);
    if m >= 10 && n >= 10 {
        assert(decimal(m).drop_last() =~= decimal(m / 10));
        assert(decimal(n).drop_last() =~= decimal(n / 10));
        assert(decimal(m).last() == digit(m % 10));
        assert(decimal(n).last() == digit(n % 10));
        lemma_decimal_is_injective(m / 10, n / 10);
    } else {
        assert(decimal(m)[0] == digit(m));
        assert(decimal(n)[0] == digit(n));
    }
}

/// Tombstones for different targets have different keys, so that none takes the row of
/// another.
pub proof fn law_tombstone_keys_are_distinct(
    kind: u32,
    d_tag: Seq<char>,
    other_kind: u32,
    other_d_tag: Seq<char>,
)
    requires
        tombstone_key(kind, d_tag) == tombstone_key(other_kind, other_d_tag),
    ensures
        kind == other_kind,
        d_tag == other_d_tag,
{
    let key = tombstone_key(kind, d_tag);
    let digits = decimal(kind as nat);
    let other_digits = decimal(other_kind as nat);
    lemma_decimal_has_digits_only(kind as nat);
    lemma_decimal_has_digits_only(other_kind as nat);
    assert(key[digits.len() as int] == ':');
    assert(key[other_digits.len() as int] == ':');
    if digits.len() < other_digits.len() {
        assert(key[digits.len() as int] == other_digits[digits.len() as int]);
    } else if other_digits.len() < digits.len() {
        assert(key[other_digits.len() as int] == digits[other_digits.len() as int]);
    }
    assert(digits =~= key.take(digits.len() as int));
    assert(other_digits =~= key.take(digits.len() as int));
    lemma_decimal_is_injective(kind as nat, other_kind as nat);
    assert(d_tag =~= key.skip(digits.len() as int + 1));
    assert(other_d_tag =~= key.skip(digits.len() as int + 1));
}

/// Failed tombstones defer the replacements at the coordinates that they delete, and no
/// other row.
pub proof fn law_failed_tombstones_defer_their_replacements(
    failed: Seq<(String, String)>,
    targets: Seq<(u32, Seq<char>)>,
    kind: u32,
    pubkey: Seq<char>,
    d_tag: Seq<char>,
)
    requires
        failed.len() == targets.len(),
        forall|i: int|
            0 <= i < failed.len() ==> (#[trigger] failed[i]).1@ == tombstone_key(
                targets[i].0,
                targets[i].1,
            ),
    ensures
        is_deferred(kind, pubkey, d_tag, failed) <==> kind != TOMBSTONE_KIND && exists|i: int|
            0 <= i < failed.len() && (#[trigger] failed[i]).0@ == pubkey && targets[i] == (
                kind,
                d_tag,
            ),
{
    assert forall|i: int| 0 <= i < failed.len() implies (#[trigger] failed[i].1@ == tombstone_key(
        kind,
        d_tag,
    ) <==> targets[i] == (kind, d_tag)) by {
        if failed[i].1@ == tombstone_key(kind, d_tag) {
            law_tombstone_keys_are_distinct(kind, d_tag, targets[i].0, targets[i].1);
        }
    }
}

/// The key of a tombstone is the target kind in decimal, a colon, and the target's
/// `d_tag`.
pub proof fn law_tombstone_key_names_its_target(target_kind: u32, d_tag: Seq<char>)
    ensures
        ({
            let digits = decimal(target_kind as nat);
            let key = tombstone_key(target_kind, d_tag);
            &&& key.len() == digits.len() + 1 + d_tag.len()
            &&& key.take(digits.len() as int) == digits
            &&& key[digits.len() as int] == ':'
            &&& key.skip(digits.len() as int + 1) == d_tag
        }),
{
    let digits = decimal(target_kind as nat);
    let key = tombstone_key(target_kind, d_tag);
    assert(key.take(digits.len() as int) =~= digits);
    assert(key.skip(digits.len() as int + 1) =~= d_tag);
}

/// A row waits exactly if it is no deletion, kind 5, and the list has an entry of its
/// author whose key is the row's kind in decimal, a colon, and the row's `d_tag`.
pub proof fn law_what_waits_behind_a_tombstone(
    failed: Seq<(String, String)>,
    kind: u32,
    pubkey: Seq<char>,
    d_tag: Seq<char>,
)
    ensures
        is_deferred(kind, pubkey, d_tag, failed) <==> kind != 5 && exists|i: int|
            0 <= i < failed.len() && (#[trigger] failed[i]).0@ == pubkey && failed[i].1@ == decimal(
                kind as nat,
            ) + seq![':'] + d_tag,
{
}

} // verus!
