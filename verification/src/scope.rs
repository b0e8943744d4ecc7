//! Retention scopes: which durable event store belongs to which relay and owner.

use vstd::prelude::*;
use vstd::string::*;
use vstd::utf8::encode_scalar;
use vstd::utf8::encode_utf8;

use crate::text::ascii_lower;
use crate::text::ascii_lowered;
use crate::text::hex_bytes;
use crate::text::hex_encode;
use crate::text::hex_text;
use crate::text::is_hex_of;
use crate::text::is_white_space;
use crate::text::law_hex_is_injective;
use crate::text::law_stripping_takes_the_run_only;
use crate::text::law_trimming_takes_white_space_only;
use crate::text::lemma_hex_bytes_of;
use crate::text::lemma_same_bytes_same_text;
use crate::text::same_text;
use crate::text::strip_trailing;
use crate::text::trim_back;
use crate::text::trim_front;
use crate::text::trimmed;
use crate::text::without_trailing;

verus! {

/// A file system path; [`path_parts`] names what it is made of.
#[verifier::external_type_specification]
#[verifier::external_body]
pub struct ExPath(std::path::Path);

/// An owned file system path; [`owned_path_parts`] names what it is made of.
#[verifier::external_type_specification]
#[verifier::external_body]
pub struct ExPathBuf(std::path::PathBuf);

/// A key pair of the `nostr` crate; [`keys_pubkey`] names its public half.
#[verifier::external_type_specification]
#[verifier::external_body]
pub struct ExKeys(nostr::Keys);

/// Durable event-retention scope for one community relay and owner identity.
///
/// Persona, team, and managed-agent definitions are workspace-global, but
/// their relay heads and pending publications are not. Keeping a separate
/// database per relay and owner prevents a pending write created in community A
/// from being drained into community B after a workspace switch.
pub struct RetentionScope {
    pub db_path: std::path::PathBuf,
    pub relay_url: String,
    pub owner_keys: nostr::Keys,
}

/// The components of a path.
pub uninterp spec fn path_parts(path: &std::path::Path) -> Seq<Seq<char>>;

/// The components of an owned path.
pub uninterp spec fn owned_path_parts(path: std::path::PathBuf) -> Seq<Seq<char>>;

/// The public key of a key pair, in lower-case hex.
pub uninterp spec fn keys_pubkey(keys: nostr::Keys) -> Seq<char>;

/// The SHA-256 digest of some bytes.
pub uninterp spec fn sha256_of(data: Seq<u8>) -> Seq<u8>;

/// Whether a text is one ordinary path component on every platform.
pub open spec fn is_plain_part(part: Seq<char>) -> bool {
    &&& part.len() > 0
    &&& part[0] != '.'
    &&& forall|i: int|
        0 <= i < part.len() ==> (#[trigger] part[i]) != '/' && part[i] != '\\' && part[i] != ':'
}

/// The path of a file in a folder below a directory, by `std::path::Path::join`.
///
/// Trusted: joining an ordinary component adds it to the components of the path.
#[verifier::external_body]
fn path_below(base: &std::path::Path, folder: &str, file: &str) -> (path: std::path::PathBuf)
    requires
        is_plain_part(folder@),
        is_plain_part(file@),
    ensures
        owned_path_parts(path) == path_parts(base).push(folder@).push(file@),
{
    base.join(folder).join(file)
}

/// The public key of a key pair, by `nostr::Keys::public_key` and
/// `nostr::PublicKey::to_hex`.
///
/// Trusted: it depends on the key pair alone, and is the lower-case hex of 32 bytes.
#[verifier::external_body]
fn pubkey_of(keys: &nostr::Keys) -> (pubkey: String)
    ensures
        pubkey@ == keys_pubkey(*keys),
        is_hex_of(pubkey@, 32),
{
    keys.public_key().to_hex()
}

/// The SHA-256 digest of some bytes, by `sha2::Sha256`.
///
/// Trusted: it has 32 bytes and depends on the data alone.
#[verifier::external_body]
fn sha256(data: &[u8]) -> (digest: Vec<u8>)
    ensures
        digest@ == sha256_of(data@),
        digest@.len() == 32,
{
    <sha2::Sha256 as sha2::Digest>::digest(data).to_vec()
}

/// The form of a relay URL that identifies a retention scope.
pub open spec fn relay_scope(relay_url: Seq<char>) -> Seq<char> {
    without_trailing(trimmed(relay_url), '/')
}

/// The form of a public key that identifies a retention scope.
pub open spec fn owner_scope(owner_pubkey: Seq<char>) -> Seq<char> {
    ascii_lowered(trimmed(owner_pubkey))
}

/// What is hashed to name a scope: the owner, a zero byte, the relay.
pub open spec fn scope_key(relay_url: Seq<char>, owner_pubkey: Seq<char>) -> Seq<u8> {
    encode_utf8(owner_scope(owner_pubkey)) + seq![0u8] + encode_utf8(relay_scope(relay_url))
}

/// The file name of a scope's database.
pub open spec fn database_name(relay_url: Seq<char>, owner_pubkey: Seq<char>) -> Seq<char> {
    hex_text(sha256_of(scope_key(relay_url, owner_pubkey))) + ".db"@
}

/// The components of the path of a scope's database.
pub open spec fn database_parts(
    base: Seq<Seq<char>>,
    relay_url: Seq<char>,
    owner_pubkey: Seq<char>,
) -> Seq<Seq<char>> {
    base.push("retention"@).push(database_name(relay_url, owner_pubkey))
}

/// Decide whether `scope`, the workspace's active retention scope, is the one
/// that owns an event delivered by `arrival_relay_url`.
///
/// Inbound reconcile resolves its retention database when it processes an event,
/// while the event belongs to the community that delivered it. `None` means a
/// workspace switch happened in between and the caller must drop the event
/// rather than file community A's event into community B's store.
///
/// The comparison goes through the same normalization that
/// [`scoped_retention_db_path`] hashes, so "same relay" can never disagree with
/// "same database".
pub fn scope_for_arrival(scope: RetentionScope, arrival_relay_url: &str) -> (owning: Option<
    RetentionScope,
>)
    ensures
        owning == (if relay_scope(scope.relay_url@) == relay_scope(arrival_relay_url@) {
            Some(scope)
        } else {
            None
        }),
{
    let same_scope = same_text(
        normalized_relay_scope(scope.relay_url.as_str()),
        normalized_relay_scope(arrival_relay_url),
    );
    if same_scope {
        Some(scope)
    } else {
        None
    }
}

/// Relay-URL form that identifies a retention scope: equivalent workspace URLs
/// (surrounding space, trailing slash) must resolve to one scope.
pub fn normalized_relay_scope(relay_url: &str) -> (normalized: &str)
    ensures
        normalized@ == relay_scope(relay_url@),
{
    strip_trailing(relay_url.trim(), '/')
}

/// The file name of the retention database for a relay + owner pair.
///
/// The normalized scope is hashed so relay URLs never become path components.
pub fn retention_db_name(relay_url: &str, owner_pubkey: &str) -> (name: String)
    ensures
        name@ == database_name(relay_url@, owner_pubkey@),
        name@.len() == 67,
        is_plain_part(name@),
{
    let normalized_relay = normalized_relay_scope(relay_url);
    let owner = owner_pubkey.trim().to_ascii_lowercase();
    let mut key: Vec<u8> = owner.as_str().as_bytes_vec();
    key.push(0);
    let mut relay = normalized_relay.as_bytes_vec();
    key.append(&mut relay);
    assert(key@ =~= scope_key(relay_url@, owner_pubkey@));
    let digest = sha256(key.as_slice());
    let scope_id = hex_encode(digest.as_slice());
    proof {
        reveal_strlit(".db");
        let name = scope_id@ + ".db"@;
        assert forall|i: int| 0 <= i < name.len() implies (#[trigger] name[i]) != '/' && name[i]
            != '\\' && name[i] != ':' by {
            if i < 64 {
                assert(name[i] == scope_id@[i]);
            } else {
                assert(name[i] == ".db"@[i - 64]);
            }
        }
        assert(name[0] == scope_id@[0]);
    }
    scope_id.concat(".db")
}

/// Resolve the retention database path for a relay + owner pair.
///
/// The normalized scope is hashed so relay URLs never become path components.
/// Trimming a trailing slash keeps equivalent workspace URLs on one scope.
pub fn scoped_retention_db_path(
    base_dir: &std::path::Path,
    relay_url: &str,
    owner_pubkey: &str,
) -> (path: std::path::PathBuf)
    ensures
        owned_path_parts(path) == database_parts(
            path_parts(base_dir),
            relay_url@,
            owner_pubkey@,
        ),
        owned_path_parts(path).last().len() == 67,
        is_plain_part(owned_path_parts(path).last()),
{
    let name = retention_db_name(relay_url, owner_pubkey);
    proof {
        reveal_strlit("retention");
    }
    path_below(base_dir, "retention", name.as_str())
}

impl RetentionScope {
    /// Whether the owner's public key is the hex of 32 bytes and the database path is
    /// that of the relay and the owner below `base`.
    pub open spec fn is_resolved(self, base: Seq<Seq<char>>) -> bool {
        &&& is_hex_of(keys_pubkey(self.owner_keys), 32)
        &&& owned_path_parts(self.db_path) == database_parts(
            base,
            self.relay_url@,
            keys_pubkey(self.owner_keys),
        )
    }

    /// What is hashed to name the scope.
    pub open spec fn key(self) -> Seq<u8> {
        scope_key(self.relay_url@, keys_pubkey(self.owner_keys))
    }

    /// The scope of a relay and an owner, its database below `base_dir`.
    pub fn resolve(
        base_dir: &std::path::Path,
        relay_url: String,
        owner_keys: nostr::Keys,
    ) -> (scope: RetentionScope)
        ensures
            scope.relay_url == relay_url,
            scope.owner_keys == owner_keys,
            scope.is_resolved(path_parts(base_dir)),
    {
        let owner_pubkey = pubkey_of(&owner_keys);
        let db_path = scoped_retention_db_path(
            base_dir,
            relay_url.as_str(),
            owner_pubkey.as_str(),
        );
        RetentionScope { db_path, relay_url, owner_keys }
    }
}

/// Relay URLs that are the same relay have the same database, for every owner and
/// wherever the databases are kept.
pub proof fn law_same_relay_same_database(
    base: Seq<Seq<char>>,
    a: Seq<char>,
    b: Seq<char>,
    owner_pubkey: Seq<char>,
)
    requires
        relay_scope(a) == relay_scope(b),
    ensures
        database_parts(base, a, owner_pubkey) == database_parts(base, b, owner_pubkey),
{
}

/// White space around a relay URL and slashes after it do not change its scope.
pub proof fn law_equivalent_urls_share_a_scope(
    before: Seq<char>,
    url: Seq<char>,
    slashes: Seq<char>,
    after: Seq<char>,
)
    requires
        trimmed(url) == url,
        forall|i: int| 0 <= i < before.len() ==> is_white_space(#[trigger] before[i]),
        forall|i: int| 0 <= i < slashes.len() ==> (#[trigger] slashes[i]) == '/',
        forall|i: int| 0 <= i < after.len() ==> is_white_space(#[trigger] after[i]),
    ensures
        relay_scope(before + url + slashes + after) == relay_scope(url),
{
    assert(before + url + slashes + after =~= before + ((url + slashes) + after));
    lemma_trimmed_around(before, url, slashes, after);
    lemma_without_trailing_run(url, slashes, '/');
}

proof fn lemma_trim_front_skips(before: Seq<char>, rest: Seq<char>)
    requires
        forall|i: int| 0 <= i < before.len() ==> is_white_space(#[trigger] before[i]),
    ensures
        trim_front(before + rest) == trim_front(rest),
    decreases before.len(),
{
    if before.len() == 0 {
        assert(before + rest =~= rest);
    } else {
        assert((before + rest)[0] == before[0]);
        assert((before + rest).drop_first() =~= before.drop_first() + rest);
        lemma_trim_front_skips(before.drop_first(), rest);
    }
}

proof fn lemma_trim_back_skips(rest: Seq<char>, after: Seq<char>)
    requires
        forall|i: int| 0 <= i < after.len() ==> is_white_space(#[trigger] after[i]),
    ensures
        trim_back(rest + after) == trim_back(rest),
    decreases after.len(),
{
    if after.len() == 0 {
        assert(rest + after =~= rest);
    } else {
        assert((rest + after).last() == after[after.len() - 1]);
        assert((rest + after).drop_last() =~= rest + after.drop_last());
        lemma_trim_back_skips(rest, after.drop_last());
    }
}

proof fn lemma_trim_shortens(text: Seq<char>)
    ensures
        trim_front(text).len() <= text.len(),
        trim_back(text).len() <= text.len(),
    decreases text.len(),
{
    if text.len() > 0 {
        lemma_trim_shortens(text.drop_first());
        lemma_trim_shortens(text.drop_last());
    }
}

/// A text that trimming leaves alone has no white space at either end.
proof fn lemma_trimmed_ends(text: Seq<char>)
    requires
        trimmed(text) == text,
    ensures
        text.len() > 0 ==> !is_white_space(text[0]) && !is_white_space(text.last()),
{
    if text.len() > 0 {
        if is_white_space(text[0]) {
            lemma_trim_shortens(text.drop_first());
            lemma_trim_shortens(trim_front(text));
        }
        if is_white_space(text.last()) {
            lemma_trim_shortens(text.drop_last());
        }
    }
}

proof fn lemma_trimmed_around(
    before: Seq<char>,
    url: Seq<char>,
    slashes: Seq<char>,
    after: Seq<char>,
)
    requires
        trimmed(url) == url,
        forall|i: int| 0 <= i < before.len() ==> is_white_space(#[trigger] before[i]),
        forall|i: int| 0 <= i < slashes.len() ==> (#[trigger] slashes[i]) == '/',
        forall|i: int| 0 <= i < after.len() ==> is_white_space(#[trigger] after[i]),
    ensures
        trimmed(before + ((url + slashes) + after)) == url + slashes,
{
    let middle = url + slashes;
    lemma_trimmed_ends(url);
    lemma_trim_front_skips(before, middle + after);
    if middle.len() == 0 {
        assert(middle + after =~= after + Seq::empty());
        lemma_trim_front_skips(after, Seq::empty());
    } else {
        if url.len() == 0 {
            assert(middle[0] == slashes[0]);
        }
        if slashes.len() == 0 {
            assert(middle.last() == url.last());
        } else {
            assert(middle.last() == slashes[slashes.len() - 1]);
        }
        assert((middle + after)[0] == middle[0]);
        lemma_trim_back_skips(middle, after);
    }
}

proof fn lemma_without_trailing_run(text: Seq<char>, run: Seq<char>, c: char)
    requires
        forall|i: int| 0 <= i < run.len() ==> (#[trigger] run[i]) == c,
    ensures
        without_trailing(text + run, c) == without_trailing(text, c),
    decreases run.len(),
{
    if run.len() == 0 {
        assert(text + run =~= text);
    } else {
        assert((text + run).last() == run[run.len() - 1]);
        assert((text + run).drop_last() =~= text + run.drop_last());
        lemma_without_trailing_run(text, run.drop_last(), c);
    }
}

/// Two scopes hash the same input only if they are of the same owner and the same
/// relay.
pub proof fn law_scope_keys_are_distinct(
    relay_a: Seq<char>,
    owner_a: Seq<char>,
    relay_b: Seq<char>,
    owner_b: Seq<char>,
)
    requires
        !owner_scope(owner_a).contains('\0'),
        !owner_scope(owner_b).contains('\0'),
        scope_key(relay_a, owner_a) == scope_key(relay_b, owner_b),
    ensures
        owner_scope(owner_a) == owner_scope(owner_b),
        relay_scope(relay_a) == relay_scope(relay_b),
{
    let front_a = encode_utf8(owner_scope(owner_a));
    let front_b = encode_utf8(owner_scope(owner_b));
    let back_a = encode_utf8(relay_scope(relay_a));
    let back_b = encode_utf8(relay_scope(relay_b));
    let key_a = front_a + seq![0u8] + back_a;
    let key_b = front_b + seq![0u8] + back_b;
    lemma_no_zero_bytes(owner_scope(owner_a));
    lemma_no_zero_bytes(owner_scope(owner_b));
    assert(key_a == key_b);
    assert(key_a[front_a.len() as int] == 0);
    assert(key_b[front_b.len() as int] == 0);
    if front_a.len() < front_b.len() {
        assert(key_b[front_a.len() as int] == front_b[front_a.len() as int]);
    }
    if front_b.len() < front_a.len() {
        assert(key_a[front_b.len() as int] == front_a[front_b.len() as int]);
    }
    assert(key_a.take(front_a.len() as int) =~= front_a);
    assert(key_b.take(front_a.len() as int) =~= front_b);
    assert(key_a.skip((front_a.len() + 1) as int) =~= back_a);
    assert(key_b.skip((front_a.len() + 1) as int) =~= back_b);
    lemma_same_bytes_same_text(owner_scope(owner_a), owner_scope(owner_b));
    lemma_same_bytes_same_text(relay_scope(relay_a), relay_scope(relay_b));
}

/// Two scopes have the same database name only if what they hash has the same digest.
pub proof fn law_database_names_are_distinct(
    relay_a: Seq<char>,
    owner_a: Seq<char>,
    relay_b: Seq<char>,
    owner_b: Seq<char>,
)
    requires
        database_name(relay_a, owner_a) == database_name(relay_b, owner_b),
    ensures
        sha256_of(scope_key(relay_a, owner_a)) == sha256_of(scope_key(relay_b, owner_b)),
{
    let digest_a = sha256_of(scope_key(relay_a, owner_a));
    let digest_b = sha256_of(scope_key(relay_b, owner_b));
    let name = database_name(relay_a, owner_a);
    let len = (name.len() - ".db"@.len()) as int;
    assert(name.take(len) =~= hex_text(digest_a));
    assert(name.take(len) =~= hex_text(digest_b));
    law_hex_is_injective(digest_a, digest_b);
}

/// Two scopes share a database file only if they are of the same owner and the same
/// relay, provided that their keys do not collide under SHA-256.
pub proof fn law_scopes_have_their_own_databases(
    base: Seq<Seq<char>>,
    relay_a: Seq<char>,
    owner_a: Seq<char>,
    relay_b: Seq<char>,
    owner_b: Seq<char>,
)
    requires
        !owner_scope(owner_a).contains('\0'),
        !owner_scope(owner_b).contains('\0'),
        sha256_of(scope_key(relay_a, owner_a)) == sha256_of(scope_key(relay_b, owner_b))
            ==> scope_key(relay_a, owner_a) == scope_key(relay_b, owner_b),
        database_parts(base, relay_a, owner_a) == database_parts(base, relay_b, owner_b),
    ensures
        owner_scope(owner_a) == owner_scope(owner_b),
        relay_scope(relay_a) == relay_scope(relay_b),
{
    assert(database_parts(base, relay_a, owner_a).last() == database_name(relay_a, owner_a));
    assert(database_parts(base, relay_b, owner_b).last() == database_name(relay_b, owner_b));
    law_database_names_are_distinct(relay_a, owner_a, relay_b, owner_b);
    law_scope_keys_are_distinct(relay_a, owner_a, relay_b, owner_b);
}

/// For one owner the same database means the same relay, provided that the two keys do
/// not collide under SHA-256.
pub proof fn law_same_database_same_relay(
    base: Seq<Seq<char>>,
    relay_a: Seq<char>,
    relay_b: Seq<char>,
    owner_pubkey: Seq<char>,
)
    requires
        sha256_of(scope_key(relay_a, owner_pubkey)) == sha256_of(scope_key(relay_b, owner_pubkey))
            ==> scope_key(relay_a, owner_pubkey) == scope_key(relay_b, owner_pubkey),
        database_parts(base, relay_a, owner_pubkey) == database_parts(
            base,
            relay_b,
            owner_pubkey,
        ),
    ensures
        relay_scope(relay_a) == relay_scope(relay_b),
{
    let parts = database_parts(base, relay_a, owner_pubkey);
    assert(parts.last() == database_name(relay_a, owner_pubkey));
    assert(parts.last() == database_name(relay_b, owner_pubkey));
    law_database_names_are_distinct(relay_a, owner_pubkey, relay_b, owner_pubkey);
    let key = scope_key(relay_a, owner_pubkey);
    let front = encode_utf8(owner_scope(owner_pubkey)).len() + 1;
    assert(key.skip(front as int) =~= encode_utf8(relay_scope(relay_a)));
    assert(key.skip(front as int) =~= encode_utf8(relay_scope(relay_b)));
    lemma_same_bytes_same_text(relay_scope(relay_a), relay_scope(relay_b));
}

/// A public key in hex identifies its owner as it stands.
proof fn lemma_hex_owner(pubkey: Seq<char>)
    requires
        is_hex_of(pubkey, 32),
    ensures
        owner_scope(pubkey) == pubkey,
        !owner_scope(pubkey).contains('\0'),
{
    let bytes = hex_bytes(pubkey);
    lemma_hex_bytes_of(pubkey, 32);
    assert forall|i: int| 0 <= i < pubkey.len() implies !is_white_space(#[trigger] pubkey[i])
        && pubkey[i] != '\0' && ascii_lower(pubkey[i]) == pubkey[i] by {
        assert(pubkey[i] == hex_text(bytes)[i]);
    }
    assert(!is_white_space(pubkey[0]));
    assert(!is_white_space(pubkey[pubkey.len() - 1]));
    assert(trimmed(pubkey) == pubkey);
    assert(owner_scope(pubkey) =~= pubkey);
}

/// Two resolved scopes share a database only if they are of the same relay and the same
/// owner, provided that their keys do not collide under SHA-256.
pub proof fn law_resolved_scopes_have_their_own_databases(
    base: Seq<Seq<char>>,
    a: RetentionScope,
    b: RetentionScope,
)
    requires
        a.is_resolved(base),
        b.is_resolved(base),
        sha256_of(a.key()) == sha256_of(b.key()) ==> a.key() == b.key(),
        owned_path_parts(a.db_path) == owned_path_parts(b.db_path),
    ensures
        keys_pubkey(a.owner_keys) == keys_pubkey(b.owner_keys),
        relay_scope(a.relay_url@) == relay_scope(b.relay_url@),
{
    let owner_a = keys_pubkey(a.owner_keys);
    let owner_b = keys_pubkey(b.owner_keys);
    lemma_hex_owner(owner_a);
    lemma_hex_owner(owner_b);
    law_scopes_have_their_own_databases(base, a.relay_url@, owner_a, b.relay_url@, owner_b);
}

/// Only the null character has a zero byte in its encoding.
proof fn lemma_no_zero_bytes(text: Seq<char>)
    requires
        !text.contains('\0'),
    ensures
        forall|i: int| 0 <= i < encode_utf8(text).len() ==> (#[trigger] encode_utf8(text)[i]) != 0,
    decreases text.len(),
{
    if text.len() > 0 {
        let rest = text.drop_first();
        assert(!rest.contains('\0')) by {
            if rest.contains('\0') {
                let j = rest.index_of('\0');
                assert(text[j + 1] == '\0');
            }
        }
        lemma_no_zero_bytes(rest);
        assert(text[0] != '\0');
        let scalar = text[0] as u32;
        vstd::utf8::char_is_scalar(text[0]);
        vstd::utf8::char_u32_cast(text[0], scalar);
        assert(scalar != 0);
        lemma_scalar_without_zero(scalar);
        let whole = encode_scalar(scalar) + encode_utf8(rest);
        assert(encode_utf8(text) == whole);
        assert forall|i: int| 0 <= i < whole.len() implies (#[trigger] whole[i]) != 0 by {
            if i < encode_scalar(scalar).len() {
                assert(whole[i] == encode_scalar(scalar)[i]);
            } else {
                assert(whole[i] == encode_utf8(rest)[i - encode_scalar(scalar).len()]);
            }
        }
    }
}

proof fn lemma_scalar_without_zero(scalar: u32)
    requires
        scalar != 0,
    ensures
        forall|i: int|
            0 <= i < encode_scalar(scalar).len() ==> (#[trigger] encode_scalar(scalar)[i]) != 0,
{
    assert(vstd::utf8::has_width_1_encoding(scalar) && scalar != 0
        ==> vstd::utf8::leading_byte_width_1(scalar) != 0) by (bit_vector);
    assert(vstd::utf8::leading_byte_width_2(scalar) != 0) by (bit_vector);
    assert(vstd::utf8::leading_byte_width_3(scalar) != 0) by (bit_vector);
    assert(vstd::utf8::leading_byte_width_4(scalar) != 0) by (bit_vector);
    assert(vstd::utf8::last_continuation_byte(scalar) != 0) by (bit_vector);
    assert(vstd::utf8::second_last_continuation_byte(scalar) != 0) by (bit_vector);
    assert(vstd::utf8::third_last_continuation_byte(scalar) != 0) by (bit_vector);
}

/// The scope of a relay is its URL without the white space around it and the slashes that
/// then end it: it begins at the first place returned and ends before the second, slashes
/// follow up to the third, and all the rest is white space.
pub proof fn law_relay_scope_is_the_url_itself(url: Seq<char>) -> (places: (int, int, int))
    ensures
        ({
            let (i, k, j) = places;
            &&& 0 <= i <= k <= j <= url.len()
            &&& relay_scope(url) == url.subrange(i, k)
            &&& forall|l: int| 0 <= l < i ==> is_white_space(#[trigger] url[l])
            &&& forall|l: int| k <= l < j ==> (#[trigger] url[l]) == '/'
            &&& forall|l: int| j <= l < url.len() ==> is_white_space(#[trigger] url[l])
            &&& i < j ==> !is_white_space(url[i]) && !is_white_space(url[j - 1])
            &&& i < k ==> url[k - 1] != '/'
        }),
{
    let (i, j) = law_trimming_takes_white_space_only(url);
    let middle = trimmed(url);
    let k = law_stripping_takes_the_run_only(middle, '/');
    assert(middle.take(k) =~= url.subrange(i, i + k));
    assert forall|l: int| i + k <= l < j implies (#[trigger] url[l]) == '/' by {
        assert(middle[l - i] == url[l]);
    }
    if k > 0 {
        assert(middle[k - 1] == url[i + k - 1]);
    }
    (i, i + k, j)
}

/// A URL without white space around it and without a slash at its end is its own scope,
/// so that two such URLs share a scope only if they are the same.
pub proof fn law_plain_urls_are_their_own_scope(url: Seq<char>, other: Seq<char>)
    requires
        url.len() > 0 ==> !is_white_space(url[0]) && !is_white_space(url.last()) && url.last()
            != '/',
        other.len() > 0 ==> !is_white_space(other[0]) && !is_white_space(other.last())
            && other.last() != '/',
    ensures
        relay_scope(url) == url,
        relay_scope(other) == other,
        relay_scope(url) == relay_scope(other) <==> url == other,
{
    lemma_plain_url(url);
    lemma_plain_url(other);
}

proof fn lemma_plain_url(url: Seq<char>)
    requires
        url.len() > 0 ==> !is_white_space(url[0]) && !is_white_space(url.last()) && url.last()
            != '/',
    ensures
        relay_scope(url) == url,
{
    let (i, k, j) = law_relay_scope_is_the_url_itself(url);
    if url.len() > 0 {
        let last = url.len() - 1;
        if i > 0 {
            assert(is_white_space(url[0]));
        }
        if j < url.len() {
            assert(is_white_space(url[last]));
        }
        if k < j {
            assert(url[last] == '/');
        }
    }
    assert(url.subrange(i, k) =~= url);
}

/// The scope of an owner is the public key without the white space around it, each ASCII
/// capital made small and nothing else changed.
pub proof fn law_owner_scope_is_the_key_itself(owner_pubkey: Seq<char>) -> (places: (int, int))
    ensures
        ({
            let (i, j) = places;
            &&& 0 <= i <= j <= owner_pubkey.len()
            &&& owner_scope(owner_pubkey).len() == j - i
            &&& forall|l: int|
                i <= l < j ==> owner_scope(owner_pubkey)[l - i] == (if 'A' <= (
                #[trigger] owner_pubkey[l]) <= 'Z' {
                    (owner_pubkey[l] as u32 + 32) as char
                } else {
                    owner_pubkey[l]
                })
            &&& forall|l: int| 0 <= l < i ==> is_white_space(#[trigger] owner_pubkey[l])
            &&& forall|l: int|
                j <= l < owner_pubkey.len() ==> is_white_space(#[trigger] owner_pubkey[l])
            &&& i < j ==> !is_white_space(owner_pubkey[i]) && !is_white_space(owner_pubkey[j - 1])
        }),
{
    let (i, j) = law_trimming_takes_white_space_only(owner_pubkey);
    let middle = trimmed(owner_pubkey);
    assert forall|l: int| i <= l < j implies owner_scope(owner_pubkey)[l - i] == (if 'A' <= (
    #[trigger] owner_pubkey[l]) <= 'Z' {
        (owner_pubkey[l] as u32 + 32) as char
    } else {
        owner_pubkey[l]
    }) by {
        assert(middle[l - i] == owner_pubkey[l]);
    }
    (i, j)
}

/// A public key in lower-case hex is its own scope.
pub proof fn law_hex_owners_are_their_own_scope(owner_pubkey: Seq<char>)
    requires
        is_hex_of(owner_pubkey, 32),
    ensures
        owner_scope(owner_pubkey) == owner_pubkey,
{
    lemma_hex_owner(owner_pubkey);
}

/// The database of a scope stands in the folder `retention` below the base, under the
/// hex of the SHA-256 digest of owner, zero byte and relay, with the ending `.db`.
pub proof fn law_where_a_database_stands(
    base: Seq<Seq<char>>,
    relay_url: Seq<char>,
    owner_pubkey: Seq<char>,
)
    ensures
        ({
            let parts = database_parts(base, relay_url, owner_pubkey);
            &&& parts.len() == base.len() + 2
            &&& forall|i: int| 0 <= i < base.len() ==> parts[i] == #[trigger] base[i]
            &&& parts[base.len() as int] == "retention"@
            &&& parts.last() == database_name(relay_url, owner_pubkey)
            &&& parts.last() == hex_text(
                sha256_of(
                    encode_utf8(owner_scope(owner_pubkey)) + seq![0u8] + encode_utf8(
                        relay_scope(relay_url),
                    ),
                ),
            ) + ".db"@
        }),
{
}

/// A resolved scope has the database of its own relay and owner.
pub proof fn law_resolved_scope_has_its_database(scope: RetentionScope, base: Seq<Seq<char>>)
    requires
        scope.is_resolved(base),
    ensures
        is_hex_of(keys_pubkey(scope.owner_keys), 32),
        owned_path_parts(scope.db_path) == database_parts(
            base,
            scope.relay_url@,
            keys_pubkey(scope.owner_keys),
        ),
        scope.key() == encode_utf8(keys_pubkey(scope.owner_keys)) + seq![0u8] + encode_utf8(
            relay_scope(scope.relay_url@),
        ),
{
    lemma_hex_owner(keys_pubkey(scope.owner_keys));
}

} // verus!
