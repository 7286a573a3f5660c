//! Encrypted backups of the subscription list, kept as signed events.

use crate::json::{
    integer_field, json_fault, json_written, name_views, object_members, once_each, read_fault,
    read_record, reads_back, record, required_field, required_integer, required_string,
    write_members, written_views, JsonValue, JsonView,
};
use crate::network::decode_text;
use crate::nostr::{
    authentic, decrypt, decrypted, encrypt, npub_text, parsed_keys, read_keys, new_secret,
    sign_event, verify_event, write_npub, write_nsec, EventView, KeyPair, KeyView, SignedEvent,
};
use crate::opml::{feed_views, import, imported, OpmlFeed, OpmlFeedView};
use crate::packing::{
    base64_bytes, base64_text, from_base64, gunzipped, gzipped, pack, to_base64, unpack,
};
use crate::text::{
    byte_len, is_word, lower, same, same_ignoring_case, starts_with, trim, trim_end, trim_start,
    trimmed, views,
};
use vstd::prelude::*;
use vstd::utf8::{decode_utf8, encode_utf8, encode_utf8_decode_utf8, encode_utf8_valid_utf8, valid_utf8};

verus! {

/// The kind of an event that holds a backup.
pub const EVENT_KIND: u16 = 78;

/// What the one tag of such an event names, and the format of a backup.
pub const EVENT_IDENTIFIER: &'static str = "feedlizard-subscriptions-v1";

/// How the list in a backup is written down.
pub const ENVELOPE_ENCODING: &'static str = "gzip+base64";

/// How many snapshots are shown at first.
pub const DEFAULT_VISIBLE_SNAPSHOTS: usize = 5;

/// How many different events are looked into at most.
pub const MAX_HISTORY_CANDIDATES: usize = 100;

/// How many relays are used at most.
pub const MAX_CONFIGURED_RELAYS: usize = 8;

/// How many events are taken from all relays at most.
pub const MAX_RELAY_EVENTS: usize = 800;

/// The longest subscription list, in bytes.
pub const MAX_OPML_BYTES: usize = 4_194_304;

/// How many bytes are unpacked at most: one more than a list may have.
pub const UNPACK_LIMIT: u64 = 4_194_305;

/// The longest packed list, in bytes.
pub const MAX_COMPRESSED_BYTES: usize = 49_152;

/// The longest envelope, in bytes.
pub const MAX_ENVELOPE_BYTES: usize = 61_440;

/// The longest content of an event, in bytes.
pub const MAX_EVENT_CONTENT_BYTES: usize = 131_072;

/// Why there is no backup.
#[derive(Debug, Clone, PartialEq, Eq)]
pub enum BackupError {
    InvalidKey,
    SecretStorage(String),
    KeyMissing,
    InvalidBackup(String),
    SizeLimit,
    Nostr(String),
    NotFound,
    PublishFailed,
}

/// What a [`BackupError`] holds.
pub enum BackupErrorView {
    InvalidKey,
    SecretStorage(Seq<char>),
    KeyMissing,
    InvalidBackup(Seq<char>),
    SizeLimit,
    Nostr(Seq<char>),
    NotFound,
    PublishFailed,
}

impl View for BackupError {
    type V = BackupErrorView;

    open spec fn view(&self) -> BackupErrorView {
        match self {
            BackupError::InvalidKey => BackupErrorView::InvalidKey,
            BackupError::SecretStorage(text) => BackupErrorView::SecretStorage(text@),
            BackupError::KeyMissing => BackupErrorView::KeyMissing,
            BackupError::InvalidBackup(text) => BackupErrorView::InvalidBackup(text@),
            BackupError::SizeLimit => BackupErrorView::SizeLimit,
            BackupError::Nostr(text) => BackupErrorView::Nostr(text@),
            BackupError::NotFound => BackupErrorView::NotFound,
            BackupError::PublishFailed => BackupErrorView::PublishFailed,
        }
    }
}

impl BackupErrorView {
    /// The message for a reader.
    pub open spec fn message(self) -> Seq<char> {
        match self {
            BackupErrorView::InvalidKey => "invalid Nostr private key"@,
            BackupErrorView::SecretStorage(text) => "secure secret storage is unavailable: "@
                + text,
            BackupErrorView::KeyMissing => "no Nostr backup key is configured"@,
            BackupErrorView::InvalidBackup(text) => "backup data is invalid: "@ + text,
            BackupErrorView::SizeLimit => "backup exceeds the supported size limit"@,
            BackupErrorView::Nostr(text) => "Nostr operation failed: "@ + text,
            BackupErrorView::NotFound => "no valid FeedLizard backup was found"@,
            BackupErrorView::PublishFailed => "no relay accepted the backup"@,
        }
    }
}

impl BackupError {
    /// The message for a reader.
    pub fn message(&self) -> (r: String)
        ensures
            r@ == self@.message(),
    {
        let (start, rest) = match self {
            BackupError::InvalidKey => ("invalid Nostr private key", ""),
            BackupError::SecretStorage(text) => (
                "secure secret storage is unavailable: ",
                text.as_str(),
            ),
            BackupError::KeyMissing => ("no Nostr backup key is configured", ""),
            BackupError::InvalidBackup(text) => ("backup data is invalid: ", text.as_str()),
            BackupError::SizeLimit => ("backup exceeds the supported size limit", ""),
            BackupError::Nostr(text) => ("Nostr operation failed: ", text.as_str()),
            BackupError::NotFound => ("no valid FeedLizard backup was found", ""),
            BackupError::PublishFailed => ("no relay accepted the backup", ""),
        };
        proof {
            reveal_strlit("");
        }
        let mut out = start.to_owned();
        out.append(rest);
        assert(out@ == self@.message());
        out
    }
}

/// What a failure holds; nothing where there is none.
pub open spec fn backup_failure<T>(r: Result<T, BackupError>) -> Option<BackupErrorView> {
    match r {
        Ok(_) => None,
        Err(error) => Some(error@),
    }
}

/// An invalid backup, with the reason.
pub open spec fn invalid<T>(reason: Seq<char>) -> Result<T, BackupErrorView> {
    Err(BackupErrorView::InvalidBackup(reason))
}

/// Who a key belongs to.
#[derive(Debug, Clone, PartialEq, Eq)]
pub struct KeyIdentity {
    pub public_key_hex: String,
    pub npub: String,
}

/// What a [`KeyIdentity`] holds.
pub struct IdentityView {
    pub public_key_hex: Seq<char>,
    pub npub: Seq<char>,
}

impl View for KeyIdentity {
    type V = IdentityView;

    open spec fn view(&self) -> IdentityView {
        IdentityView { public_key_hex: self.public_key_hex@, npub: self.npub@ }
    }
}

/// A new key, and who it belongs to.
#[derive(Debug, Clone, PartialEq, Eq)]
pub struct GeneratedKey {
    pub identity: KeyIdentity,
    pub nsec: String,
}

/// What comes of looking at a key.
pub open spec fn identity_view(r: Result<KeyIdentity, BackupError>) -> Result<
    IdentityView,
    BackupErrorView,
> {
    match r {
        Ok(identity) => Ok(identity@),
        Err(error) => Err(error@),
    }
}

/// Who the owner of a pair of keys is.
pub open spec fn owner(keys: KeyView) -> Result<IdentityView, BackupErrorView> {
    match npub_text(keys.public) {
        Some(npub) => Ok(IdentityView { public_key_hex: keys.public, npub }),
        None => Err(BackupErrorView::InvalidKey),
    }
}

/// Who the owner of the secret key in a text is. White space around it does not
/// count.
pub open spec fn owner_of(nsec: Seq<char>) -> Result<IdentityView, BackupErrorView> {
    match parsed_keys(trim(nsec)) {
        Some(keys) => owner(keys),
        None => Err(BackupErrorView::InvalidKey),
    }
}

fn identity(keys: &KeyPair) -> (r: Result<KeyIdentity, BackupError>)
    ensures
        identity_view(r) == owner(keys@),
{
    match write_npub(keys.public.as_str()) {
        Some(npub) => Ok(KeyIdentity { public_key_hex: keys.public.clone(), npub }),
        None => Err(BackupError::InvalidKey),
    }
}

fn parse_keys(nsec: &str) -> (r: Result<KeyPair, BackupError>)
    ensures
        match parsed_keys(trim(nsec@)) {
            Some(keys) => r is Ok && r->Ok_0@ == keys && parsed_keys(keys.secret) == Some(keys)
                && npub_text(keys.public) is Some,
            None => backup_failure(r) == Some(BackupErrorView::InvalidKey),
        },
{
    let bare = trimmed(nsec);
    match read_keys(bare.as_str()) {
        Some(keys) => Ok(keys),
        None => Err(BackupError::InvalidKey),
    }
}

/// Who the owner of the secret key `nsec` is.
pub fn validate_key(nsec: &str) -> (r: Result<KeyIdentity, BackupError>)
    ensures
        identity_view(r) == owner_of(nsec@),
        r is Ok == parsed_keys(trim(nsec@)) is Some,
{
    match parse_keys(nsec) {
        Ok(keys) => identity(&keys),
        Err(error) => Err(error),
    }
}

proof fn lemma_word_stays(s: Seq<char>)
    requires
        is_word(s),
    ensures
        trim(s) == s,
{
    assert(!crate::text::is_space(s[0]));
    assert(trim_start(s) == s);
    assert(!crate::text::is_space(s[s.len() - 1]));
    assert(trim_end(s) == s);
}

/// A new key, drawn by chance. It reads as a key, and its owner is the one that
/// is told.
pub fn generate_key() -> (r: Result<GeneratedKey, BackupError>)
    ensures
        r is Ok,
        starts_with(r->Ok_0.nsec@, "nsec1"@),
        owner_of(r->Ok_0.nsec@) == Ok::<IdentityView, BackupErrorView>(r->Ok_0.identity@),
{
    let secret = new_secret();
    match write_nsec(secret.as_str()) {
        Some(nsec) => {
            proof {
                lemma_word_stays(nsec@);
            }
            match validate_key(nsec.as_str()) {
                Ok(identity) => Ok(GeneratedKey { identity, nsec }),
                Err(error) => Err(error),
            }
        },
        None => Err(BackupError::InvalidKey),
    }
}

/// Who the owner of the stored key is, after `loaded` came out of the store:
/// nobody where there is none.
pub fn stored_identity(loaded: Result<String, BackupError>) -> (r: Result<
    Option<KeyIdentity>,
    BackupError,
>)
    ensures
        match loaded {
            Ok(nsec) => match owner_of(nsec@) {
                Ok(identity) => r is Ok && r->Ok_0 is Some && r->Ok_0->0@ == identity,
                Err(error) => backup_failure(r) == Some(error),
            },
            Err(BackupError::KeyMissing) => r is Ok && r->Ok_0 is None,
            Err(error) => backup_failure(r) == Some(error@),
        },
{
    match loaded {
        Ok(nsec) => match validate_key(nsec.as_str()) {
            Ok(identity) => Ok(Some(identity)),
            Err(error) => Err(error),
        },
        Err(BackupError::KeyMissing) => Ok(None),
        Err(error) => Err(error),
    }
}

/// The key that the bytes of a stored secret spell.
pub fn stored_key(bytes: Vec<u8>) -> (r: Result<String, BackupError>)
    ensures
        if valid_utf8(bytes@) {
            r is Ok && r->Ok_0@ == decode_utf8(bytes@)
        } else {
            backup_failure(r) == Some(
                BackupErrorView::SecretStorage("stored key is not valid text"@),
            )
        },
{
    match decode_text(bytes) {
        Some(text) => Ok(text),
        None => Err(BackupError::SecretStorage("stored key is not valid text".to_owned())),
    }
}

/// A backup that was read: when it was made, the list in it, and how many feeds
/// and folders the list has.
#[derive(Debug, Clone, PartialEq, Eq)]
pub struct BackupPreview {
    pub created_at: i64,
    pub opml: String,
    pub feed_count: usize,
    pub folder_count: usize,
}

/// What a [`BackupPreview`] holds.
pub struct PreviewView {
    pub created_at: i64,
    pub opml: Seq<char>,
    pub feed_count: nat,
    pub folder_count: nat,
}

impl View for BackupPreview {
    type V = PreviewView;

    open spec fn view(&self) -> PreviewView {
        PreviewView {
            created_at: self.created_at,
            opml: self.opml@,
            feed_count: self.feed_count as nat,
            folder_count: self.folder_count as nat,
        }
    }
}

/// What comes of reading a backup.
pub open spec fn preview_view(r: Result<BackupPreview, BackupError>) -> Result<
    PreviewView,
    BackupErrorView,
> {
    match r {
        Ok(preview) => Ok(preview@),
        Err(error) => Err(error@),
    }
}

/// The folder at the end of `path` lies on the way to one of the feeds.
pub open spec fn leads_to(feeds: Seq<OpmlFeedView>, path: Seq<Seq<char>>) -> bool {
    exists|i: int, depth: int|
        0 <= i < feeds.len() && 0 < depth <= feeds[i].folders.len() && path
            == #[trigger] feeds[i].folders.take(depth)
}

/// The folders of a list, each as the way to it.
pub open spec fn folder_paths(feeds: Seq<OpmlFeedView>) -> Set<Seq<Seq<char>>> {
    Set::new(|path: Seq<Seq<char>>| leads_to(feeds, path))
}

/// What the paths of a list hold.
pub open spec fn path_views(list: Seq<Vec<String>>) -> Seq<Seq<Seq<char>>> {
    Seq::new(list.len(), |i: int| views(list[i]@))
}

fn same_path(path: &Vec<String>, folders: &Vec<String>, depth: usize) -> (r: bool)
    requires
        depth <= folders@.len(),
    ensures
        r == (views(path@) == views(folders@).take(depth as int)),
{
    let ghost wanted = views(folders@).take(depth as int);
    if path.len() != depth {
        assert(views(path@).len() != wanted.len());
        return false;
    }
    let mut i: usize = 0;
    while i < depth
        invariant
            i <= depth == path@.len(),
            depth <= folders@.len(),
            wanted == views(folders@).take(depth as int),
            forall|j: int| 0 <= j < i ==> #[trigger] path@[j]@ == folders@[j]@,
        decreases depth - i,
    {
        if !same(path[i].as_str(), folders[i].as_str()) {
            assert(views(path@)[i as int] != wanted[i as int]);
            return false;
        }
        i += 1;
    }
    assert(views(path@) == wanted);
    true
}

fn copied_path(folders: &Vec<String>, depth: usize) -> (r: Vec<String>)
    requires
        depth <= folders@.len(),
    ensures
        views(r@) == views(folders@).take(depth as int),
{
    let mut out: Vec<String> = Vec::new();
    let mut i: usize = 0;
    while i < depth
        invariant
            i <= depth <= folders@.len(),
            out@.len() == i,
            forall|j: int| 0 <= j < i ==> #[trigger] out@[j]@ == folders@[j]@,
        decreases depth - i,
    {
        out.push(folders[i].clone());
        i += 1;
    }
    assert(views(out@) == views(folders@).take(depth as int));
    out
}

fn knows_path(paths: &Vec<Vec<String>>, folders: &Vec<String>, depth: usize) -> (r: bool)
    requires
        depth <= folders@.len(),
    ensures
        r == path_views(paths@).contains(views(folders@).take(depth as int)),
{
    let ghost all = path_views(paths@);
    let ghost wanted = views(folders@).take(depth as int);
    let mut i: usize = 0;
    while i < paths.len()
        invariant
            i <= paths@.len(),
            depth <= folders@.len(),
            all == path_views(paths@),
            wanted == views(folders@).take(depth as int),
            forall|j: int| 0 <= j < i ==> #[trigger] all[j] != wanted,
        decreases paths@.len() - i,
    {
        assert(all[i as int] == views(paths@[i as int]@));
        if same_path(&paths[i], folders, depth) {
            return true;
        }
        i += 1;
    }
    false
}

/// `path` leads to one of the first feeds, or to a folder round the next one, at
/// most `depth` deep.
spec fn met(feeds: Seq<OpmlFeedView>, i: int, depth: int, path: Seq<Seq<char>>) -> bool {
    leads_to(feeds.take(i), path) || exists|d: int|
        0 < d <= depth && path == #[trigger] feeds[i].folders.take(d)
}

proof fn lemma_met_feed(feeds: Seq<OpmlFeedView>, i: int)
    requires
        0 <= i < feeds.len(),
    ensures
        forall|path: Seq<Seq<char>>| #[trigger]
            leads_to(feeds.take(i + 1), path) == met(
                feeds,
                i,
                feeds[i].folders.len() as int,
                path,
            ),
{
    let shorter = feeds.take(i);
    let longer = feeds.take(i + 1);
    let deepest = feeds[i].folders.len() as int;
    assert forall|path: Seq<Seq<char>>| #[trigger]
        leads_to(longer, path) == met(feeds, i, deepest, path) by {
        if leads_to(longer, path) {
            let (k, depth) = choose|k: int, depth: int|
                0 <= k < longer.len() && 0 < depth <= longer[k].folders.len() && path
                    == #[trigger] longer[k].folders.take(depth);
            if k < i {
                assert(shorter[k] == longer[k]);
                assert(path == shorter[k].folders.take(depth));
            } else {
                assert(longer[k] == feeds[i]);
                assert(path == feeds[i].folders.take(depth));
            }
        }
        if leads_to(shorter, path) {
            let (k, depth) = choose|k: int, depth: int|
                0 <= k < shorter.len() && 0 < depth <= shorter[k].folders.len() && path
                    == #[trigger] shorter[k].folders.take(depth);
            assert(longer[k] == shorter[k]);
            assert(path == longer[k].folders.take(depth));
        }
        if exists|d: int| 0 < d <= deepest && path == #[trigger] feeds[i].folders.take(d) {
            let d = choose|d: int| 0 < d <= deepest && path == #[trigger] feeds[i].folders.take(d);
            assert(longer[i] == feeds[i]);
            assert(path == longer[i].folders.take(d));
        }
    }
}

/// How many different folders there are round the feeds of a list.
fn count_folders(feeds: &Vec<OpmlFeed>) -> (r: usize)
    ensures
        r == folder_paths(feed_views(feeds@)).len(),
{
    let ghost all = feed_views(feeds@);
    let mut paths: Vec<Vec<String>> = Vec::new();
    let mut i: usize = 0;
    assert(all.take(0).len() == 0);
    while i < feeds.len()
        invariant
            i <= feeds@.len(),
            all == feed_views(feeds@),
            path_views(paths@).no_duplicates(),
            forall|path: Seq<Seq<char>>| #[trigger]
                path_views(paths@).contains(path) == leads_to(all.take(i as int), path),
        decreases feeds@.len() - i,
    {
        assert(all[i as int] == feeds@[i as int]@);
        let folders = &feeds[i].folders;
        let count: usize = folders.len();
        let mut depth: usize = 0;
        while depth < count
            invariant
                depth <= count == folders@.len(),
                i < feeds@.len(),
                all == feed_views(feeds@),
                all[i as int].folders == views(folders@),
                path_views(paths@).no_duplicates(),
                forall|path: Seq<Seq<char>>| #[trigger]
                    path_views(paths@).contains(path) == met(all, i as int, depth as int, path),
            decreases count - depth,
        {
            let ghost before = path_views(paths@);
            let ghost wanted = views(folders@).take(depth + 1);
            let known = knows_path(&paths, folders, depth + 1);
            if !known {
                paths.push(copied_path(folders, depth + 1));
                assert(path_views(paths@) == before.push(wanted));
            }
            assert forall|path: Seq<Seq<char>>| #[trigger]
                path_views(paths@).contains(path) == met(all, i as int, depth + 1, path) by {
                let now = path_views(paths@);
                if now.contains(path) {
                    let k = choose|k: int| 0 <= k < now.len() && now[k] == path;
                    if k < before.len() {
                        assert(before[k] == path);
                        assert(before.contains(path));
                    } else {
                        assert(path == all[i as int].folders.take(depth + 1));
                    }
                }
                if met(all, i as int, depth + 1, path) {
                    if met(all, i as int, depth as int, path) {
                        assert(before.contains(path));
                        let k = choose|k: int| 0 <= k < before.len() && before[k] == path;
                        assert(now[k] == path);
                    } else {
                        let d = choose|d: int|
                            0 < d <= depth + 1 && path == #[trigger] all[i as int].folders.take(d);
                        assert(d == depth + 1);
                        if !known {
                            assert(now[before.len() as int] == path);
                        }
                    }
                }
            }
            depth += 1;
        }
        proof {
            lemma_met_feed(all, i as int);
        }
        i += 1;
    }
    assert(all.take(i as int) == all);
    proof {
        path_views(paths@).unique_seq_to_set();
        assert(path_views(paths@).to_set() =~= folder_paths(all));
    }
    paths.len()
}

/// What the members of the envelope of a list hold.
pub open spec fn envelope_members(created_at: i64, payload: Seq<char>) -> Seq<
    (Seq<char>, JsonView),
> {
    seq![
        ("format"@, JsonView::Text(EVENT_IDENTIFIER@)),
        ("created_at"@, JsonView::Number(created_at)),
        ("encoding"@, JsonView::Text(ENVELOPE_ENCODING@)),
        ("opml"@, JsonView::Text(payload)),
    ]
}

/// The envelope of a subscription list.
pub open spec fn envelope(opml: Seq<char>, created_at: i64) -> Result<
    Seq<char>,
    BackupErrorView,
> {
    if byte_len(opml) > MAX_OPML_BYTES {
        Err(BackupErrorView::SizeLimit)
    } else {
        match gzipped(encode_utf8(opml)) {
            None => invalid("compression failed"@),
            Some(packed) => if packed.len() > MAX_COMPRESSED_BYTES {
                Err(BackupErrorView::SizeLimit)
            } else {
                match json_written(envelope_members(created_at, base64_text(packed))) {
                    None => invalid("envelope cannot be written"@),
                    Some(text) => if byte_len(text) > MAX_ENVELOPE_BYTES {
                        Err(BackupErrorView::SizeLimit)
                    } else {
                        Ok(text)
                    },
                }
            },
        }
    }
}

/// What an envelope says.
pub struct EnvelopeView {
    pub format: Seq<char>,
    pub created_at: i64,
    pub encoding: Seq<char>,
    pub opml: Seq<char>,
}

/// The fields of an envelope.
pub open spec fn envelope_names() -> Seq<Seq<char>> {
    seq!["format"@, "created_at"@, "encoding"@, "opml"@]
}

/// What the envelope in a text says; nothing where there is none.
pub open spec fn opened(text: Seq<char>) -> Option<EnvelopeView> {
    match record(text, envelope_names()) {
        None => None,
        Some(fields) => {
            let format = required_string(fields.field("format"@, 0));
            let created_at = required_integer(fields.field("created_at"@, 1));
            let encoding = required_string(fields.field("encoding"@, 2));
            let opml = required_string(fields.field("opml"@, 3));
            if format is Some && created_at is Some && encoding is Some && opml is Some {
                Some(
                    EnvelopeView {
                        format: format->0,
                        created_at: created_at->0,
                        encoding: encoding->0,
                        opml: opml->0,
                    },
                )
            } else {
                None
            }
        },
    }
}

/// The list that unpacked bytes spell, as a backup made at a time.
pub open spec fn listed(created_at: i64, bytes: Seq<u8>) -> Result<PreviewView, BackupErrorView> {
    if bytes.len() > MAX_OPML_BYTES {
        Err(BackupErrorView::SizeLimit)
    } else if !valid_utf8(bytes) {
        invalid("OPML is not UTF-8"@)
    } else {
        match imported(decode_utf8(bytes)) {
            Err(error) => invalid("invalid OPML: "@ + error.message()),
            Ok(library) => Ok(
                PreviewView {
                    created_at,
                    opml: decode_utf8(bytes),
                    feed_count: library.feeds.len(),
                    folder_count: folder_paths(library.feeds).len(),
                },
            ),
        }
    }
}

/// The backup in an envelope.
pub open spec fn decoded(text: Seq<char>) -> Result<PreviewView, BackupErrorView> {
    if byte_len(text) > MAX_ENVELOPE_BYTES {
        Err(BackupErrorView::SizeLimit)
    } else {
        match opened(text) {
            None => match json_fault(text) {
                Some(fault) => invalid(fault),
                None => invalid("envelope cannot be read"@),
            },
            Some(said) => if said.format != EVENT_IDENTIFIER@ || said.encoding
                != ENVELOPE_ENCODING@ {
                invalid("unsupported backup format"@)
            } else {
                match base64_bytes(said.opml) {
                    None => invalid("invalid base64 payload"@),
                    Some(packed) => if packed.len() > MAX_COMPRESSED_BYTES {
                        Err(BackupErrorView::SizeLimit)
                    } else {
                        match gunzipped(packed, UNPACK_LIMIT) {
                            None => invalid("invalid compressed payload"@),
                            Some(bytes) => listed(said.created_at, bytes),
                        }
                    },
                }
            },
        }
    }
}

/// What comes of writing an envelope.
pub open spec fn text_result(r: Result<String, BackupError>) -> Result<
    Seq<char>,
    BackupErrorView,
> {
    match r {
        Ok(text) => Ok(text@),
        Err(error) => Err(error@),
    }
}

/// The backup that `bytes`, unpacked from a backup made at `created_at`, spell.
pub fn preview_of(created_at: i64, bytes: Vec<u8>) -> (r: Result<BackupPreview, BackupError>)
    ensures
        preview_view(r) == listed(created_at, bytes@),
{
    if bytes.len() > MAX_OPML_BYTES {
        return Err(BackupError::SizeLimit);
    }
    let opml = match decode_text(bytes) {
        Some(text) => text,
        None => {
            return Err(BackupError::InvalidBackup("OPML is not UTF-8".to_owned()));
        },
    };
    match import(opml.as_str()) {
        Ok(library) => {
            let folder_count = count_folders(&library.feeds);
            Ok(BackupPreview { created_at, opml, feed_count: library.feeds.len(), folder_count })
        },
        Err(error) => {
            let mut reason = "invalid OPML: ".to_owned();
            let message = error.message();
            reason.append(message.as_str());
            Err(BackupError::InvalidBackup(reason))
        },
    }
}

/// The subscription list `opml` in an envelope: packed, written as text, and
/// dated. Opened again, the envelope gives the list back.
pub fn encode_envelope(opml: &str, created_at: i64) -> (r: Result<String, BackupError>)
    ensures
        text_result(r) == envelope(opml@, created_at),
        r is Ok ==> r->Ok_0@.len() >= 2,
        r is Ok ==> decoded(r->Ok_0@) == listed(created_at, encode_utf8(opml@)),
{
    if opml.as_bytes().len() > MAX_OPML_BYTES {
        return Err(BackupError::SizeLimit);
    }
    let packed = match pack(opml.as_bytes()) {
        Some(bytes) => bytes,
        None => {
            return Err(BackupError::InvalidBackup("compression failed".to_owned()));
        },
    };
    if packed.len() > MAX_COMPRESSED_BYTES {
        return Err(BackupError::SizeLimit);
    }
    let payload = to_base64(packed.as_slice());
    let ghost text = payload@;
    let mut members: Vec<(String, JsonValue)> = Vec::new();
    members.push(("format".to_owned(), JsonValue::Text(EVENT_IDENTIFIER.to_owned())));
    members.push(("created_at".to_owned(), JsonValue::Number(created_at)));
    members.push(("encoding".to_owned(), JsonValue::Text(ENVELOPE_ENCODING.to_owned())));
    members.push(("opml".to_owned(), JsonValue::Text(payload)));
    let ghost wanted = envelope_members(created_at, text);
    assert(written_views(members@) == wanted);
    proof {
        reveal_strlit("format");
        reveal_strlit("created_at");
        reveal_strlit("encoding");
        reveal_strlit("opml");
        assert("format"@[0] == 'f' && "created_at"@[0] == 'c' && "encoding"@[0] == 'e'
            && "opml"@[0] == 'o');
    }
    match write_members(&members) {
        Some(written) => {
            if written.as_str().as_bytes().len() > MAX_ENVELOPE_BYTES {
                return Err(BackupError::SizeLimit);
            }
            proof {
                assert(reads_back(written@, wanted));
                assert(wanted[0].0 == "format"@ && wanted[1].0 == "created_at"@ && wanted[2].0
                    == "encoding"@ && wanted[3].0 == "opml"@);
                let list = object_members(written@)->0;
                assert(list[0].0 == "format"@ && list[1].0 == "created_at"@ && list[2].0
                    == "encoding"@ && list[3].0 == "opml"@);
                assert(once_each(list, envelope_names()));
                reveal_with_fuel(crate::json::member_from, 5);
            }
            Ok(written)
        },
        None => Err(BackupError::InvalidBackup("envelope cannot be written".to_owned())),
    }
}

/// What an envelope says.
struct Envelope {
    format: String,
    created_at: i64,
    encoding: String,
    opml: String,
}

fn open_envelope(text: &str) -> (r: Option<Envelope>)
    ensures
        match opened(text@) {
            Some(said) => r is Some && r->0.format@ == said.format && r->0.created_at
                == said.created_at && r->0.encoding@ == said.encoding && r->0.opml@ == said.opml,
            None => r is None,
        },
{
    let names = vec!["format", "created_at", "encoding", "opml"];
    assert(name_views(names@) == envelope_names());
    let fields = match read_record(text, &names) {
        Some(fields) => fields,
        None => {
            return None;
        },
    };
    let format = required_field(fields.field("format", 0));
    let created_at = integer_field(fields.field("created_at", 1));
    let encoding = required_field(fields.field("encoding", 2));
    let opml = required_field(fields.field("opml", 3));
    match (format, created_at, encoding, opml) {
        (Some(format), Some(created_at), Some(encoding), Some(opml)) => Some(
            Envelope { format, created_at, encoding, opml },
        ),
        _ => None,
    }
}

/// The backup in the envelope `input`.
pub fn decode_envelope(input: &str) -> (r: Result<BackupPreview, BackupError>)
    ensures
        preview_view(r) == decoded(input@),
{
    if input.as_bytes().len() > MAX_ENVELOPE_BYTES {
        return Err(BackupError::SizeLimit);
    }
    let said = match open_envelope(input) {
        Some(said) => said,
        None => {
            let reason = match read_fault(input) {
                Some(fault) => fault,
                None => "envelope cannot be read".to_owned(),
            };
            return Err(BackupError::InvalidBackup(reason));
        },
    };
    if !same(said.format.as_str(), EVENT_IDENTIFIER) || !same(
        said.encoding.as_str(),
        ENVELOPE_ENCODING,
    ) {
        return Err(BackupError::InvalidBackup("unsupported backup format".to_owned()));
    }
    let packed = match from_base64(said.opml.as_str()) {
        Some(bytes) => bytes,
        None => {
            return Err(BackupError::InvalidBackup("invalid base64 payload".to_owned()));
        },
    };
    if packed.len() > MAX_COMPRESSED_BYTES {
        return Err(BackupError::SizeLimit);
    }
    match unpack(packed.as_slice(), UNPACK_LIMIT) {
        Some(bytes) => preview_of(said.created_at, bytes),
        None => Err(BackupError::InvalidBackup("invalid compressed payload".to_owned())),
    }
}

/// The time that a backup bears: 1970 at the earliest.
pub open spec fn borne_time(created_at: i64) -> i64 {
    if created_at < 0 {
        0
    } else {
        created_at
    }
}

/// An event is the backup of the text of an envelope, made by the owner of
/// keys.
pub open spec fn is_backup_of(
    event: EventView,
    keys: KeyView,
    text: Seq<char>,
    created_at: i64,
) -> bool {
    &&& event.kind == EVENT_KIND
    &&& event.tags == seq![seq!["d"@, EVENT_IDENTIFIER@]]
    &&& event.pubkey == keys.public
    &&& event.created_at == created_at
    &&& authentic(event)
    &&& decrypted(keys.secret, event.content) == Some(text)
}

/// Why an event cannot be a backup of the owner of a public key, before it is
/// decrypted; nothing where it can.
pub open spec fn event_fault(event: EventView, public: Seq<char>, accepted: bool) -> Option<
    BackupErrorView,
> {
    if byte_len(event.content) > MAX_EVENT_CONTENT_BYTES {
        Some(BackupErrorView::SizeLimit)
    } else if !accepted {
        Some(BackupErrorView::InvalidBackup("event signature is invalid"@))
    } else if lower(event.pubkey) != lower(public) {
        Some(
            BackupErrorView::InvalidBackup("event author does not match the configured key"@),
        )
    } else if event.kind != EVENT_KIND || event.tags != seq![seq!["d"@, EVENT_IDENTIFIER@]] {
        Some(BackupErrorView::InvalidBackup("event is not a FeedLizard subscription backup"@))
    } else {
        None
    }
}

/// A backup, if it was made at the time that its event tells.
pub open spec fn dated(preview: PreviewView, event_time: u64) -> Result<
    PreviewView,
    BackupErrorView,
> {
    if preview.created_at != event_time {
        invalid("envelope and event timestamps do not match"@)
    } else {
        Ok(preview)
    }
}

/// The backup in an event, for the owner of a secret key.
pub open spec fn previewed(nsec: Seq<char>, event: EventView) -> Result<
    PreviewView,
    BackupErrorView,
> {
    match parsed_keys(trim(nsec)) {
        None => Err(BackupErrorView::InvalidKey),
        Some(keys) => match event_fault(event, keys.public, authentic(event)) {
            Some(error) => Err(error),
            None => match decrypted(keys.secret, event.content) {
                None => invalid("decryption failed"@),
                Some(text) => match decoded(text) {
                    Err(error) => Err(error),
                    Ok(preview) => dated(preview, event.created_at),
                },
            },
        },
    }
}

/// A text that is not empty has bytes.
proof fn lemma_some_bytes(text: Seq<char>)
    requires
        text.len() > 0,
    ensures
        byte_len(text) >= 1,
{
    vstd::utf8::encode_utf8_first_scalar(text);
    vstd::utf8::char_is_scalar(text[0]);
}

/// A backup of the subscription list `opml`, signed with the secret key `nsec`.
/// The event and the envelope in it bear one time, which is held at 1970 where
/// it lies before. Reading the event with the same key gives what the list
/// holds.
pub fn create_backup_event(nsec: &str, opml: &str, created_at: i64) -> (r: Result<
    SignedEvent,
    BackupError,
>)
    ensures
        match parsed_keys(trim(nsec@)) {
            None => backup_failure(r) == Some(BackupErrorView::InvalidKey),
            Some(keys) => match envelope(opml@, borne_time(created_at)) {
                Err(error) => backup_failure(r) == Some(error),
                Ok(text) => r is Ok && is_backup_of(
                    r->Ok_0@,
                    keys,
                    text,
                    borne_time(created_at),
                ),
            },
        },
        r is Ok ==> previewed(nsec@, r->Ok_0@) == listed(
            borne_time(created_at),
            encode_utf8(opml@),
        ),
{
    let keys = match parse_keys(nsec) {
        Ok(keys) => keys,
        Err(error) => {
            return Err(error);
        },
    };
    let time: i64 = if created_at < 0 {
        0
    } else {
        created_at
    };
    let plaintext = match encode_envelope(opml, time) {
        Ok(text) => text,
        Err(error) => {
            return Err(error);
        },
    };
    proof {
        lemma_some_bytes(plaintext@);
    }
    let content = match encrypt(keys.secret.as_str(), plaintext.as_str()) {
        Ok(content) => content,
        Err(error) => {
            return Err(BackupError::Nostr(error));
        },
    };
    match sign_event(
        keys.secret.as_str(),
        EVENT_KIND,
        EVENT_IDENTIFIER,
        content.as_str(),
        time as u64,
    ) {
        Some(event) => Ok(event),
        None => Err(BackupError::InvalidKey),
    }
}

fn names_backup(tags: &Vec<Vec<String>>) -> (r: bool)
    ensures
        r == (crate::nostr::tag_views(tags@) == seq![seq!["d"@, EVENT_IDENTIFIER@]]),
{
    let ghost all = crate::nostr::tag_views(tags@);
    let ghost wanted = seq![seq!["d"@, EVENT_IDENTIFIER@]];
    if tags.len() != 1 {
        assert(all.len() != wanted.len());
        return false;
    }
    assert(all[0] == views(tags@[0]@));
    if tags[0].len() != 2 {
        assert(all[0].len() != wanted[0].len());
        return false;
    }
    assert(all[0][0] == tags@[0]@[0]@);
    assert(all[0][1] == tags@[0]@[1]@);
    assert(wanted[0][0] == "d"@);
    assert(wanted[0][1] == EVENT_IDENTIFIER@);
    if same(tags[0][0].as_str(), "d") && same(tags[0][1].as_str(), EVENT_IDENTIFIER) {
        assert(all[0] == wanted[0]);
        assert(all == wanted);
        true
    } else {
        false
    }
}

/// Whether `event` can be a backup of the owner of the public key `public`,
/// where `accepted` tells whether its id and signature are right.
pub fn check_event(event: &SignedEvent, public: &str, accepted: bool) -> (r: Result<
    (),
    BackupError,
>)
    ensures
        backup_failure(r) == event_fault(event@, public@, accepted),
{
    if event.content.as_str().as_bytes().len() > MAX_EVENT_CONTENT_BYTES {
        return Err(BackupError::SizeLimit);
    }
    if !accepted {
        return Err(BackupError::InvalidBackup("event signature is invalid".to_owned()));
    }
    if !same_ignoring_case(event.pubkey.as_str(), public) {
        return Err(
            BackupError::InvalidBackup(
                "event author does not match the configured key".to_owned(),
            ),
        );
    }
    if event.kind != EVENT_KIND || !names_backup(&event.tags) {
        return Err(
            BackupError::InvalidBackup(
                "event is not a FeedLizard subscription backup".to_owned(),
            ),
        );
    }
    Ok(())
}

/// The backup `preview`, if it was made at the time that its event tells.
pub fn check_time(preview: BackupPreview, event_time: u64) -> (r: Result<
    BackupPreview,
    BackupError,
>)
    ensures
        preview_view(r) == dated(preview@, event_time),
{
    if preview.created_at < 0 || preview.created_at as u64 != event_time {
        Err(
            BackupError::InvalidBackup("envelope and event timestamps do not match".to_owned()),
        )
    } else {
        Ok(preview)
    }
}

/// The backup in `event`, read with the secret key `nsec`.
pub fn decrypt_backup_event(nsec: &str, event: &SignedEvent) -> (r: Result<
    BackupPreview,
    BackupError,
>)
    ensures
        preview_view(r) == previewed(nsec@, event@),
{
    let keys = match parse_keys(nsec) {
        Ok(keys) => keys,
        Err(error) => {
            return Err(error);
        },
    };
    let accepted = verify_event(event).is_some();
    match check_event(event, keys.public.as_str(), accepted) {
        Ok(()) => {},
        Err(error) => {
            return Err(error);
        },
    }
    let plaintext = match decrypt(keys.secret.as_str(), event.content.as_str()) {
        Some(text) => text,
        None => {
            return Err(BackupError::InvalidBackup("decryption failed".to_owned()));
        },
    };
    match decode_envelope(plaintext.as_str()) {
        Ok(preview) => check_time(preview, event.created_at),
        Err(error) => Err(error),
    }
}

/// What comes out of the backup of a list that can be read is that list.
pub proof fn law_backup_gives_back_the_list(opml: Seq<char>, created_at: i64)
    requires
        byte_len(opml) <= MAX_OPML_BYTES,
        imported(opml) is Ok,
    ensures
        listed(created_at, encode_utf8(opml)) == Ok::<PreviewView, BackupErrorView>(
            (PreviewView {
                created_at,
                opml,
                feed_count: imported(opml)->Ok_0.feeds.len(),
                folder_count: folder_paths(imported(opml)->Ok_0.feeds).len(),
            }),
        ),
{
    encode_utf8_valid_utf8(opml);
    encode_utf8_decode_utf8(opml);
}

/// Where a backup can be read, its event is of the right kind, is signed by the
/// owner of the key and tells the time of the backup.
pub proof fn law_only_own_backups_are_read(nsec: Seq<char>, event: EventView)
    requires
        previewed(nsec, event) is Ok,
    ensures
        parsed_keys(trim(nsec)) is Some,
        authentic(event),
        lower(event.pubkey) == lower(parsed_keys(trim(nsec))->0.public),
        event.kind == EVENT_KIND,
        event.tags == seq![seq!["d"@, EVENT_IDENTIFIER@]],
        byte_len(event.content) <= MAX_EVENT_CONTENT_BYTES,
        previewed(nsec, event)->Ok_0.created_at == event.created_at,
        imported(previewed(nsec, event)->Ok_0.opml) is Ok,
{
}

} // verus!
