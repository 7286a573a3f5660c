//! Backups of the subscription list: keys, events, their history, and what is
//! restored from them.

use feedlizard::backup::{
    check_event, create_backup_event, decode_envelope, decrypt_backup_event, encode_envelope,
    generate_key, stored_identity, stored_key, validate_key, BackupError,
    DEFAULT_VISIBLE_SNAPSHOTS, EVENT_IDENTIFIER, EVENT_KIND, MAX_EVENT_CONTENT_BYTES,
    MAX_OPML_BYTES,
};
use feedlizard::history::{
    history_page, published, validated_history, RelayClient, RelayEvent,
};
use feedlizard::library::Library;
use feedlizard::nostr::SignedEvent;
use feedlizard::nostr_worker::{default_relays, Event as WorkerEvent, RestoreDesk};
use feedlizard::parser::FeedFormat;
use nostr_sdk::prelude::{
    nip44, EventBuilder, JsonUtil, Keys, Kind, Tag, Timestamp,
};
use std::collections::HashSet;

const OPML: &str = r#"<?xml version="1.0"?><opml version="2.0"><head><title>FeedLizard</title></head><body><outline text="News"><outline type="rss" text="Example" xmlUrl="https://example.com/feed"/></outline></body></opml>"#;

fn opml(name: &str, url: &str) -> String {
    format!(
        r#"<?xml version="1.0"?><opml version="2.0"><head><title>FeedLizard</title></head><body><outline text="News"><outline type="rss" text="{name}" xmlUrl="{url}"/></outline></body></opml>"#
    )
}

fn relay(name: &str, event: SignedEvent) -> RelayEvent {
    RelayEvent { relay: name.to_owned(), event }
}

fn plain(event: &nostr_sdk::prelude::Event) -> SignedEvent {
    SignedEvent {
        id: event.id.to_hex(),
        pubkey: event.pubkey.to_hex(),
        created_at: event.created_at.as_secs(),
        kind: event.kind.as_u16(),
        tags: event.tags.iter().map(|tag| tag.clone().to_vec()).collect(),
        content: event.content.clone(),
        sig: event.sig.to_string(),
    }
}

fn signed(keys: &Keys, content: String, extra: Option<Tag>, created_at: i64) -> SignedEvent {
    let mut builder = EventBuilder::new(Kind::from_u16(EVENT_KIND), content)
        .tag(Tag::identifier(EVENT_IDENTIFIER))
        .custom_created_at(Timestamp::from_secs(created_at as u64));
    if let Some(tag) = extra {
        builder = builder.tag(tag);
    }
    plain(&builder.sign_with_keys(keys).unwrap())
}

fn encrypted_event(keys: &Keys, plaintext: &str, created_at: i64) -> SignedEvent {
    let encrypted =
        nip44::encrypt(keys.secret_key(), &keys.public_key(), plaintext, nip44::Version::V2)
            .unwrap();
    signed(keys, encrypted, None, created_at)
}

#[test]
fn generated_and_existing_keys_are_interoperable() {
    let generated = generate_key().unwrap();
    assert!(generated.nsec.starts_with("nsec1"));
    assert_eq!(validate_key(&generated.nsec).unwrap(), generated.identity);
}

#[test]
fn what_is_no_key_is_refused() {
    assert_eq!(validate_key("nsec1nothing"), Err(BackupError::InvalidKey));
    assert_eq!(
        validate_key("nsec1vl029mgpspedva04g90vltkh6fvh240zqtv9k0t9af8935ke9laqsnlfe5")
            .unwrap()
            .public_key_hex,
        "7e7e9c42a91bfef19fa929e5fda1b72e0ebc1a4c1141673e2794234d86addf4e"
    );
}

#[test]
fn encrypted_backup_round_trips() {
    let key = generate_key().unwrap();
    let event = create_backup_event(&key.nsec, OPML, 1_777_000_000).unwrap();
    let preview = decrypt_backup_event(&key.nsec, &event).unwrap();
    assert_eq!(preview.opml, OPML);
    assert_eq!(preview.created_at, 1_777_000_000);
    assert_eq!(preview.feed_count, 1);
    assert_eq!(preview.folder_count, 1);
    assert_eq!(event.kind, EVENT_KIND);
    assert_eq!(event.tags.len(), 1);
    assert!(!event.content.contains("example.com"));
    assert!(!format!("{event:?}").contains("Example"));
}

#[test]
fn an_envelope_gives_back_what_it_was_given() {
    let envelope = encode_envelope(OPML, 77).unwrap();
    let preview = decode_envelope(&envelope).unwrap();
    assert_eq!((preview.created_at, preview.opml.as_str()), (77, OPML));
    assert!(!envelope.contains("example.com"));
}

#[test]
fn wrong_key_and_corruption_are_rejected() {
    let key = generate_key().unwrap();
    let other = generate_key().unwrap();
    let event = create_backup_event(&key.nsec, OPML, 5).unwrap();
    assert!(decrypt_backup_event(&other.nsec, &event).is_err());
    let mut corrupt = event.clone();
    corrupt.content = "corrupt".into();
    assert!(decrypt_backup_event(&key.nsec, &corrupt).is_err());
}

#[test]
fn every_backup_is_a_distinct_discoverable_snapshot() {
    let key = generate_key().unwrap();
    let old = create_backup_event(&key.nsec, &opml("Old", "https://old.test/feed"), 10).unwrap();
    let current =
        create_backup_event(&key.nsec, &opml("Current", "https://current.test/feed"), 20).unwrap();
    assert_ne!(old.id, current.id);
    let history =
        validated_history(&key.nsec, &vec![relay("relay-a", old), relay("relay-a", current)])
            .unwrap();
    assert_eq!(history.len(), 2);
    assert_eq!(history[0].created_at, 20);
    assert_eq!(history[1].created_at, 10);
    assert!(history[1].opml.contains("old.test"));
}

#[test]
fn history_pages_newest_five_and_loads_older() {
    let key = generate_key().unwrap();
    let events = (0..8)
        .map(|index| {
            relay(
                "relay-a",
                create_backup_event(
                    &key.nsec,
                    &opml(&format!("Feed {index}"), &format!("https://{index}.test/feed")),
                    100 + index,
                )
                .unwrap(),
            )
        })
        .collect::<Vec<_>>();
    let history = validated_history(&key.nsec, &events).unwrap();
    assert_eq!(history.len(), 8);
    let newest = history_page(&history, 0, DEFAULT_VISIBLE_SNAPSHOTS);
    assert_eq!(newest.snapshots.len(), 5);
    assert!(newest.has_older);
    assert_eq!(newest.snapshots[0].created_at, 107);
    let older = history_page(&history, 5, DEFAULT_VISIBLE_SNAPSHOTS);
    assert_eq!(older.snapshots.len(), 3);
    assert!(!older.has_older);
    assert_eq!(older.snapshots[2].created_at, 100);
}

#[test]
fn equal_timestamps_order_by_event_id() {
    let key = generate_key().unwrap();
    let first = create_backup_event(&key.nsec, OPML, 50).unwrap();
    let second = create_backup_event(&key.nsec, OPML, 50).unwrap();
    assert_ne!(first.id, second.id);
    let history =
        validated_history(&key.nsec, &vec![relay("a", first), relay("b", second)]).unwrap();
    assert!(history[0].event_id < history[1].event_id);
}

#[test]
fn relay_histories_aggregate_and_deduplicate() {
    let key = generate_key().unwrap();
    let a = create_backup_event(&key.nsec, OPML, 1).unwrap();
    let b = create_backup_event(&key.nsec, OPML, 2).unwrap();
    let c = create_backup_event(&key.nsec, OPML, 3).unwrap();
    let history = validated_history(
        &key.nsec,
        &vec![
            relay("relay-a", a.clone()),
            relay("relay-a", b.clone()),
            relay("relay-b", a),
            relay("relay-b", b),
            relay("relay-c", c),
        ],
    )
    .unwrap();
    assert_eq!(history.len(), 3);
    assert_eq!(history[0].created_at, 3);
    assert_eq!(history[0].source_relays, ["relay-c"]);
    assert_eq!(history[1].source_relays, ["relay-a", "relay-b"]);
}

#[test]
fn malformed_wrong_author_unsupported_and_oversized_events_are_rejected() {
    let key = generate_key().unwrap();
    let keys = Keys::parse(&key.nsec).unwrap();
    let unsupported = encrypted_event(
        &keys,
        r#"{"format":"feedlizard-subscriptions-v2","created_at":7,"encoding":"gzip+base64","opml":""}"#,
        7,
    );
    assert!(decrypt_backup_event(&key.nsec, &unsupported).is_err());

    let malformed = encrypted_event(&keys, &encode_envelope("not OPML", 8).unwrap(), 8);
    assert!(decrypt_backup_event(&key.nsec, &malformed).is_err());

    let other = generate_key().unwrap();
    let wrong_author = create_backup_event(&other.nsec, OPML, 9).unwrap();
    assert!(decrypt_backup_event(&key.nsec, &wrong_author).is_err());

    let valid = create_backup_event(&key.nsec, OPML, 9).unwrap();
    let unexpected_public_tag =
        signed(&keys, valid.content, Some(Tag::parse(["client", "unexpected"]).unwrap()), 9);
    assert!(decrypt_backup_event(&key.nsec, &unexpected_public_tag).is_err());

    let oversized = signed(&keys, "x".repeat(MAX_EVENT_CONTENT_BYTES + 1), None, 10);
    assert!(matches!(
        decrypt_backup_event(&key.nsec, &oversized),
        Err(BackupError::SizeLimit)
    ));
}

#[test]
fn a_backup_with_another_time_than_its_event_is_rejected() {
    let key = generate_key().unwrap();
    let keys = Keys::parse(&key.nsec).unwrap();
    let envelope = encode_envelope(OPML, 8).unwrap();
    assert!(decrypt_backup_event(&key.nsec, &encrypted_event(&keys, &envelope, 8)).is_ok());
    assert!(decrypt_backup_event(&key.nsec, &encrypted_event(&keys, &envelope, 9)).is_err());
}

#[test]
fn an_event_is_checked_before_it_is_read() {
    let key = generate_key().unwrap();
    let event = create_backup_event(&key.nsec, OPML, 5).unwrap();
    let public = key.identity.public_key_hex.as_str();
    assert!(check_event(&event, public, true).is_ok());
    assert!(check_event(&event, public, false).is_err());
    assert!(check_event(&event, "somebody else", true).is_err());
    let mut other = event.clone();
    other.kind = 1;
    assert!(check_event(&other, public, true).is_err());
    let mut other = event.clone();
    other.tags = vec![];
    assert!(check_event(&other, public, true).is_err());
}

const HISTORY: &str = r#"{
  "protocol": "feedlizard-subscriptions-v1",
  "event_kind": 78,
  "grouping_tag": ["d", "feedlizard-subscriptions-v1"],
  "default_visible": 5,
  "same_key_for_all_snapshots": true,
  "equal_timestamp_order": "event_id_ascending",
  "snapshots": [
    {"name": "One", "created_at": 1777000000, "feed_url": "https://one.example/feed", "relays": ["a"]},
    {"name": "Two", "created_at": 1777000100, "feed_url": "https://two.example/feed", "relays": ["a", "b"]},
    {"name": "Three", "created_at": 1777000200, "feed_url": "https://three.example/feed", "relays": ["b"]},
    {"name": "Four", "created_at": 1777000300, "feed_url": "https://four.example/feed", "relays": ["c"]},
    {"name": "Five", "created_at": 1777000400, "feed_url": "https://five.example/feed", "relays": ["a"]},
    {"name": "Six", "created_at": 1777000500, "feed_url": "https://six.example/feed", "relays": ["a", "b", "c"]}
  ]
}"#;

#[test]
fn cross_platform_history_fixture_matches_protocol() {
    let fixture: serde_json::Value = serde_json::from_str(HISTORY).unwrap();
    assert_eq!(fixture["protocol"], EVENT_IDENTIFIER);
    assert_eq!(fixture["event_kind"], EVENT_KIND);
    assert_eq!(fixture["grouping_tag"][0], "d");
    assert_eq!(fixture["grouping_tag"][1], EVENT_IDENTIFIER);
    assert_eq!(fixture["default_visible"], DEFAULT_VISIBLE_SNAPSHOTS);
    assert_eq!(fixture["same_key_for_all_snapshots"], true);
    assert_eq!(fixture["equal_timestamp_order"], "event_id_ascending");

    let key = generate_key().unwrap();
    let mut relay_events = Vec::new();
    let mut unique_ids = HashSet::new();
    let snapshots = fixture["snapshots"].as_array().unwrap();
    for snapshot in snapshots {
        let event = create_backup_event(
            &key.nsec,
            &opml(snapshot["name"].as_str().unwrap(), snapshot["feed_url"].as_str().unwrap()),
            snapshot["created_at"].as_i64().unwrap(),
        )
        .unwrap();
        assert_eq!(event.tags, vec![vec!["d".to_owned(), EVENT_IDENTIFIER.to_owned()]]);
        assert!(unique_ids.insert(event.id.clone()));
        for relay_name in snapshot["relays"].as_array().unwrap() {
            relay_events.push(relay(relay_name.as_str().unwrap(), event.clone()));
        }
    }
    let history = validated_history(&key.nsec, &relay_events).unwrap();
    assert_eq!(history.len(), snapshots.len());
    assert_eq!(history[0].created_at, 1_777_000_500);
    assert_eq!(history[0].source_relays.len(), 3);
    let newest = history_page(&history, 0, DEFAULT_VISIBLE_SNAPSHOTS);
    assert_eq!(newest.snapshots.len(), 5);
    assert!(newest.has_older);
}

#[test]
fn decompressed_size_is_bounded() {
    let oversized = "x".repeat(MAX_OPML_BYTES + 1);
    assert!(matches!(encode_envelope(&oversized, 1), Err(BackupError::SizeLimit)));
}

fn list_of(feeds: &[(&str, &str)], folder: &str) -> String {
    let outlines = feeds
        .iter()
        .map(|(name, url)| format!(r#"<outline type="rss" text="{name}" xmlUrl="{url}"/>"#))
        .collect::<String>();
    format!(
        r#"<?xml version="1.0"?><opml version="2.0"><head><title>FeedLizard</title></head><body><outline text="{folder}">{outlines}</outline></body></opml>"#
    )
}

#[test]
fn older_snapshot_preview_cancel_and_merge_preserve_local_library() {
    let key = generate_key().unwrap();
    let older_opml = list_of(
        &[
            ("Saved Name", "https://shared.example/feed"),
            ("Historical", "https://historical.example/feed"),
        ],
        "Archived News",
    );
    let newer_opml = list_of(
        &[
            ("Saved Name", "https://shared.example/feed"),
            ("Newer", "https://newer.example/feed"),
        ],
        "Current News",
    );
    let older = create_backup_event(&key.nsec, &older_opml, 100).unwrap();
    let newer = create_backup_event(&key.nsec, &newer_opml, 200).unwrap();
    let history =
        validated_history(&key.nsec, &vec![relay("relay-a", older), relay("relay-b", newer)])
            .unwrap();
    assert_eq!(history.len(), 2);

    let mut library = Library::new();
    library
        .add_subscription(
            "https://local-only.example/feed",
            "Local Only",
            FeedFormat::Rss,
            None,
            1,
        )
        .unwrap();
    library
        .add_subscription(
            "https://shared.example/feed",
            "Already Present",
            FeedFormat::Rss,
            None,
            1,
        )
        .unwrap();

    let selected = &history[1];
    assert_eq!(selected.feed_count, 2);
    assert_eq!(selected.folder_count, 1);

    let mut desk = RestoreDesk::new();
    desk.lay_out(history.clone());
    let preview = desk.preview(&selected.event_id, &library).unwrap();
    assert!(matches!(preview, WorkerEvent::RestorePreview { .. }));
    assert_eq!(library.stats().feeds, 2);
    assert!(library
        .list_feeds()
        .iter()
        .any(|feed| feed.fetch_url == "https://local-only.example/feed"));

    let imported = library.import_opml(&selected.opml, 300).unwrap();
    assert_eq!(imported.feeds_added, 1);
    assert_eq!(imported.duplicates, 1);
    let feeds = library.list_feeds();
    assert_eq!(feeds.len(), 3);
    assert!(feeds.iter().any(|feed| feed.fetch_url == "https://local-only.example/feed"));
    assert!(feeds.iter().any(|feed| feed.fetch_url == "https://historical.example/feed"));
    assert_eq!(library.list_folders()[0].name, "Archived News");
}

#[test]
fn a_chosen_snapshot_is_restored_once() {
    let key = generate_key().unwrap();
    let event = create_backup_event(&key.nsec, OPML, 100).unwrap();
    let history = validated_history(&key.nsec, &vec![relay("relay-a", event)]).unwrap();
    let id = history[0].event_id.clone();
    let mut library = Library::new();
    let mut desk = RestoreDesk::new();
    assert!(desk.confirm(&mut library, 1).is_err());
    let summaries = desk.lay_out(history);
    assert_eq!(summaries.len(), 1);
    assert!(desk.preview("unknown", &library).is_err());
    desk.preview(&id, &library).unwrap();
    let done = desk.confirm(&mut library, 2).unwrap();
    assert!(matches!(done, WorkerEvent::RestoreComplete { added: 1, duplicates: 0 }));
    assert!(desk.confirm(&mut library, 3).is_err());
    assert_eq!(library.stats().feeds, 1);
    desk.clear();
    assert!(desk.preview(&id, &library).is_err());
}

#[test]
fn snapshot_round_trip_preserves_folder_and_custom_name() {
    let mut source = Library::new();
    let feed_id = source
        .add_subscription(
            "https://portable.example/feed",
            "Publisher Name",
            FeedFormat::Rss,
            Some("https://portable.example/"),
            1,
        )
        .unwrap();
    source.set_feed_custom_name(&feed_id, Some("My Portable Name"), 2).unwrap();
    let folder = source.create_folder("Portable Folder", None, 2).unwrap();
    source.move_feed(&feed_id, Some(folder.id), 2).unwrap();
    let exported = source.export_opml("synthetic fixture").unwrap();

    let key = generate_key().unwrap();
    let event = create_backup_event(&key.nsec, &exported, 500).unwrap();
    let snapshot =
        validated_history(&key.nsec, &vec![relay("relay-test", event)]).unwrap().remove(0);

    let mut restored = Library::new();
    restored.import_opml(&snapshot.opml, 600).unwrap();
    let feed = restored.list_feeds().remove(0);
    assert_eq!(feed.custom_name.as_deref(), Some("My Portable Name"));
    assert_eq!(feed.display_name, "My Portable Name");
    assert_eq!(restored.list_folders()[0].name, "Portable Folder");
}

#[test]
fn a_stored_key_has_to_be_a_key() {
    let key = generate_key().unwrap();
    assert_eq!(stored_key(key.nsec.clone().into_bytes()).unwrap(), key.nsec);
    assert!(stored_key(vec![0xff, 0xfe]).is_err());
    assert_eq!(stored_identity(Ok(key.nsec.clone())).unwrap(), Some(key.identity));
    assert_eq!(stored_identity(Err(BackupError::KeyMissing)).unwrap(), None);
    assert_eq!(
        stored_identity(Err(BackupError::SecretStorage("locked".into()))),
        Err(BackupError::SecretStorage("locked".into()))
    );
}

#[test]
fn relays_are_secure_and_few() {
    let client = RelayClient::new(default_relays()).unwrap();
    assert_eq!(client.relays().len(), 3);
    assert!(RelayClient::new(vec!["http://relay.example".into()]).is_err());
    assert!(RelayClient::new(vec!["ws://relay.example".into()]).is_err());
    assert!(RelayClient::new(vec![]).is_err());
    let doubled = vec!["wss://relay.example/".into(), "wss://relay.example/".into()];
    assert_eq!(RelayClient::new(doubled).unwrap().relays().len(), 1);
}

#[test]
fn publishing_needs_one_relay() {
    assert_eq!(published("id".into(), 0, 3), Err(BackupError::PublishFailed));
    let result = published("id".into(), 2, 1).unwrap();
    assert_eq!((result.successful_relays, result.failed_relays), (2, 1));
}

#[test]
fn backup_errors_have_their_words() {
    let errors = [
        BackupError::InvalidKey,
        BackupError::SecretStorage("locked".into()),
        BackupError::KeyMissing,
        BackupError::InvalidBackup("bad".into()),
        BackupError::SizeLimit,
        BackupError::Nostr("down".into()),
        BackupError::NotFound,
        BackupError::PublishFailed,
    ];
    let words = errors.iter().map(|error| error.message()).collect::<HashSet<_>>();
    assert_eq!(words.len(), 8);
    assert!(words.iter().all(|word| !word.is_empty()));
}

#[test]
fn a_forged_copy_hides_no_valid_backup() {
    let key = generate_key().unwrap();
    let event = create_backup_event(&key.nsec, OPML, 10).unwrap();
    let mut forged = event.clone();
    forged.content = "forged".into();
    forged.created_at = 99;
    let list = vec![
        relay("a", forged.clone()),
        relay("c", event.clone()),
        relay("b", event.clone()),
        relay("d", forged),
    ];
    let history = validated_history(&key.nsec, &list).unwrap();
    assert_eq!(history.len(), 1);
    assert_eq!(history[0].event_id, event.id);
    assert_eq!(history[0].opml, OPML);
    assert_eq!(history[0].created_at, 10);
    assert_eq!(history[0].source_relays, ["b", "c"]);
}

#[test]
fn a_time_before_1970_is_held_there() {
    let key = generate_key().unwrap();
    let event = create_backup_event(&key.nsec, OPML, -5).unwrap();
    assert_eq!(event.created_at, 0);
    let preview = decrypt_backup_event(&key.nsec, &event).unwrap();
    assert_eq!((preview.created_at, preview.opml.as_str()), (0, OPML));
}

#[test]
fn an_envelope_with_a_member_twice_is_refused() {
    let envelope = encode_envelope(OPML, 7).unwrap();
    assert!(decode_envelope(&envelope).is_ok());
    let more = envelope.replacen('{', r#"{"other":1,"other":2,"#, 1);
    assert!(decode_envelope(&more).is_ok());
    let twice = envelope.replacen('{', r#"{"created_at":7,"#, 1);
    assert!(matches!(decode_envelope(&twice), Err(BackupError::InvalidBackup(_))));
}

#[test]
fn what_is_no_json_is_told_in_the_words_of_the_reader() {
    let fault = |text: &str| match decode_envelope(text) {
        Err(BackupError::InvalidBackup(reason)) => reason,
        other => panic!("{other:?}"),
    };
    assert_eq!(fault("envelope"), "expected value at line 1 column 1");
    assert_eq!(fault(""), "EOF while parsing a value at line 1 column 0");
    assert_eq!(fault("{} {}"), "trailing characters at line 1 column 4");
}

#[test]
fn a_hundred_ids_are_looked_into() {
    let key = generate_key().unwrap();
    let mut list: Vec<RelayEvent> = (0..100)
        .map(|time| relay("a", create_backup_event(&key.nsec, OPML, time).unwrap()))
        .collect();
    assert_eq!(validated_history(&key.nsec, &list).unwrap().len(), 100);
    let mut forged = list[0].event.clone();
    forged.id = "f".repeat(64);
    forged.created_at = 1_000;
    list.push(relay("b", forged));
    let history = validated_history(&key.nsec, &list).unwrap();
    assert_eq!(history.len(), 99);
    assert_eq!(history[98].created_at, 1);
}
