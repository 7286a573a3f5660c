//! How the program starts, what it offers at first, and how it shows things.

use chrono::{Datelike, FixedOffset, TimeZone, Timelike};
use feedlizard::directory::{entries, is_subscribed, subscribed_ids, CATEGORIES, ENTRIES};
use feedlizard::launch::{
    application_id, detected_from, install_command, Launch, RuntimeMode, APPLICATION_ID,
    OMARCHY_APPLICATION_ID,
};
use feedlizard::library::Library;
use feedlizard::parser::FeedFormat;
use feedlizard::presentation::{
    article_time, book_navigation_target, book_progress_label, concise, feed_icon_discovery_page,
    feed_icon_url, format_article_datetime, format_display_version, format_snapshot_datetime,
    preview_text, relative_time, show_page, shown_timestamp, signal_levels_from_timestamps,
    snapshot_time, window_dimension, Appearance, LocalTime,
};
use feedlizard::reader::{Block, Document};
use feedlizard::web::site_favicon_url;
use std::collections::HashSet;

#[test]
fn directory_ids_and_urls_are_unique_and_categories_are_known() {
    let list = entries();
    let ids = list.iter().map(|entry| entry.id).collect::<HashSet<_>>();
    let urls = list.iter().map(|entry| entry.feed_url).collect::<HashSet<_>>();
    assert_eq!(ids.len(), ENTRIES.len());
    assert_eq!(urls.len(), ENTRIES.len());
    assert!(list.iter().all(|entry| CATEGORIES.contains(&entry.category)));
    assert!(list.iter().all(|entry| {
        url::Url::parse(entry.feed_url).is_ok() && url::Url::parse(entry.website_url).is_ok()
    }));
}

#[test]
fn mirrors_the_apple_release_directory() {
    assert_eq!(ENTRIES.len(), 21);
    assert!(entries().iter().any(|entry| entry.id == "nerds-xyz"));
    assert_eq!(CATEGORIES.len(), 6);
}

#[test]
fn a_feed_of_the_directory_is_known_once_subscribed() {
    let mut library = Library::new();
    let list = entries();
    assert!(!is_subscribed(&list[0], &subscribed_ids(&library.list_feeds())));
    library
        .add_subscription(list[0].feed_url, list[0].name, FeedFormat::Rss, None, 1)
        .unwrap();
    let known = subscribed_ids(&library.list_feeds());
    assert!(is_subscribed(&list[0], &known));
    assert!(!is_subscribed(&list[1], &known));
}

#[test]
fn companion_and_standard_have_distinct_runtime_identities() {
    assert_eq!(application_id(RuntimeMode::Standard), APPLICATION_ID);
    assert_eq!(application_id(RuntimeMode::Omarchy), OMARCHY_APPLICATION_ID);
    assert_ne!(APPLICATION_ID, OMARCHY_APPLICATION_ID);
}

#[test]
fn detection_requires_the_production_omarchy_marker() {
    assert!(detected_from(Some("/usr/share/omarchy")));
    assert!(detected_from(Some(" /usr/share/omarchy/ ")));
    assert!(!detected_from(None));
    assert!(!detected_from(Some("")));
    assert!(!detected_from(Some("/tmp/omarchy")));
    assert!(!detected_from(Some("relative/path")));
}

#[test]
fn a_plugin_is_installed_from_its_repository() {
    assert_eq!(
        install_command(Some("https://example.test/plugin")),
        Some("omarchy plugin add https://example.test/plugin --enable".to_owned())
    );
    assert_eq!(install_command(None), None);
}

fn launch(arguments: &[&str], environment: Option<&str>) -> Launch {
    Launch::from_inputs(
        arguments.iter().map(|value| (*value).to_owned()).collect(),
        environment.map(str::to_owned),
    )
}

#[test]
fn ordinary_launch_is_standard() {
    assert_eq!(launch(&["feedlizard"], None).mode, RuntimeMode::Standard);
}

#[test]
fn explicit_argument_selects_omarchy_and_is_not_forwarded_to_gtk() {
    let result = launch(&["feedlizard", "--omarchy"], None);
    assert_eq!(result.mode, RuntimeMode::Omarchy);
    assert_eq!(result.gtk_args, ["feedlizard"]);
}

#[test]
fn environment_is_an_exact_fallback() {
    assert_eq!(launch(&["feedlizard"], Some("1")).mode, RuntimeMode::Omarchy);
    assert_eq!(launch(&["feedlizard"], Some("true")).mode, RuntimeMode::Standard);
}

#[test]
fn explicit_argument_has_priority_over_environment() {
    assert_eq!(launch(&["feedlizard", "--omarchy"], Some("0")).mode, RuntimeMode::Omarchy);
}

#[test]
fn signal_activity_is_bounded_and_places_recent_articles_on_the_right() {
    let now = 1_800_000_000;
    let levels =
        signal_levels_from_timestamps(&vec![now, now - 30, now - 3_600, now - 86_400], now, 18);
    assert_eq!(levels.len(), 18);
    assert!(levels.iter().all(|level| (0..=100).contains(level)));
    assert!(levels[17] > 0, "new activity belongs at the right edge");
    assert!(levels[0] > 0, "the full 24-hour window remains visible");
}

#[test]
fn signal_activity_accumulates_without_exceeding_full_scale() {
    let now = 1_800_000_000;
    let levels = signal_levels_from_timestamps(&vec![now; 20], now, 18);
    assert_eq!(levels[17], 100);
    assert_eq!(signal_levels_from_timestamps(&vec![now; 2], now, 18)[17], 44);
}

#[test]
fn empty_and_zero_width_signal_activity_are_safe() {
    assert!(signal_levels_from_timestamps(&vec![], 1_800_000_000, 18)
        .iter()
        .all(|level| *level == 0));
    assert!(signal_levels_from_timestamps(&vec![1_800_000_000], 1_800_000_000, 0).is_empty());
}

fn on_the_clock(time: chrono::DateTime<FixedOffset>) -> LocalTime {
    LocalTime {
        year: time.year(),
        month: time.month(),
        day: time.day(),
        hour: time.hour(),
        minute: time.minute(),
    }
}

#[test]
fn snapshot_time_uses_the_presented_timezone() {
    let eastern = FixedOffset::west_opt(4 * 60 * 60).unwrap();
    let time = eastern.timestamp_opt(1_777_000_000, 0).unwrap();
    assert_eq!(format_snapshot_datetime(on_the_clock(time)), "April 23, 2026 at 11:06 PM");
    assert_eq!(snapshot_time(Some(on_the_clock(time))), "April 23, 2026 at 11:06 PM");
}

#[test]
fn article_time_includes_local_date_context_and_clock_time() {
    let eastern = FixedOffset::west_opt(4 * 60 * 60).unwrap();
    let at = |day, hour, minute| {
        on_the_clock(eastern.with_ymd_and_hms(2026, 8, day, hour, minute, 0).unwrap())
    };
    let now = at(30, 15, 0);
    let today = at(30, 9, 30);
    let yesterday = at(29, 21, 0);
    let older = at(20, 16, 12);
    assert_eq!(format_article_datetime(today, now), "Today · 9:30 AM");
    assert_eq!(format_article_datetime(yesterday, now), "Yesterday · 9:00 PM");
    assert_eq!(format_article_datetime(older, now), "Aug 20 · 4:12 PM");
    assert_eq!(article_time(true, Some(older), now), "Aug 20 · 4:12 PM");
}

#[test]
fn the_day_before_the_first_is_yesterday_too() {
    let time = |year, month, day| LocalTime { year, month, day, hour: 0, minute: 5 };
    assert_eq!(
        format_article_datetime(time(2023, 12, 31), time(2024, 1, 1)),
        "Yesterday · 12:05 AM"
    );
    assert_eq!(
        format_article_datetime(time(2024, 2, 29), time(2024, 3, 1)),
        "Yesterday · 12:05 AM"
    );
    assert_eq!(
        format_article_datetime(time(2023, 2, 28), time(2024, 3, 1)),
        "Feb 28, 2023 · 12:05 AM"
    );
}

#[test]
fn times_past_are_told_in_short() {
    assert_eq!(shown_timestamp(Some(5), 9), 5);
    assert_eq!(shown_timestamp(None, 9), 9);
    assert_eq!(relative_time(1_000, 1_010), "NOW");
    assert_eq!(relative_time(1_000, 1_000 + 5 * 60), "5m");
    assert_eq!(relative_time(1_000, 1_000 + 3 * 3_600), "3h");
    assert_eq!(relative_time(1_000, 1_000 + 2 * 86_400), "2d");
}

#[test]
fn derives_private_favicon_fallback_from_site_origin() {
    assert_eq!(
        site_favicon_url(Some("https://example.com/news?view=all#latest")),
        Some("https://example.com/favicon.ico".into())
    );
    assert_eq!(site_favicon_url(Some("file:///tmp/site")), None);
    assert_eq!(site_favicon_url(None), None);
}

#[test]
fn a_feed_shows_its_own_icon_first() {
    let mut library = Library::new();
    let id = library
        .add_subscription(
            "https://example.com/feed",
            "Example",
            FeedFormat::Rss,
            Some("https://example.com/news"),
            1,
        )
        .unwrap();
    let feed = library.feed(&id).unwrap();
    assert_eq!(feed_icon_url(&feed), Some("https://example.com/favicon.ico".to_owned()));
    assert_eq!(feed_icon_discovery_page(&feed), Some("https://example.com/news".to_owned()));
    library.set_feed_favicon(&id, "https://example.com/own.png", 2).unwrap();
    let feed = library.feed(&id).unwrap();
    assert_eq!(feed_icon_url(&feed), Some("https://example.com/own.png".to_owned()));
}

#[test]
fn book_navigation_respects_spreads_and_boundaries() {
    assert_eq!(book_navigation_target(0, -1, true, 5), 0);
    assert_eq!(book_navigation_target(0, 1, true, 5), 2);
    assert_eq!(book_navigation_target(2, 1, true, 5), 4);
    assert_eq!(book_navigation_target(4, 1, true, 5), 4);
    assert_eq!(book_navigation_target(2, -1, true, 5), 0);
    assert_eq!(book_navigation_target(2, 1, false, 5), 3);
    assert_eq!(book_navigation_target(0, 1, false, 0), 0);
}

#[test]
fn book_progress_describes_spreads_and_single_pages() {
    assert_eq!(book_progress_label(0, 5, true), "Pages 1–2 of 5");
    assert_eq!(book_progress_label(4, 5, true), "Page 5 of 5");
    assert_eq!(book_progress_label(2, 5, false), "Page 3 of 5");
}

#[test]
fn an_empty_book_shows_no_page() {
    assert!(show_page(3, 0).is_none());
    let last = show_page(3, 2).unwrap();
    assert_eq!((last.index, last.previous, last.next), (1, true, false));
    assert_eq!(last.label, "Page 2 of 2");
}

#[test]
fn formats_prerelease_versions_for_about_without_changing_stable_versions() {
    assert_eq!(format_display_version("0.9.0-beta.12"), "0.9.0 Beta 12");
    assert_eq!(format_display_version("1.0.0-rc.1"), "1.0.0 RC 1");
    assert_eq!(format_display_version("1.0.0"), "1.0.0");
}

#[test]
fn long_words_are_cut_and_short_ones_are_not() {
    assert_eq!(concise("short", 10), "short");
    assert_eq!(concise("a rather long headline", 8), "a rather…");
}

#[test]
fn a_preview_says_what_the_first_blocks_say() {
    let document = Document {
        blocks: vec![
            Block::Heading { level: 2, text: "Title".to_owned() },
            Block::Image { url: "https://example.com/a.png".to_owned(), alt: String::new() },
            Block::Paragraph { text: "Words.".to_owned(), links: vec![] },
        ],
    };
    assert_eq!(preview_text(Some(&document)), "Title\n\nWords.");
    assert_eq!(
        preview_text(None),
        "No readable feed preview. Open FeedLizard or the original article to continue."
    );
}

#[test]
fn an_appearance_is_found_again() {
    for appearance in [Appearance::System, Appearance::Light, Appearance::Dark] {
        assert_eq!(Appearance::from_index(appearance.index()), appearance);
        assert_eq!(Appearance::from_name(appearance.name()), appearance);
    }
    assert_eq!(Appearance::from_name("other"), Appearance::System);
}

#[test]
fn a_window_has_a_size() {
    assert_eq!(window_dimension(None, 1180), 1180);
    assert_eq!(window_dimension(Some(900), 1180), 900);
    assert_eq!(window_dimension(Some(100), 1180), 360);
    assert_eq!(window_dimension(Some(9000), 1180), 3840);
}
