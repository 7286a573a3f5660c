//! Pictures: what is asked for, what is kept and what is tried again.

use feedlizard::pictures::{
    cache_name, decode, failure_backoff, judge_download, judge_picture, take_piece,
    validate_request, worker_count, FailureCache, Fit, ImageError, KeptFile, Request, SourceFormat, Trimming,
    MAX_DISK_CACHE_BYTES, MAX_DOWNLOAD_BYTES, PERSISTENT_FAILURE_BACKOFF,
    TRANSIENT_FAILURE_BACKOFF,
};

const SECOND: u128 = 1_000_000_000;

fn request(url: &str, width: u32, height: u32, fit: Fit) -> Request {
    Request {
        url: url.to_owned(),
        width,
        height,
        fit,
    }
}

#[test]
fn suppresses_failed_url_until_retry_deadline() {
    let mut failures = FailureCache::default();
    let now: u128 = 5 * SECOND;
    let url = "https://example.com/icon.png";
    failures.record(url.to_owned(), now + 60 * SECOND);

    assert!(!failures.permits(url, now));
    assert!(failures.permits(url, now + 60 * SECOND));
    assert!(failures.permits(url, now));
}

#[test]
fn failure_cache_is_scoped_by_url_and_can_be_cleared() {
    let mut failures = FailureCache::default();
    let now: u128 = 5 * SECOND;
    failures.record("https://example.com/a.png".to_owned(), now + 60 * SECOND);

    assert!(failures.permits("https://example.com/b.png", now));
    failures.clear("https://example.com/a.png");
    assert!(failures.permits("https://example.com/a.png", now));
}

#[test]
fn persistent_http_failures_back_off_longer_than_transient_failures() {
    assert_eq!(
        failure_backoff(&ImageError::HttpStatus(403)),
        PERSISTENT_FAILURE_BACKOFF
    );
    assert_eq!(
        failure_backoff(&ImageError::HttpStatus(404)),
        PERSISTENT_FAILURE_BACKOFF
    );
    assert_eq!(
        failure_backoff(&ImageError::HttpStatus(503)),
        TRANSIENT_FAILURE_BACKOFF
    );
    assert_eq!(
        failure_backoff(&ImageError::Network("offline".to_owned())),
        TRANSIENT_FAILURE_BACKOFF
    );
}

#[test]
fn validates_urls_and_dimensions() {
    let valid = request("https://example.com/image.png", 100, 80, Fit::Cover);
    assert_eq!(validate_request(&valid), Ok(()));
    assert_eq!(
        validate_request(&Request {
            url: "file:///tmp/no".into(),
            ..valid
        }),
        Err(ImageError::InvalidUrl)
    );
}

#[test]
fn a_request_without_a_side_is_refused() {
    for (width, height) in [(0, 80), (80, 0)] {
        let asked = request("https://example.com/image.png", width, height, Fit::Cover);
        assert_eq!(validate_request(&asked), Err(ImageError::InvalidUrl));
    }
}

#[test]
fn cache_names_are_stable_and_hide_urls() {
    let name = cache_name("https://example.com/private-topic.jpg");
    assert_eq!(
        name,
        "8855b87882ce33fcaa6edb7b52e2d10e6a992c9fc4d2d27ce26b0cc57a71a23b.image"
    );
    assert!(!name.contains("private"));
}

fn encoded(picture: image::DynamicImage, format: image::ImageFormat) -> Vec<u8> {
    let mut bytes = std::io::Cursor::new(Vec::new());
    picture.write_to(&mut bytes, format).unwrap();
    bytes.into_inner()
}

#[test]
fn decodes_and_resizes_without_network() {
    let source = image::DynamicImage::new_rgb8(400, 200);
    let image = decode(
        &encoded(source, image::ImageFormat::Png),
        &request("https://example.com/a.png", 80, 60, Fit::Cover),
    )
    .unwrap();
    assert_eq!((image.width, image.height), (80, 60));
    assert_eq!(image.rgba.len(), 80 * 60 * 4);
}

#[test]
fn decodes_standard_favicon_ico() {
    let picture = image::RgbaImage::from_pixel(32, 32, image::Rgba([93, 63, 211, 255]));
    let bytes = encoded(
        image::DynamicImage::ImageRgba8(picture),
        image::ImageFormat::Ico,
    );
    let decoded = decode(
        &bytes,
        &request("https://example.com/favicon.ico", 24, 24, Fit::Contain),
    )
    .unwrap();
    assert_eq!((decoded.width, decoded.height), (24, 24));
}

#[test]
fn a_contained_picture_keeps_its_proportions() {
    let source = image::DynamicImage::new_rgb8(400, 200);
    let image = decode(
        &encoded(source, image::ImageFormat::Png),
        &request("https://example.com/a.png", 80, 60, Fit::Contain),
    )
    .unwrap();
    assert_eq!((image.width, image.height), (80, 40));
    assert_eq!(image.rgba.len(), 80 * 40 * 4);
}

#[test]
fn what_is_no_picture_is_refused() {
    let asked = request("https://example.com/a.png", 80, 60, Fit::Cover);
    assert_eq!(decode(b"no picture", &asked), Err(ImageError::Unsupported));
    let mut bytes = encoded(image::DynamicImage::new_rgb8(40, 20), image::ImageFormat::Png);
    bytes.truncate(40);
    assert_eq!(decode(&bytes, &asked), Err(ImageError::Unsupported));
    let bitmap = b"BM\x00\x00\x00\x00\x00\x00\x00\x00\x00\x00\x00\x00".to_vec();
    assert_eq!(decode(&bitmap, &asked), Err(ImageError::Unsupported));
}

#[test]
fn large_pictures_are_refused() {
    let asked = request("https://example.com/a.png", 80, 60, Fit::Cover);
    let wide = encoded(
        image::DynamicImage::ImageLuma8(image::GrayImage::new(8_000, 5_001)),
        image::ImageFormat::Png,
    );
    assert_eq!(decode(&wide, &asked), Err(ImageError::TooLarge));
}

#[test]
fn downloads_have_bounds() {
    assert_eq!(judge_download(200, None), Ok(()));
    assert_eq!(judge_download(299, Some(MAX_DOWNLOAD_BYTES as u64)), Ok(()));
    assert_eq!(judge_download(404, None), Err(ImageError::HttpStatus(404)));
    assert_eq!(
        judge_download(200, Some(MAX_DOWNLOAD_BYTES as u64 + 1)),
        Err(ImageError::TooLarge)
    );
    let mut bytes: Vec<u8> = Vec::new();
    assert_eq!(take_piece(&mut bytes, &[1, 2, 3]), Ok(()));
    assert_eq!(bytes, [1, 2, 3]);
    let rest = vec![0u8; MAX_DOWNLOAD_BYTES];
    assert_eq!(take_piece(&mut bytes, &rest), Err(ImageError::TooLarge));
}

#[test]
fn the_oldest_files_leave_a_full_cache_first() {
    let half = MAX_DISK_CACHE_BYTES / 2;
    let files = vec![
        KeptFile { modified: 30, size: half },
        KeptFile { modified: 10, size: half },
        KeptFile { modified: 20, size: half },
    ];
    let mut trimming = Trimming::start(&files);
    assert_eq!(trimming.next(), Some(1));
    trimming.report(true);
    assert_eq!(trimming.next(), None);
}

#[test]
fn a_file_that_stays_does_not_count_as_gone() {
    let files = vec![
        KeptFile { modified: 10, size: MAX_DISK_CACHE_BYTES },
        KeptFile { modified: 20, size: 1 },
    ];
    let mut trimming = Trimming::start(&files);
    assert_eq!(trimming.next(), Some(0));
    trimming.report(false);
    assert_eq!(trimming.next(), Some(1));
    trimming.report(true);
    assert_eq!(trimming.next(), None);
}

#[test]
fn image_errors_have_their_words() {
    assert_eq!(ImageError::InvalidUrl.message(), "invalid image URL");
    assert_eq!(
        ImageError::Network("offline".to_owned()).message(),
        "image request failed: offline"
    );
    assert_eq!(
        ImageError::HttpStatus(404).message(),
        "image request returned HTTP 404"
    );
    assert_eq!(ImageError::TooLarge.message(), "image exceeds safety limits");
    assert_eq!(ImageError::Unsupported.message(), "unsupported image");
    assert_eq!(
        ImageError::Cache("full".to_owned()).message(),
        "image cache failed: full"
    );
}

#[test]
fn workers_have_bounds() {
    assert_eq!(worker_count(0), 1);
    assert_eq!(worker_count(3), 3);
    assert_eq!(worker_count(99), 12);
}

#[test]
fn contained_pictures_have_the_nearest_whole_sides() {
    let bytes = encoded(image::DynamicImage::new_rgb8(400, 200), image::ImageFormat::Png);
    for (place, made) in [((80, 60), (80, 40)), ((60, 10), (20, 10)), ((3, 3), (3, 2)), ((1, 9), (1, 1))]
    {
        let asked = request("https://example.com/a.png", place.0, place.1, Fit::Contain);
        let image = decode(&bytes, &asked).unwrap();
        assert_eq!((image.width, image.height), made);
        assert_eq!(image.rgba.len(), (4 * made.0 * made.1) as usize);
    }
}

/// A GIF with an empty screen and a picture of one pixel on it.
const EMPTY_GIF: &[u8] = b"GIF89a\x00\x00\x00\x00\x80\x00\x00\x00\x00\x00\xff\xff\xff,\x00\x00\x00\x00\x01\x00\x01\x00\x00\x02\x02\x44\x01\x00;";

#[test]
fn an_empty_picture_covers_nothing() {
    let cover = request("https://example.com/a.gif", 80, 60, Fit::Cover);
    assert_eq!(decode(EMPTY_GIF, &cover), Err(ImageError::Unsupported));
    let size = Some((0, 0));
    assert_eq!(
        judge_picture(Some(SourceFormat::Gif), size, &cover),
        Err(ImageError::Unsupported)
    );
    let contain = request("https://example.com/a.gif", 80, 60, Fit::Contain);
    assert_eq!(judge_picture(Some(SourceFormat::Gif), size, &contain), Ok(()));
    let made = decode(EMPTY_GIF, &contain).unwrap();
    assert_eq!((made.width, made.height, made.rgba.len()), (1, 1, 4));
}

#[test]
fn a_picture_that_would_grow_beyond_memory_is_too_large() {
    let size = Some((1, 40_000_000));
    let cover = request("https://example.com/a.png", u32::MAX, 1, Fit::Cover);
    assert_eq!(
        judge_picture(Some(SourceFormat::Png), size, &cover),
        Err(ImageError::TooLarge)
    );
    let contain = request("https://example.com/a.png", u32::MAX, u32::MAX, Fit::Contain);
    assert_eq!(
        judge_picture(Some(SourceFormat::Png), size, &contain),
        Err(ImageError::TooLarge)
    );
    let small = request("https://example.com/a.png", 80, 60, Fit::Cover);
    assert_eq!(judge_picture(Some(SourceFormat::Png), Some((400, 200)), &small), Ok(()));
}

#[test]
fn a_picture_that_keeps_its_size_keeps_its_pixels() {
    let source = image::RgbaImage::from_fn(3, 2, |x, y| image::Rgba([x as u8, y as u8, 7, 255]));
    let pixels = source.clone().into_raw();
    let bytes = encoded(image::DynamicImage::ImageRgba8(source), image::ImageFormat::Png);
    for (width, height, fit) in [(3, 2, Fit::Cover), (3, 2, Fit::Contain), (3, 9, Fit::Contain)] {
        let made = decode(&bytes, &request("https://example.com/a.png", width, height, fit));
        assert_eq!(made.unwrap().rgba, pixels);
    }
}

#[test]
fn long_pictures_are_shown() {
    let cover = request("https://example.com/a.png", 80, 60, Fit::Cover);
    let size = Some((1_100_000, 30));
    assert_eq!(judge_picture(Some(SourceFormat::Png), size, &cover), Ok(()));
}
