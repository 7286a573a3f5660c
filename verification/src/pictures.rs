//! Pictures for display: what may be loaded, how it is decoded, and what is
//! kept of it.

use crate::identity::{digest_of, hex_text, sha256_digest};
use crate::text::{decimal, decimal_text};
use crate::web::{parse_address, parsed_url};
use vstd::hash_map::StringHashMap;
use vstd::prelude::*;

verus! {

/// The longest picture that is loaded, in bytes.
pub const MAX_DOWNLOAD_BYTES: usize = 12_582_912;

/// The most pixels that a picture may have.
pub const MAX_SOURCE_PIXELS: u64 = 40_000_000;

/// The most that is kept on disk, in bytes.
pub const MAX_DISK_CACHE_BYTES: u64 = 268_435_456;

/// How long a picture is left alone after a failure that is likely to pass, in
/// nanoseconds: five minutes.
pub const TRANSIENT_FAILURE_BACKOFF: u128 = 300_000_000_000;

/// How long a picture is left alone after a failure that is likely to stay, in
/// nanoseconds: a day.
pub const PERSISTENT_FAILURE_BACKOFF: u128 = 86_400_000_000_000;

/// The longest side of a picture on which single precision places every pixel.
pub const FINE_SOURCE: u32 = 16_777_216;

/// The longest side to which a longer one can be scaled with single precision:
/// the pixels that are taken together then outweigh the errors in their places.
pub const FINE_RESULT: u32 = 2_097_152;

/// The size up to which double precision gives the nearest whole number of a
/// proportion: 2^50.
pub const FINE_PRODUCT: u64 = 1_125_899_906_842_624;

/// How a picture is fitted into its place.
#[derive(Debug, Clone, Copy, PartialEq, Eq, Hash, Structural)]
pub enum Fit {
    /// All of the place is covered.
    Cover,
    /// All of the picture is shown.
    Contain,
}

/// A picture that is wanted, and its place.
#[derive(Debug, Clone, PartialEq, Eq, Hash)]
pub struct Request {
    pub url: String,
    pub width: u32,
    pub height: u32,
    pub fit: Fit,
}

/// A picture ready for display: four bytes to a pixel, row by row.
#[derive(Debug, PartialEq, Eq)]
pub struct DecodedImage {
    pub rgba: Vec<u8>,
    pub width: u32,
    pub height: u32,
}

/// Why there is no picture.
#[derive(Debug, Clone, PartialEq, Eq)]
pub enum ImageError {
    InvalidUrl,
    Network(String),
    HttpStatus(u16),
    TooLarge,
    Unsupported,
    Cache(String),
}

/// What an [`ImageError`] holds.
pub enum ImageErrorView {
    InvalidUrl,
    Network(Seq<char>),
    HttpStatus(u16),
    TooLarge,
    Unsupported,
    Cache(Seq<char>),
}

impl View for ImageError {
    type V = ImageErrorView;

    open spec fn view(&self) -> ImageErrorView {
        match self {
            ImageError::InvalidUrl => ImageErrorView::InvalidUrl,
            ImageError::Network(text) => ImageErrorView::Network(text@),
            ImageError::HttpStatus(status) => ImageErrorView::HttpStatus(*status),
            ImageError::TooLarge => ImageErrorView::TooLarge,
            ImageError::Unsupported => ImageErrorView::Unsupported,
            ImageError::Cache(text) => ImageErrorView::Cache(text@),
        }
    }
}

impl ImageErrorView {
    /// The message for a reader.
    pub open spec fn message(self) -> Seq<char> {
        match self {
            ImageErrorView::InvalidUrl => "invalid image URL"@,
            ImageErrorView::Network(text) => "image request failed: "@ + text,
            ImageErrorView::HttpStatus(status) => "image request returned HTTP "@ + decimal(
                status as nat,
            ),
            ImageErrorView::TooLarge => "image exceeds safety limits"@,
            ImageErrorView::Unsupported => "unsupported image"@,
            ImageErrorView::Cache(text) => "image cache failed: "@ + text,
        }
    }

    /// The failure is likely to pass.
    pub open spec fn passes(self) -> bool {
        match self {
            ImageErrorView::Network(_) => true,
            ImageErrorView::HttpStatus(status) => status == 408 || status == 429 || 500 <= status
                <= 599,
            ImageErrorView::Cache(_) => true,
            _ => false,
        }
    }
}

impl ImageError {
    /// The message for a reader.
    pub fn message(&self) -> (r: String)
        ensures
            r@ == self@.message(),
    {
        match self {
            ImageError::InvalidUrl => "invalid image URL".to_owned(),
            ImageError::Network(text) => {
                let mut out = "image request failed: ".to_owned();
                out.append(text.as_str());
                out
            },
            ImageError::HttpStatus(status) => {
                let mut out = "image request returned HTTP ".to_owned();
                let number = decimal_text(*status as u64);
                out.append(number.as_str());
                out
            },
            ImageError::TooLarge => "image exceeds safety limits".to_owned(),
            ImageError::Unsupported => "unsupported image".to_owned(),
            ImageError::Cache(text) => {
                let mut out = "image cache failed: ".to_owned();
                out.append(text.as_str());
                out
            },
        }
    }
}

/// What a failure holds; nothing where there is none.
pub open spec fn image_failure<T>(r: Result<T, ImageError>) -> Option<ImageErrorView> {
    match r {
        Ok(_) => None,
        Err(error) => Some(error@),
    }
}

/// A picture can be asked for: at an HTTP or HTTPS address, for a place with
/// two sides.
pub open spec fn is_valid_request(request: Request) -> bool {
    parsed_url(request.url@) is Some && parsed_url(request.url@)->0.is_web() && request.width > 0
        && request.height > 0
}

/// Whether a picture can be asked for.
pub fn validate_request(request: &Request) -> (r: Result<(), ImageError>)
    ensures
        image_failure(r) == if is_valid_request(*request) {
            None
        } else {
            Some(ImageErrorView::InvalidUrl)
        },
{
    match parse_address(request.url.as_str()) {
        Some(address) => {
            if !address.web() || request.width == 0 || request.height == 0 {
                return Err(ImageError::InvalidUrl);
            }
            Ok(())
        },
        None => Err(ImageError::InvalidUrl),
    }
}

/// The name under which the picture at an address is kept.
pub open spec fn kept_as(url: Seq<char>) -> Seq<char> {
    digest_of(url) + ".image"@
}

/// The name under which the picture at `url` is kept: a digest, so that it
/// gives nothing away of the address.
pub fn cache_name(url: &str) -> (r: String)
    ensures
        r@ == kept_as(url@),
{
    let digest = sha256_digest(url.as_bytes());
    let mut name = hex_text(&digest);
    name.append(".image");
    name
}

/// The formats that are told apart.
#[derive(Debug, Clone, Copy, PartialEq, Eq, Structural)]
pub enum SourceFormat {
    Avif,
    Gif,
    Ico,
    Jpeg,
    Png,
    WebP,
    Other,
}

/// The format that `image::guess_format` sees in some bytes.
pub uninterp spec fn guessed_format(bytes: Seq<u8>) -> Option<SourceFormat>;

/// The width and height of the picture that `image::load_from_memory` reads in
/// some bytes, which hold a picture in the format that they show.
pub uninterp spec fn picture_size(bytes: Seq<u8>) -> Option<(u32, u32)>;

/// `image::guess_format`: the format that the first bytes show, which depends
/// on the bytes alone.
#[verifier::external_body]
fn guess_format(bytes: &[u8]) -> (r: Option<SourceFormat>)
    ensures
        r == guessed_format(bytes@),
{
    match image::guess_format(bytes).ok()? {
        image::ImageFormat::Avif => Some(SourceFormat::Avif),
        image::ImageFormat::Gif => Some(SourceFormat::Gif),
        image::ImageFormat::Ico => Some(SourceFormat::Ico),
        image::ImageFormat::Jpeg => Some(SourceFormat::Jpeg),
        image::ImageFormat::Png => Some(SourceFormat::Png),
        image::ImageFormat::WebP => Some(SourceFormat::WebP),
        _ => Some(SourceFormat::Other),
    }
}

/// `image::load_from_memory`, and `image::GenericImageView::dimensions` of what
/// it reads. Whether the bytes can be read, and the size, depend on the bytes
/// alone.
#[verifier::external_body]
fn read_size(bytes: &[u8]) -> (r: Option<(u32, u32)>)
    ensures
        r == picture_size(bytes@),
{
    let picture = image::load_from_memory(bytes).ok()?;
    Some(image::GenericImageView::dimensions(&picture))
}

/// Scaling a picture of the size `source` to at most the size `made` stays
/// within what can be addressed, at sixteen bytes to a pixel in both of its
/// steps, and within the places that single precision tells apart.
pub open spec fn can_scale(source: (u32, u32), made: (int, int)) -> bool {
    &&& 16 * source.0 * made.1 <= isize::MAX
    &&& 16 * made.0 * made.1 <= isize::MAX
    &&& source.0 <= FINE_SOURCE || made.0 <= FINE_RESULT
    &&& source.1 <= FINE_SOURCE || made.1 <= FINE_RESULT
}

/// A size that a picture with two sides, scaled until it covers a place, does
/// not exceed.
pub open spec fn covering_size(source: (u32, u32), width: u32, height: u32) -> (int, int) {
    if source.0 * height <= source.1 * width {
        (width as int, source.1 * width / source.0 as int + 1)
    } else {
        (source.0 * height / source.1 as int + 1, height as int)
    }
}

/// A picture of this size has two sides, and can be scaled until it covers a
/// place.
pub open spec fn can_cover(source: (u32, u32), width: u32, height: u32) -> bool {
    &&& source.0 > 0
    &&& source.1 > 0
    &&& covering_size(source, width, height).0 <= u32::MAX
    &&& covering_size(source, width, height).1 <= u32::MAX
    &&& can_scale(source, covering_size(source, width, height))
}

/// A size that a picture, scaled until it lies within a place, does not exceed.
pub open spec fn containing_size(source: (u32, u32), width: u32, height: u32) -> (int, int) {
    if source.0 == 0 || source.1 == 0 {
        (width as int, height as int)
    } else if source.1 * width <= source.0 * height {
        (width as int, source.1 * width / source.0 as int + 1)
    } else {
        (source.0 * height / source.1 as int + 1, height as int)
    }
}

/// A picture of this size can be scaled until it lies within a place.
pub open spec fn can_contain(source: (u32, u32), width: u32, height: u32) -> bool {
    can_scale(source, containing_size(source, width, height))
}

/// The bytes that `image::DynamicImage::to_rgba8` gives of the picture that
/// `image::load_from_memory` reads in some bytes.
pub uninterp spec fn picture_pixels(bytes: Seq<u8>) -> Seq<u8>;

/// The size of what `image::DynamicImage::resize` makes of a picture of the
/// size `source` for a place.
pub uninterp spec fn contained_size(source: (u32, u32), width: u32, height: u32) -> (u32, u32);

/// `made` is a whole number nearest to `of * part / whole`, and 1 at least.
pub open spec fn is_proportion(made: u32, of: u32, part: u32, whole: u32) -> bool {
    let distance = made * whole - of * part;
    ||| -whole <= 2 * distance <= whole
    ||| made == 1 && 2 * of * part <= whole
}

/// A picture of the size `source`, scaled to the size `made`, keeps its
/// proportions and meets two sides of the place that it lies in.
pub open spec fn fits_within(
    source: (u32, u32),
    width: u32,
    height: u32,
    made: (u32, u32),
) -> bool {
    if source.1 * width <= source.0 * height {
        made.0 == width && is_proportion(made.1, source.1, width, source.0)
    } else {
        made.1 == height && is_proportion(made.0, source.0, height, source.1)
    }
}

/// `image::DynamicImage::resize_to_fill`, with the Lanczos filter, of the
/// picture that `image::load_from_memory` reads, and `to_rgba8` of that. The
/// result fills the place exactly, with four bytes to a pixel. A picture without
/// two sides, or one that grows beyond what can be addressed, must not be handed
/// in: there the call panics. A picture that has the size of the place keeps its
/// pixels. What the pixels are else is left open: the filter computes in
/// floating point.
#[verifier::external_body]
fn cover(bytes: &[u8], width: u32, height: u32) -> (r: Option<DecodedImage>)
    requires
        width > 0,
        height > 0,
        picture_size(bytes@) is Some ==> can_cover(picture_size(bytes@)->0, width, height),
    ensures
        r is Some == picture_size(bytes@) is Some,
        match r {
            Some(made) => made.width == width && made.height == height && made.rgba@.len() == 4
                * width * height,
            None => true,
        },
        r is Some && picture_size(bytes@) == Some((width, height)) ==> r->0.rgba@ == picture_pixels(
            bytes@,
        ),
{
    let picture = image::load_from_memory(bytes).ok()?;
    let filter = image::imageops::FilterType::Lanczos3;
    let rgba = picture.resize_to_fill(width, height, filter).to_rgba8();
    Some(DecodedImage { width: rgba.width(), height: rgba.height(), rgba: rgba.into_raw() })
}

/// `image::DynamicImage::resize`, with the Lanczos filter, of the picture that
/// `image::load_from_memory` reads, and `to_rgba8` of that. The size of the
/// result depends on the size of the picture and on the place alone. The result
/// lies within the place, with four bytes to a pixel; a picture with two sides
/// keeps its proportions and meets two sides of the place, up to sizes beyond
/// which double precision is too coarse. A picture that grows beyond what can be
/// addressed must not be handed in: there the call panics. A picture that keeps
/// its size keeps its pixels. What the pixels are else is left open: the filter
/// computes in floating point.
#[verifier::external_body]
fn contain(bytes: &[u8], width: u32, height: u32) -> (r: Option<DecodedImage>)
    requires
        width > 0,
        height > 0,
        picture_size(bytes@) is Some ==> can_contain(picture_size(bytes@)->0, width, height),
    ensures
        r is Some == picture_size(bytes@) is Some,
        match r {
            Some(made) => (made.width, made.height) == contained_size(
                picture_size(bytes@)->0,
                width,
                height,
            ) && is_contained(picture_size(bytes@)->0, width, height, made),
            None => true,
        },
        r is Some && picture_size(bytes@) == Some((r->0.width, r->0.height)) ==> r->0.rgba@
            == picture_pixels(bytes@),
{
    let picture = image::load_from_memory(bytes).ok()?;
    let filter = image::imageops::FilterType::Lanczos3;
    let rgba = picture.resize(width, height, filter).to_rgba8();
    Some(DecodedImage { width: rgba.width(), height: rgba.height(), rgba: rgba.into_raw() })
}

/// What is made of a picture of the size `source` that is to lie within a
/// place.
pub open spec fn is_contained(
    source: (u32, u32),
    width: u32,
    height: u32,
    made: DecodedImage,
) -> bool {
    &&& 0 < made.width <= width
    &&& 0 < made.height <= height
    &&& made.rgba@.len() == 4 * made.width * made.height
    &&& source.0 > 0 && source.1 > 0 && source.0 * height < FINE_PRODUCT && source.1 * width
        < FINE_PRODUCT ==> fits_within(source, width, height, (made.width, made.height))
}

/// Why bytes are not shown in a place; nothing where they are.
pub open spec fn decode_error(
    format: Option<SourceFormat>,
    size: Option<(u32, u32)>,
    request: Request,
) -> Option<ImageErrorView> {
    if format is None || format->0 == SourceFormat::Other || size is None {
        Some(ImageErrorView::Unsupported)
    } else if (size->0).0 * (size->0).1 > MAX_SOURCE_PIXELS {
        Some(ImageErrorView::TooLarge)
    } else {
        match request.fit {
            Fit::Cover => if (size->0).0 == 0 || (size->0).1 == 0 {
                Some(ImageErrorView::Unsupported)
            } else if !can_cover(size->0, request.width, request.height) {
                Some(ImageErrorView::TooLarge)
            } else {
                None
            },
            Fit::Contain => if !can_contain(size->0, request.width, request.height) {
                Some(ImageErrorView::TooLarge)
            } else {
                None
            },
        }
    }
}

/// Whether a picture whose sides are `width` and `height` can be scaled to at
/// most the size `made_width` by `made_height`.
fn scales(width: u32, height: u32, made_width: u64, made_height: u64) -> (r: bool)
    requires
        made_width <= 0x1_0000_0000,
        made_height <= 0x1_0000_0000,
    ensures
        r == can_scale((width, height), (made_width as int, made_height as int)),
{
    let most: u128 = isize::MAX as u128;
    assert(0 <= 16 * width * made_height <= 16 * 0x1_0000_0000 * 0x1_0000_0000 && 0 <= 16
        * made_width * made_height <= 16 * 0x1_0000_0000 * 0x1_0000_0000 && 0 <= 16 * width <= 16
        * u32::MAX && 0 <= 16 * made_width <= 16 * 0x1_0000_0000) by (nonlinear_arith)
        requires
            0 <= width <= u32::MAX,
            0 <= made_width <= 0x1_0000_0000,
            0 <= made_height <= 0x1_0000_0000,
    ;
    let first: u128 = 16 * width as u128 * made_height as u128;
    let second: u128 = 16 * made_width as u128 * made_height as u128;
    first <= most && second <= most && (width <= FINE_SOURCE || made_width <= FINE_RESULT as u64)
        && (height <= FINE_SOURCE || made_height <= FINE_RESULT as u64)
}

/// Whether a picture with the sides `width` and `height` can be scaled until it
/// covers the place `place_width` by `place_height`.
fn covers(width: u32, height: u32, place_width: u32, place_height: u32) -> (r: bool)
    requires
        width > 0,
        height > 0,
    ensures
        r == can_cover((width, height), place_width, place_height),
{
    assert(0 <= width * place_height <= u32::MAX * u32::MAX && 0 <= height * place_width <= u32::MAX
        * u32::MAX) by (nonlinear_arith)
        requires
            0 <= width <= u32::MAX,
            0 <= height <= u32::MAX,
            0 <= place_width <= u32::MAX,
            0 <= place_height <= u32::MAX,
    ;
    let wide: u64 = width as u64 * place_height as u64;
    let high: u64 = height as u64 * place_width as u64;
    if wide <= high {
        let side: u64 = high / width as u64;
        if side >= u32::MAX as u64 {
            return false;
        }
        scales(width, height, place_width as u64, side + 1)
    } else {
        let side: u64 = wide / height as u64;
        if side >= u32::MAX as u64 {
            return false;
        }
        scales(width, height, side + 1, place_height as u64)
    }
}

/// Whether a picture with the sides `width` and `height` can be scaled until it
/// lies within the place `place_width` by `place_height`.
fn contains(width: u32, height: u32, place_width: u32, place_height: u32) -> (r: bool)
    ensures
        r == can_contain((width, height), place_width, place_height),
{
    if width == 0 || height == 0 {
        return scales(width, height, place_width as u64, place_height as u64);
    }
    assert(0 <= width * place_height <= u32::MAX * u32::MAX && 0 <= height * place_width <= u32::MAX
        * u32::MAX) by (nonlinear_arith)
        requires
            0 <= width <= u32::MAX,
            0 <= height <= u32::MAX,
            0 <= place_width <= u32::MAX,
            0 <= place_height <= u32::MAX,
    ;
    let wide: u64 = width as u64 * place_height as u64;
    let high: u64 = height as u64 * place_width as u64;
    if high <= wide {
        proof {
            lemma_within(high as int, width as int, place_height as int);
        }
        let side: u64 = high / width as u64 + 1;
        scales(width, height, place_width as u64, side)
    } else {
        proof {
            lemma_within(wide as int, height as int, place_width as int);
        }
        let side: u64 = wide / height as u64 + 1;
        scales(width, height, side, place_height as u64)
    }
}

proof fn lemma_within(product: int, side: int, most: int)
    requires
        side > 0,
        0 <= product <= side * most,
    ensures
        0 <= product / side <= most,
{
    vstd::arithmetic::div_mod::lemma_div_is_ordered(product, side * most, side);
    vstd::arithmetic::div_mod::lemma_div_multiples_vanish(most, side);
    vstd::arithmetic::div_mod::lemma_div_pos_is_pos(product, side);
    vstd::arithmetic::mul::lemma_mul_is_commutative(side, most);
}

/// Whether a picture in the format `format` and of the size `size` can be shown
/// in the place that `request` names.
pub fn judge_picture(
    format: Option<SourceFormat>,
    size: Option<(u32, u32)>,
    request: &Request,
) -> (r: Result<(), ImageError>)
    ensures
        image_failure(r) == decode_error(format, size, *request),
{
    match format {
        Some(known) => {
            if known == SourceFormat::Other {
                return Err(ImageError::Unsupported);
            }
        },
        None => {
            return Err(ImageError::Unsupported);
        },
    }
    let (width, height) = match size {
        Some(sides) => sides,
        None => {
            return Err(ImageError::Unsupported);
        },
    };
    assert(0 <= width * height <= u32::MAX * u32::MAX) by (nonlinear_arith)
        requires
            0 <= width <= u32::MAX,
            0 <= height <= u32::MAX,
    ;
    if width as u64 * height as u64 > MAX_SOURCE_PIXELS {
        return Err(ImageError::TooLarge);
    }
    let fits = match request.fit {
        Fit::Cover => {
            if width == 0 || height == 0 {
                return Err(ImageError::Unsupported);
            }
            covers(width, height, request.width, request.height)
        },
        Fit::Contain => contains(width, height, request.width, request.height),
    };
    if fits {
        Ok(())
    } else {
        Err(ImageError::TooLarge)
    }
}

/// The picture in `bytes`, fitted into the place that `request` names. A place
/// without two sides has no picture.
pub fn decode(bytes: &[u8], request: &Request) -> (r: Result<DecodedImage, ImageError>)
    requires
        request.width > 0,
        request.height > 0,
    ensures
        image_failure(r) == decode_error(guessed_format(bytes@), picture_size(bytes@), *request),
        match r {
            Ok(made) => match request.fit {
                Fit::Cover => made.width == request.width && made.height == request.height
                    && made.rgba@.len() == 4 * made.width * made.height,
                Fit::Contain => (made.width, made.height) == contained_size(
                    picture_size(bytes@)->0,
                    request.width,
                    request.height,
                ) && is_contained(
                    picture_size(bytes@)->0,
                    request.width,
                    request.height,
                    made,
                ),
            },
            Err(_) => true,
        },
        r is Ok && picture_size(bytes@) == Some((r->Ok_0.width, r->Ok_0.height)) ==> r->Ok_0.rgba@
            == picture_pixels(bytes@),
{
    let format = guess_format(bytes);
    let size = match format {
        Some(SourceFormat::Other) => None,
        Some(_) => read_size(bytes),
        None => None,
    };
    match judge_picture(format, size, request) {
        Ok(()) => {},
        Err(error) => {
            return Err(error);
        },
    }
    let made = match request.fit {
        Fit::Cover => cover(bytes, request.width, request.height),
        Fit::Contain => contain(bytes, request.width, request.height),
    };
    match made {
        Some(picture) => Ok(picture),
        None => Err(ImageError::Unsupported),
    }
}

/// Why a download is not begun; nothing where it is.
pub open spec fn download_error(status: u16, content_length: Option<u64>) -> Option<
    ImageErrorView,
> {
    if !(200 <= status <= 299) {
        Some(ImageErrorView::HttpStatus(status))
    } else if content_length is Some && content_length->0 > MAX_DOWNLOAD_BYTES {
        Some(ImageErrorView::TooLarge)
    } else {
        None
    }
}

/// Whether a download that begins with this status and length goes on.
pub fn judge_download(status: u16, content_length: Option<u64>) -> (r: Result<(), ImageError>)
    ensures
        image_failure(r) == download_error(status, content_length),
{
    if !(200 <= status && status <= 299) {
        return Err(ImageError::HttpStatus(status));
    }
    if let Some(length) = content_length {
        if length > MAX_DOWNLOAD_BYTES as u64 {
            return Err(ImageError::TooLarge);
        }
    }
    Ok(())
}

/// Takes one more piece of a picture, unless it makes the picture too long.
pub fn take_piece(bytes: &mut Vec<u8>, piece: &[u8]) -> (r: Result<(), ImageError>)
    ensures
        if old(bytes)@.len() + piece@.len() > MAX_DOWNLOAD_BYTES {
            image_failure(r) == Some(ImageErrorView::TooLarge) && final(bytes)@ == old(bytes)@
        } else {
            r is Ok && final(bytes)@ == old(bytes)@ + piece@
        },
{
    match crate::network::take_chunk(bytes, piece, MAX_DOWNLOAD_BYTES) {
        Ok(()) => Ok(()),
        Err(_) => Err(ImageError::TooLarge),
    }
}

/// A file that is kept: when it was last changed, and its length in bytes.
#[derive(Debug, Clone, Copy, PartialEq, Eq)]
pub struct KeptFile {
    pub modified: u128,
    pub size: u64,
}

/// The length of all files of a list, as far as a 64-bit number holds it.
pub open spec fn total_size(files: Seq<KeptFile>) -> u64
    decreases files.len(),
{
    if files.len() == 0 {
        0
    } else if total_size(files.drop_last()) + files.last().size > u64::MAX {
        u64::MAX
    } else {
        (total_size(files.drop_last()) + files.last().size) as u64
    }
}

/// Where the file at `file` goes among the places of older ones.
pub open spec fn age_place(files: Seq<KeptFile>, order: Seq<int>, file: int) -> int
    decreases order.len(),
{
    if order.len() == 0 {
        0
    } else if files[file].modified < files[order.last()].modified {
        age_place(files, order.drop_last(), file)
    } else {
        order.len() as int
    }
}

/// The places of the first `count` files, from the oldest to the newest; files
/// of one age as in the list.
pub open spec fn by_age(files: Seq<KeptFile>, count: nat) -> Seq<int>
    decreases count,
{
    if count == 0 {
        Seq::empty()
    } else {
        let before = by_age(files, (count - 1) as nat);
        before.insert(age_place(files, before, count - 1), count - 1)
    }
}

/// The places in a list.
pub open spec fn place_list(list: Seq<usize>) -> Seq<int> {
    Seq::new(list.len(), |i: int| list[i] as int)
}

/// Making room on disk: which files are removed, one after the other.
pub struct Trimming {
    order: Vec<usize>,
    sizes: Vec<u64>,
    next: usize,
    total: u64,
}

impl Trimming {
    /// The places of the files that are yet to be looked at, the oldest first.
    pub closed spec fn remaining(self) -> Seq<int> {
        place_list(self.order@).skip(self.next as int)
    }

    /// How much is kept.
    pub closed spec fn kept(self) -> u64 {
        self.total
    }

    /// The length of the file at a place.
    pub closed spec fn size_at(self, place: int) -> u64 {
        self.sizes@[place]
    }

    /// Every place is that of a file.
    pub closed spec fn wf(self) -> bool {
        &&& self.next <= self.order@.len()
        &&& forall|i: int| 0 <= i < self.order@.len() ==> #[trigger] self.order@[i]
            < self.sizes@.len()
    }

    /// Making room among `files`.
    pub fn start(files: &Vec<KeptFile>) -> (r: Trimming)
        ensures
            r.wf(),
            r.remaining() == by_age(files@, files@.len()),
            r.kept() == total_size(files@),
            forall|i: int| 0 <= i < files@.len() ==> #[trigger] r.size_at(i) == files@[i].size,
    {
        let mut order: Vec<usize> = Vec::new();
        let mut sizes: Vec<u64> = Vec::new();
        let mut total: u64 = 0;
        let mut i: usize = 0;
        assert(place_list(order@) == Seq::<int>::empty());
        while i < files.len()
            invariant
                i <= files@.len(),
                sizes@.len() == i,
                order@.len() == i,
                forall|j: int| 0 <= j < i ==> #[trigger] sizes@[j] == files@[j].size,
                forall|j: int| 0 <= j < order@.len() ==> #[trigger] order@[j] < i,
                place_list(order@) == by_age(files@, i as nat),
                total == total_size(files@.take(i as int)),
            decreases files@.len() - i,
        {
            assert(files@.take(i + 1).drop_last() == files@.take(i as int));
            let ghost before = place_list(order@);
            let ghost old_order = order@;
            let mut k: usize = order.len();
            assert(before.take(k as int) == before);
            while k > 0 && files[i].modified < files[order[k - 1]].modified
                invariant
                    k <= order@.len(),
                    i < files@.len(),
                    before == place_list(order@),
                    forall|j: int| 0 <= j < order@.len() ==> #[trigger] order@[j] < i,
                    age_place(files@, before, i as int) == age_place(
                        files@,
                        before.take(k as int),
                        i as int,
                    ),
                decreases k,
            {
                assert(before.take(k as int).last() == order@[k - 1] as int);
                assert(before.take(k as int).drop_last() == before.take(k - 1));
                k -= 1;
            }
            assert(k > 0 ==> before.take(k as int).last() == order@[k - 1] as int);
            order.insert(k, i);
            assert(place_list(order@) == before.insert(k as int, i as int));
            assert forall|j: int| 0 <= j < order@.len() implies #[trigger] order@[j] < i + 1 by {
                if j < k {
                    assert(order@[j] == old_order[j]);
                } else if j > k {
                    assert(order@[j] == old_order[j - 1]);
                }
            }
            sizes.push(files[i].size);
            total = total.saturating_add(files[i].size);
            i += 1;
        }
        assert(files@.take(i as int) == files@);
        let r = Trimming { order, sizes, next: 0, total };
        assert(r.remaining() == place_list(r.order@));
        r
    }

    /// The place of the next file to remove: the oldest one left, as long as
    /// too much is kept.
    pub fn next(&self) -> (r: Option<usize>)
        requires
            self.wf(),
        ensures
            match r {
                Some(place) => self.kept() > MAX_DISK_CACHE_BYTES && self.remaining().len() > 0
                    && place == self.remaining()[0],
                None => self.kept() <= MAX_DISK_CACHE_BYTES || self.remaining().len() == 0,
            },
    {
        if self.total <= MAX_DISK_CACHE_BYTES || self.next >= self.order.len() {
            None
        } else {
            assert(self.remaining()[0] == self.order@[self.next as int] as int);
            Some(self.order[self.next])
        }
    }

    /// Goes on to the file after the next one; `removed` tells whether that one
    /// is gone.
    pub fn report(&mut self, removed: bool)
        requires
            old(self).wf(),
            old(self).remaining().len() > 0,
        ensures
            final(self).wf(),
            final(self).remaining() == old(self).remaining().skip(1),
            forall|i: int| #[trigger] final(self).size_at(i) == old(self).size_at(i),
            final(self).kept() == if !removed {
                old(self).kept()
            } else if old(self).kept() < old(self).size_at(old(self).remaining()[0]) {
                0
            } else {
                (old(self).kept() - old(self).size_at(old(self).remaining()[0])) as u64
            },
    {
        let ghost before = self.remaining();
        let count: usize = self.order.len();
        let place = self.order[self.next];
        assert(before[0] == place as int);
        if removed {
            self.total = self.total.saturating_sub(self.sizes[place]);
        }
        self.next = self.next + 1;
        assert(self.remaining() == before.skip(1));
    }
}

/// Pictures that failed, and when they may be tried again.
pub struct FailureCache {
    entries: StringHashMap<u128>,
}

impl View for FailureCache {
    type V = Map<Seq<char>, u128>;

    closed spec fn view(&self) -> Map<Seq<char>, u128> {
        self.entries@
    }
}

impl Default for FailureCache {
    fn default() -> (r: Self)
        ensures
            r@ == Map::<Seq<char>, u128>::empty(),
    {
        FailureCache { entries: StringHashMap::new() }
    }
}

impl FailureCache {
    /// Whether the picture at `url` may be tried at the time `now`. A failure
    /// whose time is over is forgotten.
    pub fn permits(&mut self, url: &str, now: u128) -> (r: bool)
        ensures
            r == !(old(self)@.contains_key(url@) && now < old(self)@[url@]),
            final(self)@ == if r {
                old(self)@.remove(url@)
            } else {
                old(self)@
            },
    {
        let waiting = match self.entries.get(url) {
            Some(retry_at) => now < *retry_at,
            None => false,
        };
        if waiting {
            return false;
        }
        self.entries.remove(url);
        true
    }

    /// Notes that the picture at `url` failed and may be tried again at
    /// `retry_at`.
    pub fn record(&mut self, url: String, retry_at: u128)
        ensures
            final(self)@ == old(self)@.insert(url@, retry_at),
    {
        self.entries.insert(url, retry_at);
    }

    /// Forgets that the picture at `url` failed.
    pub fn clear(&mut self, url: &str)
        ensures
            final(self)@ == old(self)@.remove(url@),
    {
        self.entries.remove(url);
    }
}

/// How long a picture is left alone after a failure.
pub fn failure_backoff(error: &ImageError) -> (r: u128)
    ensures
        r == if error@.passes() {
            TRANSIENT_FAILURE_BACKOFF
        } else {
            PERSISTENT_FAILURE_BACKOFF
        },
{
    match error {
        ImageError::Network(_) => TRANSIENT_FAILURE_BACKOFF,
        ImageError::HttpStatus(status) => {
            if *status == 408 || *status == 429 || (500 <= *status && *status <= 599) {
                TRANSIENT_FAILURE_BACKOFF
            } else {
                PERSISTENT_FAILURE_BACKOFF
            }
        },
        ImageError::Cache(_) => TRANSIENT_FAILURE_BACKOFF,
        ImageError::InvalidUrl => PERSISTENT_FAILURE_BACKOFF,
        ImageError::TooLarge => PERSISTENT_FAILURE_BACKOFF,
        ImageError::Unsupported => PERSISTENT_FAILURE_BACKOFF,
    }
}

/// How many pictures are loaded side by side: one at least, twelve at most.
pub fn worker_count(wanted: usize) -> (r: usize)
    ensures
        r == if wanted < 1 {
            1
        } else if wanted > 12 {
            12
        } else {
            wanted as int
        },
{
    if wanted < 1 {
        1
    } else if wanted > 12 {
        12
    } else {
        wanted
    }
}

/// A picture that failed is left alone until its time is over, and other
/// pictures are not affected.
pub proof fn law_failures_are_scoped(
    failures: Map<Seq<char>, u128>,
    failed: Seq<char>,
    retry_at: u128,
    other: Seq<char>,
    now: u128,
)
    requires
        other != failed,
    ensures
        ({
            let noted = failures.insert(failed, retry_at);
            &&& now < retry_at ==> noted.contains_key(failed) && now < noted[failed]
            &&& noted.contains_key(other) == failures.contains_key(other)
            &&& failures.contains_key(other) ==> noted[other] == failures[other]
            &&& !noted.remove(failed).contains_key(failed)
        }),
{
}

} // verus!
