//! Pictures that are fetched, scaled and kept.

use crate::pictures::{
    age_place, by_age, containing_size, covering_size, decode_error, download_error,
    is_valid_request, Fit, ImageErrorView, KeptFile, Request, SourceFormat,
};
use crate::web::parsed_url;
use vstd::prelude::*;

verus! {

/// A picture is asked for only at an HTTP or HTTPS address and in a size.
pub proof fn law_requests_are_for_web_pictures(request: Request)
    ensures
        is_valid_request(request) <==> parsed_url(request.url@) is Some && (parsed_url(
            request.url@,
        )->0.scheme == "http"@ || parsed_url(request.url@)->0.scheme == "https"@) && request.width
            >= 1 && request.height >= 1,
{
}

/// An answer with a picture is taken where its status is one of success and it
/// says of itself no length above twelve mebibytes.
pub proof fn law_answers_with_pictures_are_taken(status: u16, length: Option<u64>)
    ensures
        download_error(status, length) is None <==> 200 <= status <= 299 && (length is Some
            ==> length->0 <= 12_582_912),
        !(200 <= status <= 299) ==> download_error(status, length) == Some(
            ImageErrorView::HttpStatus(status),
        ),
{
}

/// A picture whose format is unknown is refused, and so is one of more than
/// forty million pixels.
pub proof fn law_large_pictures_are_refused(
    format: Option<SourceFormat>,
    size: Option<(u32, u32)>,
    request: Request,
)
    ensures
        format is None || size is None || format == Some(SourceFormat::Other) ==> decode_error(
            format,
            size,
            request,
        ) == Some(ImageErrorView::Unsupported),
        format is Some && format->0 != SourceFormat::Other && size is Some && (size->0).0 * (
        size->0).1 > 40_000_000 ==> decode_error(format, size, request) == Some(
            ImageErrorView::TooLarge,
        ),
        decode_error(format, size, request) is None && request.fit == Fit::Cover ==> (size->0).0
            > 0 && (size->0).1 > 0,
{
}

/// A picture that is to cover a box is made at least as large as the box.
pub proof fn law_covering_picture_covers(source: (u32, u32), width: u32, height: u32)
    requires
        source.0 > 0,
        source.1 > 0,
    ensures
        covering_size(source, width, height).0 >= width,
        covering_size(source, width, height).1 >= height,
        covering_size(source, width, height).0 == width || covering_size(source, width, height).1
            == height,
{
    let (a, b) = (source.0 as int, source.1 as int);
    let (w, h) = (width as int, height as int);
    if a * h <= b * w {
        assert(b * w / a >= h) by (nonlinear_arith)
            requires
                a > 0,
                a * h <= b * w,
        ;
    } else {
        assert(a * h / b >= w) by (nonlinear_arith)
            requires
                b > 0,
                a * h > b * w,
        ;
    }
}

/// A picture that is to lie in a box is scaled to no more than the box, but for
/// the rounding of one side.
pub proof fn law_contained_picture_is_contained(source: (u32, u32), width: u32, height: u32)
    ensures
        containing_size(source, width, height).0 <= width + 1,
        containing_size(source, width, height).1 <= height + 1,
        containing_size(source, width, height).0 == width || containing_size(
            source,
            width,
            height,
        ).1 == height,
{
    let (a, b) = (source.0 as int, source.1 as int);
    let (w, h) = (width as int, height as int);
    if a > 0 && b > 0 {
        if b * w <= a * h {
            assert(b * w / a <= h) by (nonlinear_arith)
                requires
                    a > 0,
                    b * w <= a * h,
            ;
        } else {
            assert(a * h / b <= w) by (nonlinear_arith)
                requires
                    b > 0,
                    b * w > a * h,
            ;
        }
    }
}

proof fn lemma_age_place(files: Seq<KeptFile>, order: Seq<int>, file: int)
    ensures
        0 <= age_place(files, order, file) <= order.len(),
        forall|k: int|
            age_place(files, order, file) <= k < order.len() ==> files[file].modified
                < files[#[trigger] order[k]].modified,
        age_place(files, order, file) > 0 ==> files[order[age_place(files, order, file)
            - 1]].modified <= files[file].modified,
    decreases order.len(),
{
    if order.len() > 0 && files[file].modified < files[order.last()].modified {
        let shorter = order.drop_last();
        lemma_age_place(files, shorter, file);
        assert forall|k: int| age_place(files, order, file) <= k < order.len() implies files[file].modified
            < files[#[trigger] order[k]].modified by {
            if k < shorter.len() {
                assert(shorter[k] == order[k]);
            }
        }
    }
}

/// Room is made by taking the files that are longest unused first: every file
/// once, each one older than or as old as those behind it.
pub proof fn law_oldest_files_go_first(files: Seq<KeptFile>, count: nat)
    requires
        count <= files.len(),
    ensures
        by_age(files, count).len() == count,
        forall|i: int| 0 <= i < count ==> by_age(files, count).contains(i),
        forall|k: int| 0 <= k < count ==> 0 <= #[trigger] by_age(files, count)[k] < count,
        forall|k: int, m: int|
            0 <= k < m < count ==> files[#[trigger] by_age(files, count)[k]].modified
                <= files[#[trigger] by_age(files, count)[m]].modified,
    decreases count,
{
    if count > 0 {
        let shorter = (count - 1) as nat;
        let before = by_age(files, shorter);
        let all = by_age(files, count);
        law_oldest_files_go_first(files, shorter);
        lemma_age_place(files, before, count - 1);
        let place = age_place(files, before, count - 1);
        assert(all == before.insert(place, count - 1));
        assert forall|i: int| 0 <= i < count implies all.contains(i) by {
            if i == count - 1 {
                assert(all[place] == i);
            } else {
                assert(before.contains(i));
                let k = choose|k: int| 0 <= k < before.len() && before[k] == i;
                if k < place {
                    assert(all[k] == i);
                } else {
                    assert(all[k + 1] == i);
                }
            }
        }
        assert forall|k: int| 0 <= k < count implies 0 <= #[trigger] all[k] < count by {
            if k < place {
                assert(all[k] == before[k]);
            } else if k > place {
                assert(all[k] == before[k - 1]);
            }
        }
        assert forall|k: int, m: int| 0 <= k < m < count implies files[#[trigger] all[k]].modified
            <= files[#[trigger] all[m]].modified by {
            if m < place {
                assert(all[k] == before[k] && all[m] == before[m]);
            } else if m == place {
                assert(all[k] == before[k]);
                if k < place - 1 {
                    assert(files[before[k]].modified <= files[before[place - 1]].modified);
                }
            } else if k == place {
                assert(all[m] == before[m - 1]);
            } else {
                assert(all[m] == before[m - 1]);
                let x = if k < place {
                    k
                } else {
                    k - 1
                };
                assert(all[k] == before[x]);
                assert(files[before[x]].modified <= files[before[m - 1]].modified);
            }
        }
    }
}

} // verus!
