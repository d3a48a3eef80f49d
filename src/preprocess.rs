use vstd::prelude::*;

use crate::error::ServiceError;

verus! {

/// Side of the square image that the model takes, in pixels.
pub const MODEL_INPUT_SIZE: u32 = 640;

#[verifier::external_type_specification]
#[verifier::external_body]
pub struct ExImageError(image::ImageError);

/// Whether `image::load_from_memory` decodes these bytes (its format is one
/// it recognises and the data is sound).
pub uninterp spec fn decodes(buf: Seq<u8>) -> bool;

/// Width in pixels of the image that these bytes decode to
/// (`DynamicImage::width`).
pub uninterp spec fn decoded_width(buf: Seq<u8>) -> u32;

/// Height in pixels of the image that these bytes decode to
/// (`DynamicImage::height`).
pub uninterp spec fn decoded_height(buf: Seq<u8>) -> u32;

/// Pixels of the image that these bytes decode to after
/// `DynamicImage::resize_exact` to a square of side `side` with the
/// Catmull-Rom filter, as RGBA bytes row by row (`to_rgba8`, `into_raw`).
pub uninterp spec fn resized_rgba(buf: Seq<u8>, side: u32) -> Seq<u8>;

/// An image decoded from bytes: its original size and its pixels resized to
/// a square, four bytes (red, green, blue, alpha) per pixel, row by row.
pub struct DecodedImage {
    pub width: u32,
    pub height: u32,
    pub rgba: Vec<u8>,
}

/// Relies on `image::load_from_memory` to decode `buf` (failing exactly when
/// it does not decode), on `DynamicImage::width` and `height` for its size,
/// and on `DynamicImage::resize_exact` with the Catmull-Rom filter, then
/// `to_rgba8` and `into_raw`, for its pixels at exactly `side` by `side`.
#[verifier::external_body]
fn decode_resized(buf: &[u8], side: u32) -> (r: Result<DecodedImage, image::ImageError>)
    ensures
        r is Ok <==> decodes(buf@),
        r matches Ok(d) ==> {
            &&& d.width == decoded_width(buf@)
            &&& d.height == decoded_height(buf@)
            &&& d.rgba@ == resized_rgba(buf@, side)
            &&& d.rgba@.len() == 4 * (side as int) * (side as int)
        },
{
    let img = image::load_from_memory(buf)?;
    let rgba = img.resize_exact(side, side, image::imageops::FilterType::CatmullRom)
        .to_rgba8()
        .into_raw();
    Ok(DecodedImage { width: img.width(), height: img.height(), rgba })
}

/// The pixel values of a square RGBA image of side `n`, laid out channel
/// first: all red values, then all green, then all blue, each row by row.
/// Alpha is dropped.
pub open spec fn is_planar(planes: Seq<u8>, rgba: Seq<u8>, n: int) -> bool {
    &&& planes.len() == 3 * n * n
    &&& forall|c: int, p: int|
        0 <= c < 3 && 0 <= p < n * n ==> #[trigger] planes[c * (n * n) + p] == rgba[4 * p + c]
}

proof fn lemma_plane_index(cc: int, q: int, c: int, m: int)
    requires
        0 <= cc < c,
        0 <= q < m,
    ensures
        0 <= cc * m + q < c * m,
{
    assert(0 <= cc * m + q < c * m) by (nonlinear_arith)
        requires
            0 <= cc < c,
            0 <= q < m,
    ;
}

/// Lays out the pixels of a square RGBA image of side `n` channel first.
pub fn channel_planes(rgba: &Vec<u8>, n: usize) -> (r: Vec<u8>)
    requires
        rgba@.len() == 4 * n * n,
    ensures
        is_planar(r@, rgba@, n as int),
{
    let ghost m = n * n;
    proof {
        assert(4 * n * n == 4 * (n * n)) by (nonlinear_arith);
        assert(3 * n * n == 3 * (n * n)) by (nonlinear_arith);
    }
    let len = rgba.len();
    let area = n * n;
    let mut out: Vec<u8> = Vec::new();
    let mut c: usize = 0;
    while c < 3
        invariant
            c <= 3,
            area == m,
            rgba@.len() == 4 * m,
            len == rgba@.len(),
            out@.len() == c * m,
            forall|cc: int, p: int|
                0 <= cc < c && 0 <= p < m ==> #[trigger] out@[cc * m + p] == rgba@[4 * p + cc],
        decreases 3 - c,
    {
        let mut p: usize = 0;
        while p < area
            invariant
                c < 3,
                p <= area,
                area == m,
                rgba@.len() == 4 * m,
                len == rgba@.len(),
                out@.len() == c * m + p,
                forall|cc: int, q: int|
                    0 <= cc < c && 0 <= q < m ==> #[trigger] out@[cc * m + q] == rgba@[4 * q + cc],
                forall|q: int| 0 <= q < p ==> #[trigger] out@[c * m + q] == rgba@[4 * q + c],
            decreases area - p,
        {
            let ghost before = out@;
            out.push(rgba[4 * p + c]);
            proof {
                assert forall|cc: int, q: int| 0 <= cc < c && 0 <= q < m implies #[trigger] out@[cc
                    * m + q] == rgba@[4 * q + cc] by {
                    lemma_plane_index(cc, q, c as int, m as int);
                    assert(out@[cc * m + q] == before[cc * m + q]);
                }
            }
            p = p + 1;
        }
        proof {
            assert forall|cc: int, q: int| 0 <= cc < c + 1 && 0 <= q < m implies #[trigger] out@[cc
                * m + q] == rgba@[4 * q + cc] by {
                if cc < c {
                    lemma_plane_index(cc, q, c as int, m as int);
                }
            }
            assert((c + 1) * m == c * m + m) by (nonlinear_arith);
        }
        c = c + 1;
    }
    proof {
        assert forall|cc: int, p: int| 0 <= cc < 3 && 0 <= p < n * n implies #[trigger] out@[cc * (
        n * n) + p] == rgba@[4 * p + cc] by {
            assert(out@[cc * m + p] == rgba@[4 * p + cc]);
        }
    }
    out
}

/// What `prepare_input` gives for bytes that decode: the resized pixels
/// channel first, with the decoded image's original width and height.
pub open spec fn prepared(buf: Seq<u8>, res: (Vec<u8>, u32, u32)) -> bool {
    &&& is_planar(res.0@, resized_rgba(buf, MODEL_INPUT_SIZE), MODEL_INPUT_SIZE as int)
    &&& res.1 == decoded_width(buf)
    &&& res.2 == decoded_height(buf)
}

/// Decodes an encoded image and brings it to the model's input size. Gives
/// the resized pixels channel first, with the original width and height;
/// fails exactly when the bytes do not decode.
pub fn prepare_input(buf: &Vec<u8>) -> (r: Result<(Vec<u8>, u32, u32), ServiceError>)
    ensures
        r is Ok <==> decodes(buf@),
        r matches Ok(res) ==> prepared(buf@, res),
        r matches Err(e) ==> e == ServiceError::ImageDecode,
{
    match decode_resized(buf.as_slice(), MODEL_INPUT_SIZE) {
        Err(_) => Err(ServiceError::ImageDecode),
        Ok(d) => {
            let planes = channel_planes(&d.rgba, MODEL_INPUT_SIZE as usize);
            Ok((planes, d.width, d.height))
        },
    }
}

/// The planes hold the red, green and blue values alone: two pixel buffers
/// that agree on those give the same planes, whatever their alpha.
pub proof fn lemma_planes_ignore_alpha(p1: Seq<u8>, p2: Seq<u8>, rgba1: Seq<u8>, rgba2: Seq<u8>, n: int)
    requires
        n >= 0,
        is_planar(p1, rgba1, n),
        is_planar(p2, rgba2, n),
        forall|p: int, c: int| 0 <= p < n * n && 0 <= c < 3 ==> #[trigger] rgba1[4 * p + c] == rgba2[4 * p + c],
    ensures
        p1 == p2,
{
    assert forall|k: int| 0 <= k < p1.len() implies #[trigger] p1[k] == p2[k] by {
        let m = n * n;
        assert(m >= 0 && 3 * n * n == 3 * m) by (nonlinear_arith)
            requires
                n >= 0,
                m == n * n,
        ;
        let c = k / m;
        let p = k % m;
        assert(k == c * m + p && 0 <= c < 3 && 0 <= p < m) by (nonlinear_arith)
            requires
                0 <= k < 3 * m,
                m > 0,
                c == k / m,
                p == k % m,
        ;
        assert(p1[c * m + p] == rgba1[4 * p + c]);
        assert(p2[c * m + p] == rgba2[4 * p + c]);
    }
    assert(p1 =~= p2);
}

/// Two buffers whose resized pixels agree on red, green and blue, and whose
/// decoded sizes agree, prepare to the same input, whatever their alpha.
pub proof fn lemma_prepare_ignores_alpha(
    buf1: Seq<u8>,
    buf2: Seq<u8>,
    res1: (Vec<u8>, u32, u32),
    res2: (Vec<u8>, u32, u32),
)
    requires
        prepared(buf1, res1),
        prepared(buf2, res2),
        decoded_width(buf1) == decoded_width(buf2),
        decoded_height(buf1) == decoded_height(buf2),
        forall|p: int, c: int|
            0 <= p < (MODEL_INPUT_SIZE as int) * (MODEL_INPUT_SIZE as int) && 0 <= c < 3
                ==> #[trigger] resized_rgba(buf1, MODEL_INPUT_SIZE)[4 * p + c] == resized_rgba(
                buf2,
                MODEL_INPUT_SIZE,
            )[4 * p + c],
    ensures
        res1.0@ == res2.0@,
        res1.1 == res2.1,
        res1.2 == res2.2,
{
    lemma_planes_ignore_alpha(
        res1.0@,
        res2.0@,
        resized_rgba(buf1, MODEL_INPUT_SIZE),
        resized_rgba(buf2, MODEL_INPUT_SIZE),
        MODEL_INPUT_SIZE as int,
    );
}

} // verus!
