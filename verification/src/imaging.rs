//! Images attached to messages: decoding, shrinking, PNG encoding and
//! base64 data URIs.

use vstd::prelude::*;
use base64::Engine;
use image::{DynamicImage, ImageEncoder, ImageFormat};
use crate::text::{ascii_lower, chars_of, decimal, push_decimal, string_from_range};

verus! {

#[verifier::external_type_specification]
#[verifier::external_body]
pub struct ExDynamicImage(DynamicImage);

/// The standard base64 alphabet (RFC 4648).
pub open spec fn base64_alphabet() -> Seq<char> {
    "ABCDEFGHIJKLMNOPQRSTUVWXYZabcdefghijklmnopqrstuvwxyz0123456789+/"@
}

/// The standard base64 encoding (RFC 4648, with padding) of `bytes`: each
/// group of three bytes, as 24 bits, gives four characters of six bits
/// each; a last group of one or two bytes gives two or three characters,
/// its missing bits zero, and `=` up to four.
pub open spec fn base64_standard(bytes: Seq<u8>) -> Seq<char>
    decreases bytes.len(),
{
    let t = base64_alphabet();
    if bytes.len() == 0 {
        seq![]
    } else if bytes.len() == 1 {
        let a = bytes[0] as int;
        seq![t[a / 4], t[(a % 4) * 16], '=', '=']
    } else if bytes.len() == 2 {
        let a = bytes[0] as int;
        let b = bytes[1] as int;
        seq![t[a / 4], t[(a % 4) * 16 + b / 16], t[(b % 16) * 4], '=']
    } else {
        let a = bytes[0] as int;
        let b = bytes[1] as int;
        let c = bytes[2] as int;
        seq![t[a / 4], t[(a % 4) * 16 + b / 16], t[(b % 16) * 4 + c / 64], t[c % 64]]
            + base64_standard(bytes.subrange(3, bytes.len() as int))
    }
}

/// `base64::engine::general_purpose::STANDARD.encode`: the standard padded
/// encoding above, which, as the engine's documentation says, decodes back
/// to the bytes.
#[verifier::external_body]
fn base64_encode(bytes: &[u8]) -> (r: String)
    ensures
        r@ == base64_standard(bytes@),
        base64_standard_decoded(r@) == Some(bytes@),
{
    base64::engine::general_purpose::STANDARD.encode(bytes)
}

/// A data URI: `data:<mime>;base64,<bytes in base64>`.
pub open spec fn spec_data_uri(mime: Seq<char>, bytes: Seq<u8>) -> Seq<char> {
    "data:"@ + mime + ";base64,"@ + base64_standard(bytes)
}

/// Builds the data URI of `bytes` with media type `mime`; when the media
/// type has no comma, the bytes that the URI carries are `bytes`.
pub fn to_data_uri(mime: &str, bytes: &[u8]) -> (r: String)
    ensures
        r@ == spec_data_uri(mime@, bytes@),
        !mime@.contains(',') ==> uri_payload(r@) == Some(bytes@),
{
    let b64 = base64_encode(bytes);
    let mut r = "data:".to_owned();
    r.append(mime);
    r.append(";base64,");
    r.append(b64.as_str());
    proof {
        reveal_strlit("data:");
        reveal_strlit(";base64,");
        if !mime@.contains(',') {
            let k: int = 12 + mime@.len() as int;
            assert(r@[k] == ',');
            assert forall|j: int| 0 <= j < k implies r@[j] != ',' by {
                if 5 <= j < 5 + mime@.len() {
                    assert(r@[j] == mime@[j - 5]);
                }
            }
            lemma_first_comma(r@, 0, k);
            assert(r@.subrange(k + 1, r@.len() as int) =~= b64@);
        }
    }
    r
}

/// The first comma from `i` is at `k` when `k` holds one and none before.
proof fn lemma_first_comma(s: Seq<char>, i: int, k: int)
    requires
        0 <= i <= k < s.len(),
        s[k] == ',',
        forall|j: int| i <= j < k ==> s[j] != ',',
    ensures
        first_comma(s, i) == Some(k),
    decreases k - i,
{
    if i < k {
        lemma_first_comma(s, i + 1, k);
    }
}

/// The extensions that name an image format, in ASCII lowercase.
pub open spec fn is_image_extension(ext: Seq<char>) -> bool {
    let l = ext.map_values(|c: char| ascii_lower(c));
    ||| l == "avif"@ || l == "jpg"@ || l == "jpeg"@ || l == "jfif"@ || l == "png"@ || l == "apng"@
    ||| l == "gif"@ || l == "webp"@ || l == "tif"@ || l == "tiff"@ || l == "tga"@ || l == "dds"@
    ||| l == "bmp"@ || l == "ico"@ || l == "hdr"@ || l == "exr"@ || l == "pbm"@ || l == "pam"@
    ||| l == "ppm"@ || l == "pgm"@ || l == "pnm"@ || l == "ff"@ || l == "qoi"@
}

/// `ImageFormat::from_extension`, asked whether it finds a format: as its
/// source shows, it does exactly for the extensions above, in any ASCII case.
#[verifier::external_body]
fn names_image_format(ext: &str) -> (r: bool)
    ensures
        r == is_image_extension(ext@),
{
    ImageFormat::from_extension(ext).is_some()
}

/// What an image holds: its width, its height, the kind of its pixels (the
/// position of its colour type among the variants of `ColorType`) and its
/// samples as bytes, row by row.
pub uninterp spec fn image_contents(img: DynamicImage) -> (u32, u32, nat, Seq<u8>);

/// What `image::load_from_memory_with_format` gives for `bytes` in the
/// format that the extension `ext` names: the decoded image's contents, or
/// the text of the decoder's error.
pub uninterp spec fn decoded_with_extension(bytes: Seq<u8>, ext: Seq<char>) -> Result<
    (u32, u32, nat, Seq<u8>),
    Seq<char>,
>;

/// `image::load_from_memory_with_format`, with the format that
/// `ImageFormat::from_extension` finds for `ext`: trusted to depend on the
/// bytes and the format alone.
#[verifier::external_body]
fn load_with_extension(bytes: &[u8], ext: &str) -> (r: Result<DynamicImage, String>)
    requires
        is_image_extension(ext@),
    ensures
        r is Ok <==> decoded_with_extension(bytes@, ext@) is Ok,
        r is Ok ==> image_contents(r->Ok_0) == decoded_with_extension(bytes@, ext@)->Ok_0,
        r is Err ==> r->Err_0@ == decoded_with_extension(bytes@, ext@)->Err_0,
{
    match ImageFormat::from_extension(ext) {
        Some(format) => image::load_from_memory_with_format(bytes, format).map_err(|e| e.to_string()),
        None => Err(String::new()),
    }
}

/// What `image::load_from_memory` gives for `bytes`, guessing the format
/// from them: the decoded image's contents, or the text of the error.
pub uninterp spec fn decoded_guessing_format(bytes: Seq<u8>) -> Result<
    (u32, u32, nat, Seq<u8>),
    Seq<char>,
>;

/// `image::load_from_memory`: trusted to depend on the bytes alone.
#[verifier::external_body]
pub(crate) fn load_image(bytes: &[u8]) -> (r: Result<DynamicImage, String>)
    ensures
        r is Ok <==> decoded_guessing_format(bytes@) is Ok,
        r is Ok ==> image_contents(r->Ok_0) == decoded_guessing_format(bytes@)->Ok_0,
        r is Err ==> r->Err_0@ == decoded_guessing_format(bytes@)->Err_0,
{
    image::load_from_memory(bytes).map_err(|e| e.to_string())
}

/// `DynamicImage::width`.
#[verifier::external_body]
fn image_width(img: &DynamicImage) -> (r: u32)
    ensures
        r == image_contents(*img).0,
{
    img.width()
}

/// `DynamicImage::height`.
#[verifier::external_body]
fn image_height(img: &DynamicImage) -> (r: u32)
    ensures
        r == image_contents(*img).1,
{
    img.height()
}

/// What `DynamicImage::thumbnail(w, h)` makes of an image with contents `c`.
pub uninterp spec fn thumbnail_contents(c: (u32, u32, nat, Seq<u8>), w: u32, h: u32) -> (
    u32,
    u32,
    nat,
    Seq<u8>,
);

/// `DynamicImage::thumbnail`: the image scaled down to fit in `w` x `h`,
/// keeping its aspect ratio; trusted to depend on the image's contents and
/// the bounds alone.
#[verifier::external_body]
fn image_thumbnail(img: &DynamicImage, w: u32, h: u32) -> (r: DynamicImage)
    ensures
        image_contents(r) == thumbnail_contents(image_contents(*img), w, h),
{
    img.thumbnail(w, h)
}

/// The 8-bit RGBA samples that `DynamicImage::to_rgba8` makes of an image
/// with contents `c`.
pub uninterp spec fn rgba8_samples(c: (u32, u32, nat, Seq<u8>)) -> Seq<u8>;

/// `DynamicImage::to_rgba8`, as its raw samples.
#[verifier::external_body]
fn image_rgba8(img: &DynamicImage) -> (r: Vec<u8>)
    ensures
        r@ == rgba8_samples(image_contents(*img)),
{
    img.to_rgba8().into_raw()
}

/// The PNG file that image's PNG encoder (default settings, as
/// `DynamicImage::write_to` uses it) writes for a `width` x `height` image of
/// the 8-bit RGBA samples `rgba`.
pub uninterp spec fn png_rgba(width: u32, height: u32, rgba: Seq<u8>) -> Seq<u8>;

/// `PngEncoder::write_image` of 8-bit RGBA samples into memory. The encoder
/// asserts that the buffer holds exactly the image's samples, hence the
/// `requires`; as the source of the `png` crate shows, the only error left
/// when writing to memory is a zero width or height.
#[verifier::external_body]
fn png_rgba8(width: u32, height: u32, rgba: &[u8]) -> (r: Result<Vec<u8>, String>)
    requires
        rgba@.len() == 4 * width * height,
    ensures
        r is Ok <==> (width > 0 && height > 0),
        r is Ok ==> r->Ok_0@ == png_rgba(width, height, rgba@),
{
    let mut bytes: Vec<u8> = Vec::new();
    image::codecs::png::PngEncoder::new(&mut bytes).write_image(
        rgba,
        width,
        height,
        image::ExtendedColorType::Rgba8,
    ).map(|_| bytes).map_err(|e| e.to_string())
}

/// The contents of an image scaled down to fit in `side` x `side` when a
/// side exceeds it.
pub open spec fn fitted(c: (u32, u32, nat, Seq<u8>), side: u32) -> (u32, u32, nat, Seq<u8>) {
    if c.0 > side || c.1 > side {
        thumbnail_contents(c, side, side)
    } else {
        c
    }
}

/// The bytes sent for an image with contents `c`: the PNG of its RGBA
/// samples, or four zero bytes when it has no pixels (the encoder refuses
/// such an image) or its samples are not exactly four bytes a pixel.
pub open spec fn png_payload(c: (u32, u32, nat, Seq<u8>)) -> Seq<u8> {
    if c.0 > 0 && c.1 > 0 && rgba8_samples(c).len() == 4 * c.0 * c.1 {
        png_rgba(c.0, c.1, rgba8_samples(c))
    } else {
        seq![0u8, 0u8, 0u8, 0u8]
    }
}

/// The PNG data URI sent for an image with contents `c`: scaled down to fit
/// in 2048 x 2048 first (most vision APIs need no more).
pub open spec fn resized_png_uri(c: (u32, u32, nat, Seq<u8>)) -> Seq<char> {
    spec_data_uri("image/png"@, png_payload(fitted(c, 2048)))
}

/// PNG data URI of an image as it is.
fn png_data_uri(img: &DynamicImage) -> (r: String)
    ensures
        r@ == spec_data_uri("image/png"@, png_payload(image_contents(*img))),
{
    let w = image_width(img);
    let h = image_height(img);
    let rgba = image_rgba8(img);
    assert((w as int) * (h as int) <= 0xffff_ffffu64 * 0xffff_ffffu64) by (nonlinear_arith)
        requires
            w <= 0xffff_ffffu32,
            h <= 0xffff_ffffu32,
    ;
    let pixels = (w as u64) * (h as u64);
    let fits = (rgba.len() as u64) / 4 == pixels && rgba.len() % 4 == 0;
    assert(fits <==> rgba@.len() == 4 * w * h) by (nonlinear_arith)
        requires
            fits == ((rgba@.len() as int) / 4 == pixels && rgba@.len() as int % 4 == 0),
            pixels == w * h,
    ;
    if fits {
        if let Ok(bytes) = png_rgba8(w, h, rgba.as_slice()) {
            return to_data_uri("image/png", bytes.as_slice());
        }
    }
    let transparent: [u8; 4] = [0, 0, 0, 0];
    let r = to_data_uri("image/png", &transparent);
    assert(transparent@ =~= seq![0u8, 0u8, 0u8, 0u8]);
    r
}

/// PNG data URI of an image, scaled down first when a side exceeds 2048
/// pixels. When PNG encoding fails, the URI of four zero bytes stands in, so
/// that the request still goes out.
pub fn encode_resized_data_uri(img: &DynamicImage) -> (r: String)
    ensures
        r@ == resized_png_uri(image_contents(*img)),
{
    let w = image_width(img);
    let h = image_height(img);
    if w > 2048 || h > 2048 {
        let small = image_thumbnail(img, 2048, 2048);
        png_data_uri(&small)
    } else {
        png_data_uri(img)
    }
}

/// Error for an extension that names no image format.
pub open spec fn unknown_format_message() -> Seq<char> {
    "The image format could not be determined"@
}

/// Reads an image file's bytes (in the format its extension names) and
/// returns its PNG data URI, scaled down when huge.
pub fn image_data_uri(bytes: &[u8], ext: &str) -> (r: Result<String, String>)
    ensures
        !is_image_extension(ext@) ==> (r matches Err(e) && e@ == unknown_format_message()),
        is_image_extension(ext@) ==> match decoded_with_extension(bytes@, ext@) {
            Ok(c) => r matches Ok(uri) && uri@ == resized_png_uri(c),
            Err(m) => r matches Err(e) && e@ == m,
        },
{
    if !names_image_format(ext) {
        return Err("The image format could not be determined".to_owned());
    }
    match load_with_extension(bytes, ext) {
        Ok(img) => Ok(encode_resized_data_uri(&img)),
        Err(e) => Err(e),
    }
}

/// One colour channel of a CMYK sample in RGB: `255 * (1 - c/255) * (1 - k/255)`
/// rounded to the nearest integer (the exact value is never halfway between
/// two integers, so the rounding direction of ties does not arise).
pub open spec fn cmyk_channel(c: u8, k: u8) -> u8 {
    ((2 * ((255 - c) * (255 - k)) + 255) / 510) as u8
}

/// The RGBA pixel of one sample of `ch` channels (gray, RGB or CMYK).
pub open spec fn rgba_of(px: Seq<u8>, ch: nat) -> Seq<u8> {
    if ch == 1 {
        seq![px[0], px[0], px[0], 255u8]
    } else if ch == 3 {
        seq![px[0], px[1], px[2], 255u8]
    } else {
        seq![cmyk_channel(px[0], px[3]), cmyk_channel(px[1], px[3]), cmyk_channel(px[2], px[3]), 255u8]
    }
}

/// The RGBA bytes of the samples `data[i..]`, `ch` bytes each.
pub open spec fn expand_samples(data: Seq<u8>, ch: nat, i: int) -> Seq<u8>
    decreases data.len() - i,
{
    if ch == 0 || i < 0 || i + ch > data.len() {
        seq![]
    } else {
        rgba_of(data.subrange(i, i + ch), ch) + expand_samples(data, ch, i + ch)
    }
}

fn cmyk(c: u8, k: u8) -> (r: u8)
    ensures
        r == cmyk_channel(c, k),
{
    let a = (255 - c) as u32;
    let b = (255 - k) as u32;
    assert(a * b <= 255 * 255) by (nonlinear_arith)
        requires
            a <= 255,
            b <= 255,
    ;
    let p = a * b;
    ((2 * p + 255) / 510) as u8
}

proof fn lemma_expand_len(data: Seq<u8>, ch: nat, i: int)
    requires
        ch == 1 || ch == 3 || ch == 4,
        0 <= i <= data.len(),
        (data.len() - i) % (ch as int) == 0,
    ensures
        expand_samples(data, ch, i).len() == 4 * ((data.len() - i) / (ch as int)),
    decreases data.len() - i,
{
    if i + ch <= data.len() {
        let n: int = data.len() - i;
        let c: int = ch as int;
        assert((n - c) % c == 0 && n / c == (n - c) / c + 1) by {
            vstd::arithmetic::div_mod::lemma_mod_sub_multiples_vanish(n, c);
            vstd::arithmetic::div_mod::lemma_div_plus_one(n - c, c);
        }
        lemma_expand_len(data, ch, i + ch);
    } else {
        assert((data.len() - i) / (ch as int) == 0) by (nonlinear_arith)
            requires
                (data.len() - i) % (ch as int) == 0,
                ch > 0,
                i + ch > data.len(),
                i <= data.len(),
        ;
    }
}

/// RGBA bytes of the first `n` bytes of 8-bit samples with 1, 3 or 4
/// channels.
fn expand_to_rgba(data: &[u8], n: usize, ch: usize) -> (r: Vec<u8>)
    requires
        ch == 1 || ch == 3 || ch == 4,
        n <= data@.len(),
        (n as int) % (ch as int) == 0,
    ensures
        r@ == expand_samples(data@.subrange(0, n as int), ch as nat, 0),
{
    let ghost d = data@.subrange(0, n as int);
    let mut out: Vec<u8> = Vec::new();
    let mut i: usize = 0;
    while i < n
        invariant
            ch == 1 || ch == 3 || ch == 4,
            n <= data@.len(),
            d == data@.subrange(0, n as int),
            i <= n,
            i as int % ch as int == 0,
            (n as int) % (ch as int) == 0,
            out@ + expand_samples(d, ch as nat, i as int) == expand_samples(d, ch as nat, 0),
        decreases n - i,
    {
        assert(i + ch <= n) by (nonlinear_arith)
            requires
                i < n,
                i as int % ch as int == 0,
                (n as int) % (ch as int) == 0,
                ch > 0,
        ;
        let ghost before = out@;
        if ch == 1 {
            let g = data[i];
            out.push(g);
            out.push(g);
            out.push(g);
            out.push(255);
        } else if ch == 3 {
            out.push(data[i]);
            out.push(data[i + 1]);
            out.push(data[i + 2]);
            out.push(255);
        } else {
            let k = data[i + 3];
            out.push(cmyk(data[i], k));
            out.push(cmyk(data[i + 1], k));
            out.push(cmyk(data[i + 2], k));
            out.push(255);
        }
        proof {
            let px = d.subrange(i as int, i + ch);
            assert(px =~= data@.subrange(i as int, i + ch));
            assert(out@ =~= before + rgba_of(px, ch as nat));
            assert((i + ch) as int % ch as int == 0) by (nonlinear_arith)
                requires
                    i as int % ch as int == 0,
                    ch > 0,
            ;
        }
        i += ch;
    }
    assert(out@ =~= expand_samples(d, ch as nat, 0));
    out
}

/// The RGBA bytes of a `width` x `height` image of `ch`-channel samples
/// `data`: those of its first `width * height` pixels.
pub open spec fn image_rgba(width: u32, height: u32, data: Seq<u8>, ch: nat) -> Seq<u8> {
    expand_samples(data.subrange(0, width * height * ch), ch, 0)
}

/// Converts 8-bit samples of `channels` channels per pixel (1 gray, 3 RGB,
/// 4 CMYK) to a PNG data URI. Samples past the `width * height` pixels are
/// not part of the image and are left out.
pub fn encode_rgba_png(width: u32, height: u32, data: &[u8], channels: usize) -> (r: Result<String, String>)
    requires
        channels > 0,
        width * height * channels <= usize::MAX,
    ensures
        data@.len() < width * height * channels ==> (r matches Err(e) && e@ == "datos insuficientes: "@
            + decimal(data@.len()) + " < "@ + decimal((width * height * channels) as nat)),
        data@.len() >= width * height * channels && channels != 1 && channels != 3 && channels != 4
            && data@.len() > 0 ==> (r matches Err(e) && e@ == "canales inesperados"@),
        data@.len() >= width * height * channels && (channels == 1 || channels == 3 || channels == 4
            || data@.len() == 0) ==> {
            &&& width > 0 && height > 0 ==> (r matches Ok(uri) && uri@ == spec_data_uri(
                "image/png"@,
                png_rgba(width, height, image_rgba(width, height, data@, channels as nat)),
            ))
            &&& (width == 0 || height == 0) ==> r is Err
        },
{
    assert((width as int) * (height as int) <= width * height * channels) by (nonlinear_arith)
        requires
            channels > 0,
    ;
    let expected = (width as usize) * (height as usize) * channels;
    if data.len() < expected {
        let mut e = "datos insuficientes: ".to_owned();
        push_decimal(&mut e, data.len() as u64);
        e.append(" < ");
        push_decimal(&mut e, expected as u64);
        return Err(e);
    }
    let rgba = if channels == 1 || channels == 3 || channels == 4 {
        assert((expected as int) % (channels as int) == 0) by (nonlinear_arith)
            requires
                expected == width * height * channels,
                channels > 0,
        ;
        let rgba = expand_to_rgba(data, expected, channels);
        proof {
            lemma_expand_len(data@.subrange(0, expected as int), channels as nat, 0);
            assert(rgba@.len() == 4 * width * height) by (nonlinear_arith)
                requires
                    rgba@.len() == 4 * ((expected as int) / (channels as int)),
                    expected == width * height * channels,
                    channels > 0,
            ;
        }
        rgba
    } else {
        if data.len() > 0 {
            return Err("canales inesperados".to_owned());
        }
        assert(4 * width * height == 0) by (nonlinear_arith)
            requires
                0 >= width * height * channels,
                channels > 0,
        ;
        assert(expand_samples(data@.subrange(0, expected as int), channels as nat, 0) =~= seq![]);
        Vec::new()
    };
    match png_rgba8(width, height, rgba.as_slice()) {
        Ok(bytes) => Ok(to_data_uri("image/png", bytes.as_slice())),
        Err(e) => Err(e),
    }
}

/// What the standard base64 engine decodes `text` to; `None` when it is not
/// base64 that the engine accepts.
pub uninterp spec fn base64_standard_decoded(text: Seq<char>) -> Option<Seq<u8>>;

/// `base64::engine::general_purpose::STANDARD.decode`: trusted to depend on
/// the text alone.
#[verifier::external_body]
fn base64_decode(text: &str) -> (r: Option<Vec<u8>>)
    ensures
        match r {
            Some(v) => base64_standard_decoded(text@) == Some(v@),
            None => base64_standard_decoded(text@) is None,
        },
{
    base64::engine::general_purpose::STANDARD.decode(text).ok()
}

/// Index of the first comma of `s` at or after `i`.
pub open spec fn first_comma(s: Seq<char>, i: int) -> Option<int>
    decreases s.len() - i,
{
    if i < 0 || i >= s.len() {
        None
    } else if s[i] == ',' {
        Some(i)
    } else {
        first_comma(s, i + 1)
    }
}

/// The bytes a data URI carries: the base64 text after its first comma,
/// decoded.
pub open spec fn uri_payload(uri: Seq<char>) -> Option<Seq<u8>> {
    match first_comma(uri, 0) {
        Some(k) => base64_standard_decoded(uri.subrange(k + 1, uri.len() as int)),
        None => None,
    }
}

/// The bytes of a base64 data URI.
pub fn data_uri_bytes(uri: &str) -> (r: Option<Vec<u8>>)
    ensures
        match r {
            Some(v) => uri_payload(uri@) == Some(v@),
            None => uri_payload(uri@) is None,
        },
{
    let v = chars_of(uri);
    let mut i: usize = 0;
    while i < v.len()
        invariant
            i <= v@.len(),
            v@ == uri@,
            first_comma(v@, 0) == first_comma(v@, i as int),
        ensures
            i <= v@.len(),
            v@ == uri@,
            first_comma(v@, 0) == first_comma(v@, i as int),
            i < v@.len() ==> v@[i as int] == ',',
        decreases v@.len() - i,
    {
        if v[i] == ',' {
            break;
        }
        i += 1;
    }
    if i == v.len() {
        assert(first_comma(v@, i as int) is None);
        return None;
    }
    assert(first_comma(v@, i as int) == Some(i as int));
    let rest = string_from_range(&v, i + 1, v.len());
    base64_decode(rest.as_str())
}

/// The size and the RGBA pixels of an image.
pub struct Pixels {
    pub width: u32,
    pub height: u32,
    pub rgba: Vec<u8>,
}

/// The size and the 8-bit RGBA samples of an image.
fn pixels_of(img: &DynamicImage) -> (r: Pixels)
    ensures
        r.width == image_contents(*img).0,
        r.height == image_contents(*img).1,
        r.rgba@ == rgba8_samples(image_contents(*img)),
{
    Pixels { width: image_width(img), height: image_height(img), rgba: image_rgba8(img) }
}

/// The pixels of the image in a data URI, scaled down to fit 800 x 800 for
/// a preview; `None` when the URI does not hold an image that decodes.
pub fn decode_data_uri(uri: &str) -> (r: Option<Pixels>)
    ensures
        match uri_payload(uri@) {
            None => r is None,
            Some(bytes) => match decoded_guessing_format(bytes) {
                Err(_) => r is None,
                Ok(c) => r matches Some(px) && px.width == fitted(c, 800).0 && px.height == fitted(
                    c,
                    800,
                ).1 && px.rgba@ == rgba8_samples(fitted(c, 800)),
            },
        },
{
    let bytes = match data_uri_bytes(uri) {
        Some(b) => b,
        None => {
            return None;
        },
    };
    let img = match load_image(bytes.as_slice()) {
        Ok(img) => img,
        Err(_) => {
            return None;
        },
    };
    let w = image_width(&img);
    let h = image_height(&img);
    if w > 800 || h > 800 {
        let small = image_thumbnail(&img, 800, 800);
        Some(pixels_of(&small))
    } else {
        Some(pixels_of(&img))
    }
}

} // verus!
