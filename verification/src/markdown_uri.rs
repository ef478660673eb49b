//! Where the images of a note are loaded from.

use vstd::prelude::*;
use vstd::utf8::encode_utf8;
use crate::text::{
    chars_eq, chars_of, is_ws, lemma_trim_end_prefix, lemma_trim_idempotent, lemma_trim_unchanged, string_from_chars,
    to_ascii_lower, to_ascii_lower_chars, trim, trim_chars, trim_start,
};

verus! {

/// Whether `s` starts with `prefix` without regard to ASCII case.
pub open spec fn has_prefix_ignore_case(s: Seq<char>, prefix: Seq<char>) -> bool {
    s.len() >= prefix.len() && to_ascii_lower(s.take(prefix.len() as int)) == to_ascii_lower(prefix)
}

/// Whether `v` starts with `prefix` without regard to ASCII case.
fn starts_with_ignore_case(v: &Vec<char>, prefix: &str) -> (r: bool)
    ensures
        r == has_prefix_ignore_case(v@, prefix@),
{
    let p = chars_of(prefix);
    if v.len() < p.len() {
        return false;
    }
    let head = crate::text::copy_range(v, 0, p.len());
    assert(v@.subrange(0, p@.len() as int) =~= v@.take(p@.len() as int));
    chars_eq(&to_ascii_lower_chars(&head), &to_ascii_lower_chars(&p))
}

/// Whether an image address uses a scheme the image loader fetches:
/// `file://`, `http://` or `https://`, without regard to ASCII case.
pub fn is_supported_markdown_image_uri(uri: &str) -> (r: bool)
    ensures
        r == (has_prefix_ignore_case(uri@, "file://"@) || has_prefix_ignore_case(uri@, "http://"@)
            || has_prefix_ignore_case(uri@, "https://"@)),
{
    let v = chars_of(uri);
    starts_with_ignore_case(&v, "file://") || starts_with_ignore_case(&v, "http://") || starts_with_ignore_case(
        &v,
        "https://",
    )
}

/// Whether an image destination names its scheme.
pub open spec fn has_uri_scheme(d: Seq<char>) -> bool {
    ||| has_prefix_ignore_case(d, "data:"@)
    ||| has_prefix_ignore_case(d, "file:"@)
    ||| has_prefix_ignore_case(d, "http:"@)
    ||| has_prefix_ignore_case(d, "https:"@)
    ||| has_prefix_ignore_case(d, "bytes:"@)
}

/// The address an image destination is loaded from: the trimmed
/// destination when it names a scheme (`data:`, `file:`, `http:`,
/// `https:` or `bytes:`, without regard to ASCII case), otherwise a `file://`
/// address of it.
pub open spec fn image_uri_v(d: Seq<char>) -> Seq<char> {
    if has_uri_scheme(trim(d)) {
        trim(d)
    } else {
        "file://"@ + trim(d)
    }
}

/// The address an image destination is loaded from (see [`image_uri_v`]).
pub fn markdown_image_uri(destination: &str) -> (r: String)
    ensures
        r@ == image_uri_v(destination@),
{
    let d = trim_chars(&chars_of(destination));
    let has_scheme = starts_with_ignore_case(&d, "data:") || starts_with_ignore_case(&d, "file:")
        || starts_with_ignore_case(&d, "http:") || starts_with_ignore_case(&d, "https:")
        || starts_with_ignore_case(&d, "bytes:");
    if has_scheme {
        string_from_chars(&d)
    } else {
        let mut s = String::from_str("file://");
        crate::text::push_chars(&mut s, &d);
        s
    }
}

/// An address is loaded from itself: normalizing what
/// `markdown_image_uri` gives changes nothing.
pub proof fn law_image_uri_idempotent(d: Seq<char>)
    ensures
        image_uri_v(image_uri_v(d)) == image_uri_v(d),
{
    let t = trim(d);
    lemma_trim_idempotent(d);
    if !has_uri_scheme(t) {
        reveal_strlit("file://");
        reveal_strlit("file:");
        let x = "file://"@ + t;
        assert(x[0] == 'f');
        if t.len() > 0 {
            assert(!is_ws(t.last())) by {
                lemma_trim_end_prefix(trim_start(d));
            }
            assert(x.last() == t.last());
        }
        lemma_trim_unchanged(x);
        assert(x.take(5) =~= "file:"@);
        assert(has_prefix_ignore_case(x, "file:"@));
    }
}

/// What `urlencoding::decode` gives for `s`: the percent-decoded text, or
/// none when the decoded bytes are not UTF-8.
pub uninterp spec fn percent_decoded(s: Seq<char>) -> Option<Seq<char>>;

/// Whether `s` holds no `%`, so that there is nothing to decode.
pub open spec fn without_escapes(s: Seq<char>) -> bool {
    !s.contains('%')
}

/// `urlencoding::decode`: its result is named by [`percent_decoded`]; as its
/// source shows, text without `%` is given back unchanged.
#[verifier::external_body]
fn url_decode(s: &str) -> (r: Option<String>)
    ensures
        r is Some <==> percent_decoded(s@) is Some,
        r matches Some(t) ==> percent_decoded(s@) == Some(t@),
        without_escapes(s@) ==> r is Some,
        r matches Some(t) ==> (without_escapes(s@) ==> t@ == s@),
{
    match urlencoding::decode(s) {
        Ok(t) => Some(t.into_owned()),
        Err(_) => None,
    }
}

/// Whether `b` bytes into the UTF-8 encoding of `s` a character starts (or
/// the text ends).
pub open spec fn byte_boundary(s: Seq<char>, b: nat) -> bool {
    exists|k: int| 0 <= k <= s.len() && #[trigger] encode_utf8(s.take(k)).len() == b
}

/// The file an image address names: without a `file://` prefix (in any
/// ASCII case), percent-decoded when that succeeds, and without the slash
/// before a Windows drive letter (`/C:/...`).
pub open spec fn file_path_v(uri: Seq<char>) -> Seq<char> {
    let p = if has_prefix_ignore_case(uri, "file://"@) { uri.skip(7) } else { uri };
    let d = match percent_decoded(p) {
        Some(t) => t,
        None => p,
    };
    if d.len() >= 3 && d[0] == '/' && (d[1] as u32) < 0x80 && d[2] == ':' {
        d.skip(1)
    } else {
        d
    }
}

/// The file an image address names (see [`file_path_v`]). The address must
/// not cut a character at its seventh byte.
pub fn markdown_file_path(uri: &str) -> (r: String)
    requires
        encode_utf8(uri@).len() >= 7 ==> byte_boundary(uri@, 7),
    ensures
        r@ == file_path_v(uri@),
{
    let v = chars_of(uri);
    let p = if starts_with_ignore_case(&v, "file://") {
        proof {
            reveal_strlit("file://");
        }
        crate::text::copy_range(&v, 7, v.len())
    } else {
        v
    };
    let ps = string_from_chars(&p);
    let d = match url_decode(ps.as_str()) {
        Some(t) => chars_of(t.as_str()),
        None => p,
    };
    if d.len() >= 3 && d[0] == '/' && (d[1] as u32) < 0x80 && d[2] == ':' {
        let r = crate::text::copy_range(&d, 1, d.len());
        assert(r@ =~= d@.skip(1));
        string_from_chars(&r)
    } else {
        string_from_chars(&d)
    }
}

/// Largest image, as a file or a download, that is loaded: 20 MB.
pub const MAX_MARKDOWN_IMAGE_BYTES: u64 = 20971520;

/// Largest decoded image kept: 64 MB of pixels.
pub const MAX_MARKDOWN_IMAGE_CACHE_BYTES: usize = 67108864;

/// Whether an image address is fetched over HTTP: it starts with `http://`
/// or `https://`, without regard to ASCII case; other addresses are files.
pub fn is_remote_image_uri(uri: &str) -> (r: bool)
    ensures
        r == (has_prefix_ignore_case(uri@, "http://"@) || has_prefix_ignore_case(uri@, "https://"@)),
{
    let v = chars_of(uri);
    starts_with_ignore_case(&v, "http://") || starts_with_ignore_case(&v, "https://")
}

/// Checks, while an image is read, that `incoming` more bytes after
/// `current` bytes keep it within [`MAX_MARKDOWN_IMAGE_BYTES`]; the declared
/// size of a download or a file is checked with `current` zero.
pub fn check_image_bytes(current: u64, incoming: u64) -> (r: Result<(), String>)
    ensures
        r is Ok <==> current + incoming <= MAX_MARKDOWN_IMAGE_BYTES,
        r matches Err(m) ==> m@ == "图片大小超过 20 MB 限制"@,
{
    let total = current.saturating_add(incoming);
    if total > MAX_MARKDOWN_IMAGE_BYTES {
        Err(String::from_str("图片大小超过 20 MB 限制"))
    } else {
        Ok(())
    }
}

/// The size in bytes of a decoded image of `width` by `height` pixels of
/// four bytes each (RGBA), refused when it cannot be represented or exceeds
/// [`MAX_MARKDOWN_IMAGE_CACHE_BYTES`].
pub fn decoded_image_size(width: usize, height: usize) -> (r: Result<usize, String>)
    ensures
        width * height * 4 > usize::MAX ==> (r matches Err(m) && m@ == "图片解码后的尺寸超出支持范围"@),
        width * height * 4 <= usize::MAX && width * height * 4 > MAX_MARKDOWN_IMAGE_CACHE_BYTES ==> (r matches Err(m)
            && m@ == "图片解码后的尺寸超过 64 MB 限制"@),
        width * height * 4 <= MAX_MARKDOWN_IMAGE_CACHE_BYTES ==> r == Ok::<usize, String>((width * height * 4) as usize),
{
    let pixels = match width.checked_mul(height) {
        Some(p) => p,
        None => {
            assert(width * height * 4 > usize::MAX) by (nonlinear_arith)
                requires
                    width * height > usize::MAX,
            ;
            return Err(String::from_str("图片解码后的尺寸超出支持范围"));
        },
    };
    let size = match pixels.checked_mul(4) {
        Some(s) => s,
        None => return Err(String::from_str("图片解码后的尺寸超出支持范围")),
    };
    if size > MAX_MARKDOWN_IMAGE_CACHE_BYTES {
        Err(String::from_str("图片解码后的尺寸超过 64 MB 限制"))
    } else {
        Ok(size)
    }
}

} // verus!
