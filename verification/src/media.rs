use vstd::prelude::*;
use vstd::string::*;

use crate::search::{ascii_lower_char, ascii_lower_text, ascii_upper_text, is_ascii_text, lowercase_spec, to_lowercase};
use crate::strings::{occurs_at, contains_spec, starts_with_spec, str_contains, str_eq, str_starts_with};

verus! {

broadcast use vstd::string::group_string_axioms;

/// The MIME type for a lower-case file extension.
pub open spec fn mime_for_lower_extension(ext: Seq<char>) -> Seq<char> {
    if ext == "png"@ { "image/png"@ }
    else if ext == "jpg"@ || ext == "jpeg"@ { "image/jpeg"@ }
    else if ext == "gif"@ { "image/gif"@ }
    else if ext == "webp"@ { "image/webp"@ }
    else if ext == "svg"@ { "image/svg+xml"@ }
    else if ext == "otf"@ { "font/otf"@ }
    else if ext == "ttf"@ { "font/ttf"@ }
    else if ext == "woff"@ { "font/woff"@ }
    else if ext == "woff2"@ { "font/woff2"@ }
    else if ext == "mp3"@ { "audio/mpeg"@ }
    else if ext == "ogg"@ { "audio/ogg"@ }
    else if ext == "wav"@ { "audio/wav"@ }
    else if ext == "mp4"@ { "video/mp4"@ }
    else if ext == "webm"@ { "video/webm"@ }
    else if ext == "css"@ { "text/css"@ }
    else if ext == "js"@ { "application/javascript"@ }
    else { "application/octet-stream"@ }
}

/// The MIME type of a file with extension `ext`, compared in lower case.
pub fn mime_for_extension(ext: &str) -> (r: &'static str)
    ensures
        r@ == mime_for_lower_extension(lowercase_spec(ext@)),
        is_ascii_text(ext@) ==> r@ == mime_for_lower_extension(ascii_lower_text(ext@)),
{
    let lower = to_lowercase(ext);
    let e = lower.as_str();
    if str_eq(e, "png") { "image/png" }
    else if str_eq(e, "jpg") || str_eq(e, "jpeg") { "image/jpeg" }
    else if str_eq(e, "gif") { "image/gif" }
    else if str_eq(e, "webp") { "image/webp" }
    else if str_eq(e, "svg") { "image/svg+xml" }
    else if str_eq(e, "otf") { "font/otf" }
    else if str_eq(e, "ttf") { "font/ttf" }
    else if str_eq(e, "woff") { "font/woff" }
    else if str_eq(e, "woff2") { "font/woff2" }
    else if str_eq(e, "mp3") { "audio/mpeg" }
    else if str_eq(e, "ogg") { "audio/ogg" }
    else if str_eq(e, "wav") { "audio/wav" }
    else if str_eq(e, "mp4") { "video/mp4" }
    else if str_eq(e, "webm") { "video/webm" }
    else if str_eq(e, "css") { "text/css" }
    else if str_eq(e, "js") { "application/javascript" }
    else { "application/octet-stream" }
}

/// The symbolic icon for a resource of media type `m`.
pub open spec fn icon_spec(m: Seq<char>) -> Seq<char> {
    if contains_spec(m, "xhtml"@) || contains_spec(m, "html"@) { "text-x-generic-symbolic"@ }
    else if contains_spec(m, "css"@) { "text-x-script-symbolic"@ }
    else if starts_with_spec(m, "image/"@) { "image-x-generic-symbolic"@ }
    else if starts_with_spec(m, "font/"@) || contains_spec(m, "opentype"@) || contains_spec(m, "truetype"@) { "font-x-generic-symbolic"@ }
    else if starts_with_spec(m, "audio/"@) { "audio-x-generic-symbolic"@ }
    else if starts_with_spec(m, "video/"@) { "video-x-generic-symbolic"@ }
    else { "text-x-generic-symbolic"@ }
}

/// The symbolic icon name for a resource of media type `media_type`.
pub fn icon_for_media_type(media_type: &str) -> (r: &'static str)
    ensures
        r@ == icon_spec(media_type@),
{
    if str_contains(media_type, "xhtml") || str_contains(media_type, "html") {
        "text-x-generic-symbolic"
    } else if str_contains(media_type, "css") {
        "text-x-script-symbolic"
    } else if str_starts_with(media_type, "image/") {
        "image-x-generic-symbolic"
    } else if str_starts_with(media_type, "font/") || str_contains(media_type, "opentype")
        || str_contains(media_type, "truetype") {
        "font-x-generic-symbolic"
    } else if str_starts_with(media_type, "audio/") {
        "audio-x-generic-symbolic"
    } else if str_starts_with(media_type, "video/") {
        "video-x-generic-symbolic"
    } else {
        "text-x-generic-symbolic"
    }
}

/// The media type is that of a binary resource: image, font, audio or video.
pub open spec fn is_binary_spec(m: Seq<char>) -> bool {
    starts_with_spec(m, "image/"@) || starts_with_spec(m, "font/"@) || starts_with_spec(m, "audio/"@)
        || starts_with_spec(m, "video/"@)
}

/// Whether a resource of media type `media_type` is binary, and so never
/// written back from the editor.
pub fn is_binary_media_type(media_type: &str) -> (r: bool)
    ensures
        r == is_binary_spec(media_type@),
{
    str_starts_with(media_type, "image/") || str_starts_with(media_type, "font/")
        || str_starts_with(media_type, "audio/") || str_starts_with(media_type, "video/")
}

/// Whether a resource of media type `media_type` is an (X)HTML document.
pub fn is_html_media_type(media_type: &str) -> (r: bool)
    ensures
        r == (contains_spec(media_type@, "html"@) || contains_spec(media_type@, "xhtml"@)),
{
    str_contains(media_type, "html") || str_contains(media_type, "xhtml")
}

/// The syntax-highlighting language for a text resource of media type `m`.
pub open spec fn source_language_spec(m: Seq<char>) -> Seq<char> {
    if contains_spec(m, "html"@) || contains_spec(m, "xhtml"@) { "html"@ }
    else if contains_spec(m, "css"@) { "css"@ }
    else if contains_spec(m, "xml"@) { "xml"@ }
    else { "txt"@ }
}

/// The syntax-highlighting language id for a text resource of media type
/// `media_type`.
pub fn source_language_for_media_type(media_type: &str) -> (r: &'static str)
    ensures
        r@ == source_language_spec(media_type@),
{
    if str_contains(media_type, "html") || str_contains(media_type, "xhtml") {
        "html"
    } else if str_contains(media_type, "css") {
        "css"
    } else if str_contains(media_type, "xml") {
        "xml"
    } else {
        "txt"
    }
}

/// The icon of a resource by the kind its media type names: image, font,
/// audio, video, stylesheet, or any other text.
pub open spec fn icon_by_kind(m: Seq<char>) -> Seq<char> {
    if starts_with_spec(m, "image/"@) { "image-x-generic-symbolic"@ }
    else if starts_with_spec(m, "font/"@) { "font-x-generic-symbolic"@ }
    else if starts_with_spec(m, "audio/"@) { "audio-x-generic-symbolic"@ }
    else if starts_with_spec(m, "video/"@) { "video-x-generic-symbolic"@ }
    else if m == "text/css"@ { "text-x-script-symbolic"@ }
    else { "text-x-generic-symbolic"@ }
}

/// `p` stands in `s` at `off`, checked from the character `i` of `p` on.
spec fn eq_at(s: Seq<char>, p: Seq<char>, off: int, i: int) -> bool
    decreases p.len() - i,
{
    if i < 0 || i >= p.len() {
        off + p.len() <= s.len()
    } else if off + i < 0 || off + i >= s.len() {
        false
    } else {
        s[off + i] == p[i] && eq_at(s, p, off, i + 1)
    }
}

/// `p` stands in `s` at `i` or further on.
spec fn occurs_from(s: Seq<char>, p: Seq<char>, i: int) -> bool
    decreases s.len() + 1 - i,
{
    if i < 0 || i > s.len() { false } else { eq_at(s, p, i, 0) || occurs_from(s, p, i + 1) }
}

proof fn lemma_eq_at(s: Seq<char>, p: Seq<char>, off: int, i: int)
    requires
        0 <= off,
        0 <= i <= p.len(),
    ensures
        eq_at(s, p, off, i) <==> (off + p.len() <= s.len() && forall|k: int| i <= k < p.len() ==> s[off + k] == p[k]),
    decreases p.len() - i,
{
    if i < p.len() {
        lemma_eq_at(s, p, off, i + 1);
    }
}

proof fn lemma_occurs_at(s: Seq<char>, p: Seq<char>, off: int)
    requires
        0 <= off,
    ensures
        occurs_at(s, p, off) <==> eq_at(s, p, off, 0),
{
    lemma_eq_at(s, p, off, 0);
    if eq_at(s, p, off, 0) {
        assert(s.subrange(off, off + p.len()) =~= p);
    }
    if occurs_at(s, p, off) {
        assert forall|k: int| 0 <= k < p.len() implies s[off + k] == p[k] by {
            assert(s.subrange(off, off + p.len())[k] == s[off + k]);
        }
    }
}

proof fn lemma_occurs_from(s: Seq<char>, p: Seq<char>, i: int)
    requires
        0 <= i,
    ensures
        occurs_from(s, p, i) <==> exists|k: int| i <= k && #[trigger] occurs_at(s, p, k),
    decreases s.len() + 1 - i,
{
    if i <= s.len() {
        lemma_occurs_from(s, p, i + 1);
        lemma_occurs_at(s, p, i);
        if exists|k: int| i <= k && #[trigger] occurs_at(s, p, k) {
            let k = choose|k: int| i <= k && #[trigger] occurs_at(s, p, k);
            if k > i {
                assert(i + 1 <= k && occurs_at(s, p, k));
            }
        }
    } else {
        if exists|k: int| i <= k && #[trigger] occurs_at(s, p, k) {
            let k = choose|k: int| i <= k && #[trigger] occurs_at(s, p, k);
            assert(k + p.len() <= s.len());
        }
    }
}

proof fn lemma_contains_by_scan(s: Seq<char>, p: Seq<char>)
    ensures
        contains_spec(s, p) == occurs_from(s, p, 0),
{
    lemma_occurs_from(s, p, 0);
    if contains_spec(s, p) {
        let k = choose|k: int| occurs_at(s, p, k);
        assert(0 <= k && occurs_at(s, p, k));
    }
}

proof fn lemma_starts_by_scan(s: Seq<char>, p: Seq<char>)
    ensures
        starts_with_spec(s, p) == eq_at(s, p, 0, 0),
{
    lemma_occurs_at(s, p, 0);
}

proof fn lemma_equal_by_scan(s: Seq<char>, p: Seq<char>)
    ensures
        (s == p) == (s.len() == p.len() && eq_at(s, p, 0, 0)),
{
    lemma_eq_at(s, p, 0, 0);
    if s.len() == p.len() && eq_at(s, p, 0, 0) {
        assert(s =~= p);
    }
}

/// Both icons of a media type, written as scans of its characters.
proof fn lemma_icons_by_scan(m: Seq<char>)
    ensures
        icon_spec(m) == (
            if occurs_from(m, "xhtml"@, 0) || occurs_from(m, "html"@, 0) { "text-x-generic-symbolic"@ }
            else if occurs_from(m, "css"@, 0) { "text-x-script-symbolic"@ }
            else if eq_at(m, "image/"@, 0, 0) { "image-x-generic-symbolic"@ }
            else if eq_at(m, "font/"@, 0, 0) || occurs_from(m, "opentype"@, 0) || occurs_from(m, "truetype"@, 0) { "font-x-generic-symbolic"@ }
            else if eq_at(m, "audio/"@, 0, 0) { "audio-x-generic-symbolic"@ }
            else if eq_at(m, "video/"@, 0, 0) { "video-x-generic-symbolic"@ }
            else { "text-x-generic-symbolic"@ }),
        icon_by_kind(m) == (
            if eq_at(m, "image/"@, 0, 0) { "image-x-generic-symbolic"@ }
            else if eq_at(m, "font/"@, 0, 0) { "font-x-generic-symbolic"@ }
            else if eq_at(m, "audio/"@, 0, 0) { "audio-x-generic-symbolic"@ }
            else if eq_at(m, "video/"@, 0, 0) { "video-x-generic-symbolic"@ }
            else if m.len() == "text/css"@.len() && eq_at(m, "text/css"@, 0, 0) { "text-x-script-symbolic"@ }
            else { "text-x-generic-symbolic"@ }),
{
    lemma_contains_by_scan(m, "xhtml"@);
    lemma_contains_by_scan(m, "html"@);
    lemma_contains_by_scan(m, "css"@);
    lemma_contains_by_scan(m, "opentype"@);
    lemma_contains_by_scan(m, "truetype"@);
    lemma_starts_by_scan(m, "image/"@);
    lemma_starts_by_scan(m, "font/"@);
    lemma_starts_by_scan(m, "audio/"@);
    lemma_starts_by_scan(m, "video/"@);
    lemma_equal_by_scan(m, "text/css"@);
}

/// The icon of the MIME type of any file extension goes by the kind that the
/// type names: an image, font, audio or video icon for those kinds, the
/// script icon for a stylesheet, the text icon for anything else.
#[verifier::rlimit(50)]
#[verifier::spinoff_prover]
pub proof fn lemma_icon_of_extension(ext: Seq<char>)
    ensures
        icon_spec(mime_for_lower_extension(ext)) == icon_by_kind(mime_for_lower_extension(ext)),
{
    let m = mime_for_lower_extension(ext);
    lemma_icons_by_scan(m);
    reveal_strlit("xhtml");
    reveal_strlit("html");
    reveal_strlit("css");
    reveal_strlit("opentype");
    reveal_strlit("truetype");
    reveal_strlit("image/");
    reveal_strlit("font/");
    reveal_strlit("audio/");
    reveal_strlit("video/");
    reveal_strlit("text/css");
    reveal_with_fuel(occurs_from, 26);
    reveal_with_fuel(eq_at, 10);
    if m == "image/png"@ {
        reveal_strlit("image/png");
        assert(icon_spec("image/png"@) == icon_by_kind("image/png"@));
    }
    if m == "image/jpeg"@ {
        reveal_strlit("image/jpeg");
        assert(icon_spec("image/jpeg"@) == icon_by_kind("image/jpeg"@));
    }
    if m == "image/gif"@ {
        reveal_strlit("image/gif");
        assert(icon_spec("image/gif"@) == icon_by_kind("image/gif"@));
    }
    if m == "image/webp"@ {
        reveal_strlit("image/webp");
        assert(icon_spec("image/webp"@) == icon_by_kind("image/webp"@));
    }
    if m == "image/svg+xml"@ {
        reveal_strlit("image/svg+xml");
        assert(icon_spec("image/svg+xml"@) == icon_by_kind("image/svg+xml"@));
    }
    if m == "font/otf"@ {
        reveal_strlit("font/otf");
        assert(icon_spec("font/otf"@) == icon_by_kind("font/otf"@));
    }
    if m == "font/ttf"@ {
        reveal_strlit("font/ttf");
        assert(icon_spec("font/ttf"@) == icon_by_kind("font/ttf"@));
    }
    if m == "font/woff"@ {
        reveal_strlit("font/woff");
        assert(icon_spec("font/woff"@) == icon_by_kind("font/woff"@));
    }
    if m == "font/woff2"@ {
        reveal_strlit("font/woff2");
        assert(icon_spec("font/woff2"@) == icon_by_kind("font/woff2"@));
    }
    if m == "audio/mpeg"@ {
        reveal_strlit("audio/mpeg");
        assert(icon_spec("audio/mpeg"@) == icon_by_kind("audio/mpeg"@));
    }
    if m == "audio/ogg"@ {
        reveal_strlit("audio/ogg");
        assert(icon_spec("audio/ogg"@) == icon_by_kind("audio/ogg"@));
    }
    if m == "audio/wav"@ {
        reveal_strlit("audio/wav");
        assert(icon_spec("audio/wav"@) == icon_by_kind("audio/wav"@));
    }
    if m == "video/mp4"@ {
        reveal_strlit("video/mp4");
        assert(icon_spec("video/mp4"@) == icon_by_kind("video/mp4"@));
    }
    if m == "video/webm"@ {
        reveal_strlit("video/webm");
        assert(icon_spec("video/webm"@) == icon_by_kind("video/webm"@));
    }
    if m == "text/css"@ {
        reveal_strlit("text/css");
        assert(icon_spec("text/css"@) == icon_by_kind("text/css"@));
    }
    if m == "application/javascript"@ {
        reveal_strlit("application/javascript");
        assert(icon_spec("application/javascript"@) == icon_by_kind("application/javascript"@));
    }
    if m == "application/octet-stream"@ {
        reveal_strlit("application/octet-stream");
        assert(icon_spec("application/octet-stream"@) == icon_by_kind("application/octet-stream"@));
    }
}

/// An ASCII extension gets the same MIME type in any spelling: its ASCII
/// lower and upper case are ASCII too, and both fold to the same lower case,
/// so `mime_for_extension` gives one answer for the three spellings.
pub proof fn lemma_mime_ignores_ascii_case(ext: Seq<char>)
    requires
        is_ascii_text(ext),
    ensures
        is_ascii_text(ascii_lower_text(ext)),
        is_ascii_text(ascii_upper_text(ext)),
        ascii_lower_text(ascii_lower_text(ext)) == ascii_lower_text(ext),
        ascii_lower_text(ascii_upper_text(ext)) == ascii_lower_text(ext),
        mime_for_lower_extension(ascii_lower_text(ascii_lower_text(ext))) == mime_for_lower_extension(ascii_lower_text(ext)),
        mime_for_lower_extension(ascii_lower_text(ascii_upper_text(ext))) == mime_for_lower_extension(ascii_lower_text(ext)),
{
    let lo = ascii_lower_text(ext);
    let up = ascii_upper_text(ext);
    assert forall|i: int| 0 <= i < lo.len() implies (#[trigger] lo[i]) <= '\u{7f}' by {
        assert(ext[i] <= '\u{7f}');
    }
    assert forall|i: int| 0 <= i < up.len() implies (#[trigger] up[i]) <= '\u{7f}' by {
        assert(ext[i] <= '\u{7f}');
    }
    assert(ascii_lower_text(lo) =~= lo);
    assert forall|i: int| 0 <= i < ext.len() implies #[trigger] ascii_lower_text(up)[i] == lo[i] by {
        let c = ext[i];
        assert(up[i] == crate::search::ascii_upper_char(c));
    }
    assert(ascii_lower_text(up) =~= lo);
}

} // verus!
