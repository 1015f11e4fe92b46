//! Media pipeline decisions: display-safe file names, the kind of an upload,
//! where it is stored, and the sequence of ffmpeg runs that compress it
//! (images to WebP with a JPEG fallback and a WebP thumbnail, videos to
//! H.264 MP4 with a WebP poster, audio to AAC, anything else stored as-is).
use vstd::prelude::*;

use crate::error::{bad_request, concat, str_eq, unit_outcome, unsupported_media, AppError, ErrorView};
use crate::ids::{uuid_string, uuid_text};
use crate::text::{
    ascii_alphanumeric, byte_len, chars_of, control, has_prefix, is_ascii_alphanumeric, is_control,
    push_char, starts_with_chars, string_of, take_chars, take_prefix, trim, trim_chars, utf8_len,
};

verus! {

// ---------------------------------------------------------------------------
// File names and kinds
// ---------------------------------------------------------------------------

pub open spec fn is_unsafe_name_char(c: char) -> bool {
    is_control(c) || c == '/' || c == '\\' || c == '"' || c == '\'' || c == ':'
}

pub open spec fn safe_name_char(c: char) -> char {
    if is_unsafe_name_char(c) {
        '_'
    } else {
        c
    }
}

pub open spec fn file_word() -> Seq<char> {
    seq!['f', 'i', 'l', 'e']
}

/// A display name: control characters, path separators, quotes and `:`
/// become `_`, at most 160 characters are kept, and a name that is blank
/// after that becomes `file`.
pub open spec fn sanitize_spec(name: Seq<char>) -> Seq<char> {
    let out = take_chars(name.map_values(|c: char| safe_name_char(c)), 160);
    if trim(out).len() == 0 {
        file_word()
    } else {
        out
    }
}

/// Keeps a file name safe for display only; the real path on disk is
/// always a UUID.
pub fn sanitize_file_name(name: &str) -> (r: String)
    ensures
        r@ == sanitize_spec(name@),
{
    let v = chars_of(name);
    let mut mapped: Vec<char> = Vec::new();
    let mut i: usize = 0;
    while i < v.len() && i < 160
        invariant
            i <= v@.len(),
            i <= 160,
            mapped@ == v@.map_values(|c: char| safe_name_char(c)).take(i as int),
        decreases v@.len() - i,
    {
        let c = v[i];
        let d = if control(c) || c == '/' || c == '\\' || c == '"' || c == '\'' || c == ':' {
            '_'
        } else {
            c
        };
        mapped.push(d);
        assert(v@.map_values(|c: char| safe_name_char(c)).take(i + 1) =~= v@.map_values(
            |c: char| safe_name_char(c),
        ).take(i as int).push(d));
        i = i + 1;
    }
    assert(mapped@ =~= take_chars(v@.map_values(|c: char| safe_name_char(c)), 160));
    let t = trim_chars(mapped.as_slice());
    if t.len() == 0 {
        let f: Vec<char> = vec!['f', 'i', 'l', 'e'];
        assert(f@ =~= file_word());
        return string_of(f.as_slice());
    }
    string_of(mapped.as_slice())
}

pub open spec fn msg_empty_upload() -> Seq<char> {
    "الملف المرفوع فارغ."@
}

/// The display name and MIME type recorded for an uploaded file: an empty
/// file is refused; the name is sanitized and a missing content type
/// becomes `application/octet-stream`.
pub fn accept_upload(file_name: &str, content_type: Option<&str>, size: usize) -> (r: Result<
    (String, String),
    AppError,
>)
    ensures
        size == 0 ==> (r matches Err(e) && e@ == ErrorView::BadRequest(msg_empty_upload())),
        size > 0 ==> (r matches Ok((n, m)) && n@ == sanitize_spec(file_name@) && m@ == match content_type {
            Some(c) => c@,
            None => octet_stream(),
        }),
{
    if size == 0 {
        return Err(bad_request("الملف المرفوع فارغ."));
    }
    let name = sanitize_file_name(file_name);
    let mime = match content_type {
        Some(c) => c.to_owned(),
        None => "application/octet-stream".to_owned(),
    };
    Ok((name, mime))
}

/// The kinds of uploads.
#[derive(Debug, Clone, Copy, PartialEq, Eq, Structural)]
pub enum MediaKind {
    Image,
    Video,
    Audio,
    File,
}

pub open spec fn kind_of_mime(m: Seq<char>) -> MediaKind {
    if has_prefix(m, seq!['i', 'm', 'a', 'g', 'e', '/']) {
        MediaKind::Image
    } else if has_prefix(m, seq!['v', 'i', 'd', 'e', 'o', '/']) {
        MediaKind::Video
    } else if has_prefix(m, seq!['a', 'u', 'd', 'i', 'o', '/']) {
        MediaKind::Audio
    } else {
        MediaKind::File
    }
}

pub open spec fn kind_word(k: MediaKind) -> Seq<char> {
    match k {
        MediaKind::Image => seq!['i', 'm', 'a', 'g', 'e'],
        MediaKind::Video => seq!['v', 'i', 'd', 'e', 'o'],
        MediaKind::Audio => seq!['a', 'u', 'd', 'i', 'o'],
        MediaKind::File => seq!['f', 'i', 'l', 'e'],
    }
}

/// The kind of an upload by its MIME type.
pub fn media_kind(mime: &str) -> (k: MediaKind)
    ensures
        k == kind_of_mime(mime@),
{
    let v = chars_of(mime);
    let image: Vec<char> = vec!['i', 'm', 'a', 'g', 'e', '/'];
    let video: Vec<char> = vec!['v', 'i', 'd', 'e', 'o', '/'];
    let audio: Vec<char> = vec!['a', 'u', 'd', 'i', 'o', '/'];
    assert(image@ =~= seq!['i', 'm', 'a', 'g', 'e', '/']);
    assert(video@ =~= seq!['v', 'i', 'd', 'e', 'o', '/']);
    assert(audio@ =~= seq!['a', 'u', 'd', 'i', 'o', '/']);
    if starts_with_chars(v.as_slice(), image.as_slice()) {
        MediaKind::Image
    } else if starts_with_chars(v.as_slice(), video.as_slice()) {
        MediaKind::Video
    } else if starts_with_chars(v.as_slice(), audio.as_slice()) {
        MediaKind::Audio
    } else {
        MediaKind::File
    }
}

/// `image`, `video`, `audio` or `file`, by the MIME type's prefix.
pub fn file_kind_from_mime(mime: &str) -> (r: &'static str)
    ensures
        r@ == kind_word(kind_of_mime(mime@)),
{
    proof {
        reveal_strlit("image");
        reveal_strlit("video");
        reveal_strlit("audio");
        reveal_strlit("file");
    }
    match media_kind(mime) {
        MediaKind::Image => "image",
        MediaKind::Video => "video",
        MediaKind::Audio => "audio",
        MediaKind::File => "file",
    }
}

pub open spec fn octet_stream() -> Seq<char> {
    "application/octet-stream"@
}

/// The MIME type to record or serve: `application/octet-stream` when empty.
pub fn effective_mime(mime: &str) -> (r: String)
    ensures
        r@ == (if mime@.len() == 0 {
            octet_stream()
        } else {
            mime@
        }),
{
    if mime.is_empty() {
        "application/octet-stream".to_owned()
    } else {
        mime.to_owned()
    }
}

/// What `std::path::Path::extension` returns for a path string.
pub uninterp spec fn path_extension(p: Seq<char>) -> Option<Seq<char>>;

/// Calls `Path::new(name).extension()` and converts it to UTF-8; the result
/// is named by `path_extension`.
#[verifier::external_body]
fn extension_of(name: &str) -> (r: Option<String>)
    ensures
        match r {
            Some(e) => path_extension(name@) == Some(e@),
            None => path_extension(name@) is None,
        },
{
    match std::path::Path::new(name).extension() {
        Some(e) => e.to_str().map(|s| s.to_owned()),
        None => None,
    }
}

pub open spec fn bin_word() -> Seq<char> {
    seq!['b', 'i', 'n']
}

/// An extension kept for a stored file: ASCII letters and digits only, at
/// most 10 bytes; anything else is stored as `bin`.
pub open spec fn stored_ext_spec(e: Option<Seq<char>>) -> Seq<char> {
    match e {
        Some(x) => if (forall|i: int| 0 <= i < x.len() ==> is_ascii_alphanumeric(#[trigger] x[i]))
            && utf8_len(x) <= 10 {
            x
        } else {
            bin_word()
        },
        None => bin_word(),
    }
}

/// The extension check, given the extension of the original name.
pub fn stored_ext_from(e: Option<String>) -> (r: String)
    ensures
        r@ == stored_ext_spec(match e {
            Some(x) => Some(x@),
            None => None,
        }),
{
    let bin: Vec<char> = vec!['b', 'i', 'n'];
    assert(bin@ =~= bin_word());
    match e {
        Some(x) => {
            let v = chars_of(x.as_str());
            let mut i: usize = 0;
            while i < v.len()
                invariant
                    v@ == x@,
                    e == Some(x),
                    bin@ == bin_word(),
                    i <= v@.len(),
                    forall|j: int| 0 <= j < i ==> is_ascii_alphanumeric(#[trigger] v@[j]),
                decreases v@.len() - i,
            {
                if !ascii_alphanumeric(v[i]) {
                    assert(!is_ascii_alphanumeric(x@[i as int]));
                    return string_of(bin.as_slice());
                }
                i = i + 1;
            }
            if byte_len(x.as_str()) <= 10 {
                x
            } else {
                string_of(bin.as_slice())
            }
        },
        None => string_of(bin.as_slice()),
    }
}

/// The extension a file of kind `file` is stored under.
pub fn stored_extension(original_name: &str) -> (r: String)
    ensures
        r@ == stored_ext_spec(path_extension(original_name@)),
{
    stored_ext_from(extension_of(original_name))
}

/// `attachment; filename="<sanitized name>"`.
pub fn content_disposition(name: &str) -> (r: String)
    ensures
        r@ == "attachment; filename=\""@ + sanitize_spec(name@) + "\""@,
{
    let safe = sanitize_file_name(name);
    let a = concat("attachment; filename=\"", safe.as_str());
    concat(a.as_str(), "\"")
}

/// `/api/media/{id}/file`, and `/api/media/{id}/thumb` when a thumbnail exists.
pub fn attachment_urls(id: u128, has_thumb: bool) -> (r: (String, Option<String>))
    ensures
        r.0@ == "/api/media/"@ + uuid_text(id) + "/file"@,
        has_thumb ==> (r.1 matches Some(t) && t@ == "/api/media/"@ + uuid_text(id) + "/thumb"@),
        !has_thumb ==> r.1 is None,
{
    let s = uuid_string(id);
    let a = concat("/api/media/", s.as_str());
    let file = concat(a.as_str(), "/file");
    let thumb = if has_thumb {
        Some(concat(a.as_str(), "/thumb"))
    } else {
        None
    };
    (file, thumb)
}

// ---------------------------------------------------------------------------
// The compression pipeline
// ---------------------------------------------------------------------------

/// One upload to process: its kind, the temporary input file, the output
/// path stem (`<upload dir>/<yyyy>/<mm>/<id>`), the extension for files
/// stored as-is, and the uploaded MIME type.
#[derive(Debug)]
pub struct UploadJob {
    pub kind: MediaKind,
    pub input: String,
    pub stem: String,
    pub ext: String,
    pub mime: String,
}

/// Where the pipeline stands; each state waits for the outcome of the
/// action that led to it.
#[derive(Debug, Clone, Copy, PartialEq, Eq, Structural)]
pub enum UploadState {
    Begin,
    ImageMain,
    ImageFallback,
    ImageThumb { jpeg: bool },
    ImageProbe { jpeg: bool, thumb: bool },
    VideoMain,
    VideoThumb,
    VideoProbe { thumb: bool },
    AudioMain,
    AudioProbe,
    FileCopy,
    Done,
}

/// The outcome of a finished pipeline: the stored file, its MIME type, the
/// thumbnail if one was made, and whether the stored file was probed for
/// width, height and duration.
#[derive(Debug)]
pub struct UploadOutcome {
    pub stored: String,
    pub mime: String,
    pub thumb: Option<String>,
    pub probed: bool,
}

/// What the caller does next.
#[derive(Debug)]
pub enum UploadAction {
    /// Run ffmpeg with these arguments and report whether it succeeded.
    Ffmpeg(Vec<String>),
    /// Probe this file for width, height and duration.
    Probe(String),
    /// Copy the input file to this path.
    Copy(String),
    /// The pipeline is finished.
    Finish(UploadOutcome),
    /// The pipeline failed with this error.
    Fail(AppError),
    /// Nothing more to do.
    Idle,
}

/// Model of an action: arguments, paths and messages as character sequences.
pub enum ActionView {
    Ffmpeg(Seq<Seq<char>>),
    Probe(Seq<char>),
    Copy(Seq<char>),
    Finish { stored: Seq<char>, mime: Seq<char>, thumb: Option<Seq<char>>, probed: bool },
    Fail(ErrorView),
    Idle,
}

pub open spec fn strings_view(v: Seq<String>) -> Seq<Seq<char>> {
    v.map_values(|s: String| s@)
}

pub open spec fn action_view(a: UploadAction) -> ActionView {
    match a {
        UploadAction::Ffmpeg(args) => ActionView::Ffmpeg(strings_view(args@)),
        UploadAction::Probe(p) => ActionView::Probe(p@),
        UploadAction::Copy(p) => ActionView::Copy(p@),
        UploadAction::Finish(o) => ActionView::Finish {
            stored: o.stored@,
            mime: o.mime@,
            thumb: match o.thumb {
                Some(t) => Some(t@),
                None => None,
            },
            probed: o.probed,
        },
        UploadAction::Fail(e) => ActionView::Fail(e@),
        UploadAction::Idle => ActionView::Idle,
    }
}

pub open spec fn webp_out(stem: Seq<char>) -> Seq<char> {
    stem + ".webp"@
}

pub open spec fn jpg_out(stem: Seq<char>) -> Seq<char> {
    stem + ".jpg"@
}

pub open spec fn thumb_out(stem: Seq<char>) -> Seq<char> {
    stem + "_t.webp"@
}

pub open spec fn mp4_out(stem: Seq<char>) -> Seq<char> {
    stem + ".mp4"@
}

pub open spec fn m4a_out(stem: Seq<char>) -> Seq<char> {
    stem + ".m4a"@
}

pub open spec fn image_args(input: Seq<char>, out: Seq<char>) -> Seq<Seq<char>> {
    seq!["-y"@, "-i"@, input, "-vf"@, "scale='min(1920\\,iw)':-2"@, "-c:v"@, "libwebp"@,
        "-quality"@, "80"@, "-preset"@, "photo"@, out]
}

pub open spec fn jpeg_args(input: Seq<char>, out: Seq<char>) -> Seq<Seq<char>> {
    seq!["-y"@, "-i"@, input, "-vf"@, "scale='min(1920\\,iw)':-2"@, "-q:v"@, "2"@, out]
}

pub open spec fn image_thumb_args(input: Seq<char>, out: Seq<char>) -> Seq<Seq<char>> {
    seq!["-y"@, "-i"@, input, "-vf"@, "scale='min(320\\,iw)':-2"@, "-c:v"@, "libwebp"@,
        "-quality"@, "75"@, out]
}

pub open spec fn video_args(input: Seq<char>, out: Seq<char>) -> Seq<Seq<char>> {
    seq!["-y"@, "-i"@, input, "-vf"@, "scale='min(1280\\,iw)':-2"@, "-c:v"@, "libx264"@,
        "-preset"@, "veryfast"@, "-crf"@, "26"@, "-pix_fmt"@, "yuv420p"@, "-c:a"@, "aac"@,
        "-b:a"@, "96k"@, "-movflags"@, "+faststart"@, out]
}

pub open spec fn video_thumb_args(input: Seq<char>, out: Seq<char>) -> Seq<Seq<char>> {
    seq!["-y"@, "-ss"@, "1"@, "-i"@, input, "-frames:v"@, "1"@, "-vf"@,
        "scale='min(320\\,iw)':-2"@, "-c:v"@, "libwebp"@, "-quality"@, "75"@, out]
}

pub open spec fn audio_args(input: Seq<char>, out: Seq<char>) -> Seq<Seq<char>> {
    seq!["-y"@, "-i"@, input, "-c:a"@, "aac"@, "-b:a"@, "96k"@, out]
}

pub open spec fn msg_image_failed() -> Seq<char> {
    "فشل ضغط الصورة بواسطة ffmpeg."@
}

pub open spec fn msg_video_failed() -> Seq<char> {
    "فشل ضغط الفيديو بواسطة ffmpeg."@
}

pub open spec fn msg_audio_failed() -> Seq<char> {
    "فشل ضغط الصوت بواسطة ffmpeg."@
}

pub open spec fn finish(stored: Seq<char>, mime: Seq<char>, thumb: Option<Seq<char>>, probed: bool) -> ActionView {
    ActionView::Finish { stored, mime, thumb, probed }
}

/// The pipeline: from a state and the success of the last action, the next
/// state and action.
pub open spec fn upload_step_spec(
    kind: MediaKind,
    input: Seq<char>,
    stem: Seq<char>,
    ext: Seq<char>,
    mime: Seq<char>,
    s: UploadState,
    ok: bool,
) -> (UploadState, ActionView) {
    match s {
        UploadState::Begin => match kind {
            MediaKind::Image => (UploadState::ImageMain, ActionView::Ffmpeg(image_args(input, webp_out(stem)))),
            MediaKind::Video => (UploadState::VideoMain, ActionView::Ffmpeg(video_args(input, mp4_out(stem)))),
            MediaKind::Audio => (UploadState::AudioMain, ActionView::Ffmpeg(audio_args(input, m4a_out(stem)))),
            MediaKind::File => (UploadState::FileCopy, ActionView::Copy(stem + seq!['.'] + ext)),
        },
        UploadState::ImageMain => if ok {
            (UploadState::ImageThumb { jpeg: false }, ActionView::Ffmpeg(image_thumb_args(input, thumb_out(stem))))
        } else {
            (UploadState::ImageFallback, ActionView::Ffmpeg(jpeg_args(input, jpg_out(stem))))
        },
        UploadState::ImageFallback => if ok {
            (UploadState::ImageThumb { jpeg: true }, ActionView::Ffmpeg(image_thumb_args(input, thumb_out(stem))))
        } else {
            (UploadState::Done, ActionView::Fail(ErrorView::UnsupportedMedia(msg_image_failed())))
        },
        UploadState::ImageThumb { jpeg } => (
            UploadState::ImageProbe { jpeg, thumb: ok },
            ActionView::Probe(if jpeg { jpg_out(stem) } else { webp_out(stem) }),
        ),
        UploadState::ImageProbe { jpeg, thumb } => (
            UploadState::Done,
            finish(
                if jpeg { jpg_out(stem) } else { webp_out(stem) },
                if jpeg { "image/jpeg"@ } else { "image/webp"@ },
                if thumb { Some(thumb_out(stem)) } else { None },
                true,
            ),
        ),
        UploadState::VideoMain => if ok {
            (UploadState::VideoThumb, ActionView::Ffmpeg(video_thumb_args(mp4_out(stem), thumb_out(stem))))
        } else {
            (UploadState::Done, ActionView::Fail(ErrorView::UnsupportedMedia(msg_video_failed())))
        },
        UploadState::VideoThumb => (UploadState::VideoProbe { thumb: ok }, ActionView::Probe(mp4_out(stem))),
        UploadState::VideoProbe { thumb } => (
            UploadState::Done,
            finish(mp4_out(stem), "video/mp4"@, if thumb { Some(thumb_out(stem)) } else { None }, true),
        ),
        UploadState::AudioMain => if ok {
            (UploadState::AudioProbe, ActionView::Probe(m4a_out(stem)))
        } else {
            (UploadState::Done, ActionView::Fail(ErrorView::UnsupportedMedia(msg_audio_failed())))
        },
        UploadState::AudioProbe => (UploadState::Done, finish(m4a_out(stem), "audio/mp4"@, None, true)),
        UploadState::FileCopy => (
            UploadState::Done,
            finish(stem + seq!['.'] + ext, if mime.len() == 0 { octet_stream() } else { mime }, None, false),
        ),
        UploadState::Done => (UploadState::Done, ActionView::Idle),
    }
}

fn strings(parts: &[&str]) -> (r: Vec<String>)
    ensures
        strings_view(r@) == parts@.map_values(|s: &str| s@),
{
    let mut out: Vec<String> = Vec::new();
    let mut i: usize = 0;
    while i < parts.len()
        invariant
            i <= parts@.len(),
            strings_view(out@) == parts@.map_values(|s: &str| s@).take(i as int),
        decreases parts@.len() - i,
    {
        let ghost prev = out@;
        out.push(parts[i].to_owned());
        assert(strings_view(out@) =~= strings_view(prev).push(parts@[i as int]@));
        assert(parts@.map_values(|s: &str| s@).take(i + 1) =~= parts@.map_values(|s: &str| s@).take(
            i as int,
        ).push(parts@[i as int]@));
        i = i + 1;
    }
    assert(parts@.map_values(|s: &str| s@).take(parts@.len() as int) =~= parts@.map_values(
        |s: &str| s@,
    ));
    out
}

impl UploadJob {
    /// The next state and action of the pipeline.
    pub fn step(&self, s: &UploadState, ok: bool) -> (r: (UploadState, UploadAction))
        ensures
            (r.0, action_view(r.1)) == upload_step_spec(
                self.kind,
                self.input@,
                self.stem@,
                self.ext@,
                self.mime@,
                *s,
                ok,
            ),
    {
        let input = self.input.as_str();
        let stem = self.stem.as_str();
        match s {
            UploadState::Begin => match self.kind {
                MediaKind::Image => {
                    let out = concat(stem, ".webp");
                    let args = strings(&["-y", "-i", input, "-vf", "scale='min(1920\\,iw)':-2", "-c:v", "libwebp", "-quality", "80", "-preset", "photo", out.as_str()]);
                    proof {
                        assert(strings_view(args@) =~= image_args(self.input@, webp_out(self.stem@)));
                    }
                    (UploadState::ImageMain, UploadAction::Ffmpeg(args))
                },
                MediaKind::Video => {
                    let out = concat(stem, ".mp4");
                    let args = strings(&["-y", "-i", input, "-vf", "scale='min(1280\\,iw)':-2", "-c:v", "libx264", "-preset", "veryfast", "-crf", "26", "-pix_fmt", "yuv420p", "-c:a", "aac", "-b:a", "96k", "-movflags", "+faststart", out.as_str()]);
                    proof {
                        assert(strings_view(args@) =~= video_args(self.input@, mp4_out(self.stem@)));
                    }
                    (UploadState::VideoMain, UploadAction::Ffmpeg(args))
                },
                MediaKind::Audio => {
                    let out = concat(stem, ".m4a");
                    let args = strings(&["-y", "-i", input, "-c:a", "aac", "-b:a", "96k", out.as_str()]);
                    proof {
                        assert(strings_view(args@) =~= audio_args(self.input@, m4a_out(self.stem@)));
                    }
                    (UploadState::AudioMain, UploadAction::Ffmpeg(args))
                },
                MediaKind::File => {
                    let a = concat(stem, ".");
                    let out = concat(a.as_str(), self.ext.as_str());
                    proof {
                        reveal_strlit(".");
                        assert(out@ =~= self.stem@ + seq!['.'] + self.ext@);
                    }
                    (UploadState::FileCopy, UploadAction::Copy(out))
                },
            },
            UploadState::ImageMain => {
                if ok {
                    let out = concat(stem, "_t.webp");
                    let args = strings(&["-y", "-i", input, "-vf", "scale='min(320\\,iw)':-2", "-c:v", "libwebp", "-quality", "75", out.as_str()]);
                    proof {
                        assert(strings_view(args@) =~= image_thumb_args(self.input@, thumb_out(self.stem@)));
                    }
                    (UploadState::ImageThumb { jpeg: false }, UploadAction::Ffmpeg(args))
                } else {
                    let out = concat(stem, ".jpg");
                    let args = strings(&["-y", "-i", input, "-vf", "scale='min(1920\\,iw)':-2", "-q:v", "2", out.as_str()]);
                    proof {
                        assert(strings_view(args@) =~= jpeg_args(self.input@, jpg_out(self.stem@)));
                    }
                    (UploadState::ImageFallback, UploadAction::Ffmpeg(args))
                }
            },
            UploadState::ImageFallback => {
                if ok {
                    let out = concat(stem, "_t.webp");
                    let args = strings(&["-y", "-i", input, "-vf", "scale='min(320\\,iw)':-2", "-c:v", "libwebp", "-quality", "75", out.as_str()]);
                    proof {
                        assert(strings_view(args@) =~= image_thumb_args(self.input@, thumb_out(self.stem@)));
                    }
                    (UploadState::ImageThumb { jpeg: true }, UploadAction::Ffmpeg(args))
                } else {
                    (UploadState::Done, UploadAction::Fail(unsupported_media("فشل ضغط الصورة بواسطة ffmpeg.")))
                }
            },
            UploadState::ImageThumb { jpeg } => {
                let p = if *jpeg {
                    concat(stem, ".jpg")
                } else {
                    concat(stem, ".webp")
                };
                (UploadState::ImageProbe { jpeg: *jpeg, thumb: ok }, UploadAction::Probe(p))
            },
            UploadState::ImageProbe { jpeg, thumb } => {
                let stored = if *jpeg {
                    concat(stem, ".jpg")
                } else {
                    concat(stem, ".webp")
                };
                let mime = if *jpeg {
                    "image/jpeg".to_owned()
                } else {
                    "image/webp".to_owned()
                };
                let t = if *thumb {
                    Some(concat(stem, "_t.webp"))
                } else {
                    None
                };
                (UploadState::Done, UploadAction::Finish(UploadOutcome { stored, mime, thumb: t, probed: true }))
            },
            UploadState::VideoMain => {
                if ok {
                    let mp4 = concat(stem, ".mp4");
                    let out = concat(stem, "_t.webp");
                    let args = strings(&["-y", "-ss", "1", "-i", mp4.as_str(), "-frames:v", "1", "-vf", "scale='min(320\\,iw)':-2", "-c:v", "libwebp", "-quality", "75", out.as_str()]);
                    proof {
                        assert(strings_view(args@) =~= video_thumb_args(mp4_out(self.stem@), thumb_out(self.stem@)));
                    }
                    (UploadState::VideoThumb, UploadAction::Ffmpeg(args))
                } else {
                    (UploadState::Done, UploadAction::Fail(unsupported_media("فشل ضغط الفيديو بواسطة ffmpeg.")))
                }
            },
            UploadState::VideoThumb => {
                (UploadState::VideoProbe { thumb: ok }, UploadAction::Probe(concat(stem, ".mp4")))
            },
            UploadState::VideoProbe { thumb } => {
                let t = if *thumb {
                    Some(concat(stem, "_t.webp"))
                } else {
                    None
                };
                (
                    UploadState::Done,
                    UploadAction::Finish(UploadOutcome {
                        stored: concat(stem, ".mp4"),
                        mime: "video/mp4".to_owned(),
                        thumb: t,
                        probed: true,
                    }),
                )
            },
            UploadState::AudioMain => {
                if ok {
                    (UploadState::AudioProbe, UploadAction::Probe(concat(stem, ".m4a")))
                } else {
                    (UploadState::Done, UploadAction::Fail(unsupported_media("فشل ضغط الصوت بواسطة ffmpeg.")))
                }
            },
            UploadState::AudioProbe => {
                (
                    UploadState::Done,
                    UploadAction::Finish(UploadOutcome {
                        stored: concat(stem, ".m4a"),
                        mime: "audio/mp4".to_owned(),
                        thumb: None,
                        probed: true,
                    }),
                )
            },
            UploadState::FileCopy => {
                let a = concat(stem, ".");
                let out = concat(a.as_str(), self.ext.as_str());
                proof {
                    reveal_strlit(".");
                    assert(out@ =~= self.stem@ + seq!['.'] + self.ext@);
                }
                let mime = effective_mime(self.mime.as_str());
                (
                    UploadState::Done,
                    UploadAction::Finish(UploadOutcome { stored: out, mime, thumb: None, probed: false }),
                )
            },
            UploadState::Done => (UploadState::Done, UploadAction::Idle),
        }
    }
}


/// A processed upload as it is recorded: kind, MIME type, size, the
/// dimensions and duration that were probed, the stored file and
/// thumbnail (relative to the upload directory) and the SHA-256 of the
/// stored file.
#[derive(Debug, Clone)]
pub struct ProcessedMedia {
    pub kind: String,
    pub mime_type: String,
    pub size: i64,
    pub width: Option<i32>,
    pub height: Option<i32>,
    pub duration_ms: Option<i64>,
    pub stored_rel: String,
    pub thumb_rel: Option<String>,
    pub hash: String,
}

pub open spec fn msg_not_image() -> Seq<char> {
    "يجب أن تكون الصورة من نوع صورة (PNG/JPEG/WebP...)."@
}

/// Where an upload is stored, relative to the upload directory and without
/// its extension: the month's directory (`YYYY/MM`), then the media id.
pub fn stored_stem(month_dir: &str, id: u128) -> (r: String)
    ensures
        r@ == month_dir@ + seq!['/'] + uuid_text(id),
{
    proof {
        reveal_strlit("/");
    }
    let a = concat(month_dir, "/");
    let u = uuid_string(id);
    concat(a.as_str(), u.as_str())
}

impl ProcessedMedia {
    /// Assembles the record of a finished pipeline from what the caller
    /// measured on disk; width, height and duration are kept only when the
    /// pipeline probed the stored file.
    pub fn from_upload(
        kind: MediaKind,
        outcome: UploadOutcome,
        stored_rel: String,
        thumb_rel: Option<String>,
        size: i64,
        meta: (Option<i32>, Option<i32>, Option<i64>),
        hash: String,
    ) -> (r: ProcessedMedia)
        ensures
            r.kind@ == kind_word(kind),
            r.mime_type@ == outcome.mime@,
            r.size == size,
            (r.width, r.height, r.duration_ms) == (if outcome.probed {
                meta
            } else {
                (None, None, None)
            }),
            r.stored_rel == stored_rel,
            r.thumb_rel == thumb_rel,
            r.hash == hash,
    {
        let word = match kind {
            MediaKind::Image => "image",
            MediaKind::Video => "video",
            MediaKind::Audio => "audio",
            MediaKind::File => "file",
        };
        proof {
            reveal_strlit("image");
            reveal_strlit("video");
            reveal_strlit("audio");
            reveal_strlit("file");
        }
        let (width, height, duration_ms) = if outcome.probed {
            meta
        } else {
            (None, None, None)
        };
        ProcessedMedia {
            kind: word.to_owned(),
            mime_type: outcome.mime,
            size,
            width,
            height,
            duration_ms,
            stored_rel,
            thumb_rel,
            hash,
        }
    }

    /// Avatars and banners must be images.
    pub fn require_image(&self) -> (r: Result<(), AppError>)
        ensures
            unit_outcome(r) == (if self.kind@ == "image"@ {
                Ok(())
            } else {
                Err(ErrorView::BadRequest(msg_not_image()))
            }),
    {
        if str_eq(self.kind.as_str(), "image") {
            Ok(())
        } else {
            Err(bad_request("يجب أن تكون الصورة من نوع صورة (PNG/JPEG/WebP...)."))
        }
    }
}

} // verus!
