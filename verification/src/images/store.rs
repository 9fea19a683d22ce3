//! What is known of a document's images, and what they are drawn with.
//!
//! A [`Store`] decides what has to be read for an image, remembers what came of it --
//! a failure too, both so that it is not tried again on every pass and so that a
//! placeholder can say why the picture is not there -- and encodes what it has. It
//! reads nothing itself: it says what it wants and is given what was found. Vector
//! images are kept by whoever renders them, so that they can be rendered at exactly
//! the size the terminal will show; the store knows their size.
use vstd::prelude::*;
use vstd::utf8::{decode_utf8, valid_utf8};

use super::picture::{
    crop, cropped, decode, decoding, fit, fitted, format_name, image_pixels, image_size, png_of,
    Decoded, DecodedV, Picture, PictureV,
};
use super::{blocks, iterm2, kitty, sixel};
use crate::codec::{
    base64_bytes, base64_decode, from_utf8, from_utf8_lossy, opt_bytes, percent_decode,
    percent_decoded, unpadded_base64_bytes, unpadded_base64_decode, utf8_lossy,
};
use crate::markdown::ir::opt_text;
use crate::markdown::rebase::joined_path;
use crate::render::{rows_shown, ImageRequest, RequestV};
use crate::term::caps::{cell_or_guess, Capabilities, ColorDepth, GraphicsProtocol};
use crate::text;

verus! {

/// Ceiling on a downloaded image, or on a file.
pub const MAX_DOWNLOAD_BYTES: u64 = 33554432;

/// Where images may be loaded from.
#[derive(Debug, Clone, Copy, PartialEq, Eq, Structural)]
pub enum RemotePolicy {
    /// Local files only. Remote URLs become placeholders.
    Deny,
    /// Fetch `http(s)` URLs.
    Allow,
}

impl Default for RemotePolicy {
    fn default() -> (r: RemotePolicy)
        ensures
            r == RemotePolicy::Deny,
    {
        RemotePolicy::Deny
    }
}

/// Why an image could not be shown.
///
/// Carried all the way to the placeholder text. An image that silently fails to appear
/// is the single most confusing thing a viewer can do: the reader has no way to tell a
/// missing file from a blocked download from a format that cannot be read, and no idea
/// which of them they could fix.
#[derive(Debug, PartialEq, Eq)]
pub enum ImageProblem {
    /// A remote URL while remote images are off.
    RemoteBlocked,
    /// The file is not where the document says it is.
    NotFound,
    /// A format that cannot be decoded.
    Unsupported(String),
    /// The download or the file failed.
    Unreadable(String),
    /// Bigger than will be decoded.
    TooLarge,
}

pub enum ProblemV {
    RemoteBlocked,
    NotFound,
    Unsupported(Seq<char>),
    Unreadable(Seq<char>),
    TooLarge,
}

impl View for ImageProblem {
    type V = ProblemV;

    open spec fn view(&self) -> ProblemV {
        match *self {
            ImageProblem::RemoteBlocked => ProblemV::RemoteBlocked,
            ImageProblem::NotFound => ProblemV::NotFound,
            ImageProblem::Unsupported(s) => ProblemV::Unsupported(s@),
            ImageProblem::Unreadable(s) => ProblemV::Unreadable(s@),
            ImageProblem::TooLarge => ProblemV::TooLarge,
        }
    }
}

/// What a placeholder says of a problem.
pub open spec fn problem_text(p: ProblemV) -> Seq<char> {
    match p {
        ProblemV::RemoteBlocked => "remote image, run with --remote-images"@,
        ProblemV::NotFound => "file not found"@,
        ProblemV::Unsupported(what) => "cannot read "@ + what,
        ProblemV::Unreadable(why) => why,
        ProblemV::TooLarge => "image too large"@,
    }
}

impl ImageProblem {
    /// A few words fit for a placeholder.
    pub fn message(&self) -> (r: String)
        ensures
            r@ == problem_text(self@),
    {
        match self {
            ImageProblem::RemoteBlocked => text::owned("remote image, run with --remote-images"),
            ImageProblem::NotFound => text::owned("file not found"),
            ImageProblem::Unsupported(what) => {
                let mut s = text::owned("cannot read ");
                s.push_str(what);
                s
            },
            ImageProblem::Unreadable(why) => text::owned(why),
            ImageProblem::TooLarge => text::owned("image too large"),
        }
    }

    fn copy(&self) -> (r: ImageProblem)
        ensures
            r@ == self@,
    {
        match self {
            ImageProblem::RemoteBlocked => ImageProblem::RemoteBlocked,
            ImageProblem::NotFound => ImageProblem::NotFound,
            ImageProblem::Unsupported(what) => ImageProblem::Unsupported(text::owned(what)),
            ImageProblem::Unreadable(why) => ImageProblem::Unreadable(text::owned(why)),
            ImageProblem::TooLarge => ImageProblem::TooLarge,
        }
    }
}

/// What came of loading an image.
#[derive(Debug)]
pub enum Outcome {
    Raster(Picture),
    /// A vector image, by its own size in pixels.
    Vector(u32, u32),
    Failed(ImageProblem),
}

pub enum OutcomeV {
    Raster(PictureV),
    Vector(u32, u32),
    Failed(ProblemV),
}

impl View for Outcome {
    type V = OutcomeV;

    open spec fn view(&self) -> OutcomeV {
        match *self {
            Outcome::Raster(p) => OutcomeV::Raster(p@),
            Outcome::Vector(w, h) => OutcomeV::Vector(w, h),
            Outcome::Failed(p) => OutcomeV::Failed(p@),
        }
    }
}

impl OutcomeV {
    pub open spec fn wf(self) -> bool {
        self matches OutcomeV::Raster(p) ==> p.wf()
    }
}

/// Identifies one encoded form of one image.
#[derive(Debug)]
pub struct EncodingKey {
    pub url: String,
    pub cols: u16,
    pub rows: u16,
    pub skip_top: u16,
    pub skip_bottom: u16,
    pub indent: u16,
}

pub struct KeyV {
    pub url: Seq<char>,
    pub cols: u16,
    pub rows: u16,
    pub skip_top: u16,
    pub skip_bottom: u16,
    pub indent: u16,
}

impl View for EncodingKey {
    type V = KeyV;

    open spec fn view(&self) -> KeyV {
        KeyV {
            url: self.url@,
            cols: self.cols,
            rows: self.rows,
            skip_top: self.skip_top,
            skip_bottom: self.skip_bottom,
            indent: self.indent,
        }
    }
}

/// The key of a request.
pub open spec fn key_of(r: RequestV) -> KeyV {
    KeyV {
        url: r.image.url,
        cols: r.cols,
        rows: r.rows,
        skip_top: r.skip_top,
        skip_bottom: r.skip_bottom,
        indent: r.indent,
    }
}

/// Decodes, remembers and encodes images.
#[derive(Debug)]
pub struct Store {
    pub protocol: GraphicsProtocol,
    pub color: ColorDepth,
    pub cell_px: (u16, u16),
    /// Directory that relative image paths resolve against.
    pub base_dir: String,
    pub remote: RemotePolicy,
    /// What came of every image that was tried.
    pub decoded: Vec<(String, Outcome)>,
    /// The sequence for every request that was made.
    pub encoded: Vec<(EncodingKey, Option<String>)>,
    /// Incrementing ids for the kitty protocol.
    pub next_id: u32,
    /// Set when a remote image was skipped, so that the program can mention the flag.
    pub skipped_remote: bool,
}

pub struct StoreV {
    pub protocol: GraphicsProtocol,
    pub color: ColorDepth,
    pub cell_px: (u16, u16),
    pub base_dir: Seq<char>,
    pub remote: RemotePolicy,
    pub decoded: Seq<(Seq<char>, OutcomeV)>,
    pub encoded: Seq<(KeyV, Option<Seq<char>>)>,
    pub next_id: u32,
    pub skipped_remote: bool,
}

pub open spec fn decoded_view(v: Seq<(String, Outcome)>) -> Seq<(Seq<char>, OutcomeV)> {
    Seq::new(v.len(), |k: int| (v[k].0@, v[k].1@))
}

pub open spec fn encoded_view(v: Seq<(EncodingKey, Option<String>)>) -> Seq<
    (KeyV, Option<Seq<char>>),
> {
    Seq::new(v.len(), |k: int| (v[k].0@, opt_text(v[k].1)))
}

impl View for Store {
    type V = StoreV;

    open spec fn view(&self) -> StoreV {
        StoreV {
            protocol: self.protocol,
            color: self.color,
            cell_px: self.cell_px,
            base_dir: self.base_dir@,
            remote: self.remote,
            decoded: decoded_view(self.decoded@),
            encoded: encoded_view(self.encoded@),
            next_id: self.next_id,
            skipped_remote: self.skipped_remote,
        }
    }
}

impl StoreV {
    /// Every picture in the store has all of its pixels.
    pub open spec fn wf(self) -> bool {
        forall|k: int| 0 <= k < self.decoded.len() ==> (#[trigger] self.decoded[k]).1.wf()
    }
}

/// What is known of a URL.
pub open spec fn known(s: Seq<(Seq<char>, OutcomeV)>, url: Seq<char>) -> Option<OutcomeV>
    decreases s.len(),
{
    if s.len() == 0 {
        None
    } else {
        match known(s.drop_last(), url) {
            Some(o) => Some(o),
            None => if s.last().0 == url {
                Some(s.last().1)
            } else {
                None
            },
        }
    }
}

/// The sequence that was given for a key.
pub open spec fn remembered(s: Seq<(KeyV, Option<Seq<char>>)>, key: KeyV) -> Option<
    Option<Seq<char>>,
>
    decreases s.len(),
{
    if s.len() == 0 {
        None
    } else {
        match remembered(s.drop_last(), key) {
            Some(r) => Some(r),
            None => if s.last().0 == key {
                Some(s.last().1)
            } else {
                None
            },
        }
    }
}

/// A store that has learnt what came of a URL.
pub open spec fn learnt(s: StoreV, url: Seq<char>, o: OutcomeV) -> StoreV {
    StoreV { decoded: s.decoded.push((url, o)), ..s }
}

// --- what to read ------------------------------------------------------------------------

/// The payload of a `data:` URI.
#[derive(Debug)]
pub enum DataPayload {
    /// Base64, still to be decoded.
    Encoded(String),
    Plain(Vec<u8>),
}

pub enum DataPayloadV {
    Encoded(Seq<char>),
    Plain(Seq<u8>),
}

impl View for DataPayload {
    type V = DataPayloadV;

    open spec fn view(&self) -> DataPayloadV {
        match *self {
            DataPayload::Encoded(s) => DataPayloadV::Encoded(s@),
            DataPayload::Plain(b) => DataPayloadV::Plain(b@),
        }
    }
}

/// The payload of what follows `data:`.
pub open spec fn data_payload_of(rest: Seq<char>) -> Option<DataPayloadV> {
    let i = text::index_of(rest, ',', 0);
    if i >= rest.len() {
        None
    } else {
        let payload = rest.subrange(i + 1, rest.len() as int);
        if text::ends_with(rest.subrange(0, i), ";base64"@) {
            Some(DataPayloadV::Encoded(text::trim(payload)))
        } else {
            Some(DataPayloadV::Plain(percent_decoded(payload)))
        }
    }
}

/// The payload of what follows `data:`.
pub fn data_payload(rest: &str) -> (r: Option<DataPayload>)
    ensures
        (match r {
            Some(p) => Some(p@),
            None => None,
        }) == data_payload_of(rest@),
{
    let v = text::chars_of(rest);
    let i = text::find_char(&v, ',', 0);
    if i >= v.len() {
        return None;
    }
    let payload = text::string_of_range(&v, i + 1, v.len());
    if text::has_suffix(&text::string_of_range(&v, 0, i), ";base64") {
        Some(DataPayload::Encoded(text::trimmed(&payload)))
    } else {
        Some(DataPayload::Plain(percent_decode(&payload)))
    }
}

/// The bytes of what follows `data:`. Base64 may come with its padding or without.
pub open spec fn data_bytes(rest: Seq<char>) -> Option<Seq<u8>> {
    match data_payload_of(rest) {
        None => None,
        Some(DataPayloadV::Plain(bytes)) => Some(bytes),
        Some(DataPayloadV::Encoded(s)) => match base64_bytes(s) {
            Some(bytes) => Some(bytes),
            None => unpadded_base64_bytes(s),
        },
    }
}

/// Decodes the payload of a `data:` URI.
pub fn decode_data_uri(rest: &str) -> (r: Option<Vec<u8>>)
    ensures
        opt_bytes(r) == data_bytes(rest@),
{
    match data_payload(rest) {
        None => None,
        Some(DataPayload::Plain(bytes)) => Some(bytes),
        Some(DataPayload::Encoded(s)) => match base64_decode(&s) {
            Some(bytes) => Some(bytes),
            None => unpadded_base64_decode(&s),
        },
    }
}

/// Where a URL's own path ends: at its query or its fragment.
pub open spec fn query_start(url: Seq<char>, i: int) -> int
    decreases url.len() - i,
{
    if i < 0 || i >= url.len() {
        url.len() as int
    } else if url[i] == '#' || url[i] == '?' {
        i
    } else {
        query_start(url, i + 1)
    }
}

/// The path in an image reference, without query, fragment and `file://`.
pub open spec fn raw_path(url: Seq<char>) -> Seq<char> {
    let cut = url.subrange(0, query_start(url, 0));
    if text::starts_with(cut, "file://"@) {
        cut.subrange(7, cut.len() as int)
    } else {
        cut
    }
}

/// The file that an image reference names, seen from the document's directory. Escapes
/// are decoded where that gives text.
pub open spec fn file_for(base: Seq<char>, url: Seq<char>) -> Seq<char> {
    let raw = raw_path(url);
    let bytes = percent_decoded(raw);
    let path = if valid_utf8(bytes) {
        decode_utf8(bytes)
    } else {
        raw
    };
    if path.len() > 0 && path[0] == '/' {
        path
    } else {
        joined_path(base, path)
    }
}

/// Resolves an image reference against the document's directory.
pub fn resolve_path(base: &str, url: &str) -> (r: String)
    ensures
        r@ == file_for(base@, url@),
{
    let v = text::chars_of(url);
    let mut n: usize = 0;
    while n < v.len() && !(v[n] == '#' || v[n] == '?')
        invariant
            n <= v.len(),
            query_start(v@, n as int) == query_start(v@, 0),
        decreases v.len() - n,
    {
        n = n + 1;
    }
    let cut = text::string_of_range(&v, 0, n);
    let raw = if text::has_prefix(&cut, "file://") {
        proof {
            reveal_strlit("file://");
        }
        let c = text::chars_of(&cut);
        text::string_of_range(&c, 7, c.len())
    } else {
        cut
    };
    let path = match from_utf8(percent_decode(&raw)) {
        Some(s) => s,
        None => raw,
    };
    let p = text::chars_of(&path);
    if p.len() > 0 && p[0] == '/' {
        return path;
    }
    let b = text::chars_of(base);
    let mut out = text::owned(base);
    if !(b.len() == 0 || b[b.len() - 1] == '/') {
        out.push_str("/");
    }
    out.push_str(&path);
    out
}

/// What has to be read for an image.
#[derive(Debug)]
pub enum Want {
    /// Nothing: what came of it is known.
    Nothing,
    /// These bytes are the image.
    Bytes(Vec<u8>),
    /// This has to be fetched.
    Download(String),
    /// This file has to be read.
    File(String),
}

pub enum WantV {
    Nothing,
    Bytes(Seq<u8>),
    Download(Seq<char>),
    File(Seq<char>),
}

impl View for Want {
    type V = WantV;

    open spec fn view(&self) -> WantV {
        match *self {
            Want::Nothing => WantV::Nothing,
            Want::Bytes(b) => WantV::Bytes(b@),
            Want::Download(u) => WantV::Download(u@),
            Want::File(p) => WantV::File(p@),
        }
    }
}

/// True of a URL that has to be fetched.
pub open spec fn is_remote(url: Seq<char>) -> bool {
    text::starts_with(url, "http://"@) || text::starts_with(url, "https://"@)
}

/// What a store wants for a URL, and the store after that.
pub open spec fn wanted(s: StoreV, url: Seq<char>) -> (WantV, StoreV) {
    if known(s.decoded, url) is Some {
        (WantV::Nothing, s)
    } else if text::starts_with(url, "data:"@) {
        match data_bytes(url.subrange(5, url.len() as int)) {
            Some(bytes) => (WantV::Bytes(bytes), s),
            None => (
                WantV::Nothing,
                learnt(s, url, OutcomeV::Failed(ProblemV::Unreadable("bad data URI"@))),
            ),
        }
    } else if is_remote(url) {
        if s.remote == RemotePolicy::Deny {
            (
                WantV::Nothing,
                learnt(
                    StoreV { skipped_remote: true, ..s },
                    url,
                    OutcomeV::Failed(ProblemV::RemoteBlocked),
                ),
            )
        } else {
            (WantV::Download(url), s)
        }
    } else {
        (WantV::File(file_for(s.base_dir, url)), s)
    }
}

// --- what was read -------------------------------------------------------------------------

/// True of bytes that start with a byte order mark.
pub open spec fn has_mark(bytes: Seq<u8>) -> bool {
    bytes.len() >= 3 && bytes[0] == 0xef && bytes[1] == 0xbb && bytes[2] == 0xbf
}

/// The start of some bytes, behind a byte order mark.
pub open spec fn svg_head(bytes: Seq<u8>) -> Seq<u8> {
    let from = if has_mark(bytes) {
        3
    } else {
        0int
    };
    let to = if bytes.len() - from > 1024 {
        from + 1024
    } else {
        bytes.len() as int
    };
    bytes.subrange(from, to)
}

/// True of text that starts like SVG: with the root element or an XML declaration
/// before it.
pub open spec fn is_svg_text(s: Seq<char>) -> bool {
    let t = text::trim_start(s);
    (text::starts_with(t, "<?xml"@) || text::starts_with(t, "<!DOCTYPE svg"@)
        || text::starts_with(t, "<svg"@)) && text::contains(s, "<svg"@)
}

/// Whether text starts like SVG.
pub fn starts_like_svg(s: &str) -> (r: bool)
    ensures
        r == is_svg_text(s@),
{
    let v = text::chars_of(s);
    assert(v@.subrange(0, v@.len() as int) =~= v@);
    let from = text::trim_start_at(&v, 0, v.len());
    let t = text::string_of_range(&v, from, v.len());
    (text::has_prefix(&t, "<?xml") || text::has_prefix(&t, "<!DOCTYPE svg") || text::has_prefix(
        &t,
        "<svg",
    )) && text::has_sub(s, "<svg")
}

/// True if the bytes look like SVG rather than a bitmap.
///
/// Sniffing beats trusting the extension: a URL may have no extension at all.
pub fn looks_like_svg(bytes: &[u8]) -> (r: bool)
    ensures
        r == is_svg_text(utf8_lossy(svg_head(bytes@))),
{
    let n: usize = bytes.len();
    let from: usize = if n >= 3 && bytes[0] == 0xef && bytes[1] == 0xbb && bytes[2] == 0xbf {
        3
    } else {
        0
    };
    let to: usize = if n - from > 1024 {
        from + 1024
    } else {
        n
    };
    let mut head: Vec<u8> = Vec::new();
    assert(head@ =~= bytes@.subrange(from as int, from as int));
    for i in from..to
        invariant
            from <= to <= bytes@.len(),
            head@ == bytes@.subrange(from as int, i as int),
    {
        head.push(bytes[i]);
        assert(head@ =~= bytes@.subrange(from as int, i + 1));
    }
    starts_like_svg(&from_utf8_lossy(&head))
}

/// What came of a bitmap.
pub open spec fn raster_outcome(d: DecodedV) -> OutcomeV {
    match d {
        DecodedV::Picture(p) => OutcomeV::Raster(p),
        DecodedV::Unsupported(what) => OutcomeV::Failed(ProblemV::Unsupported(what)),
        DecodedV::TooLarge => OutcomeV::Failed(ProblemV::TooLarge),
    }
}

/// What came of a vector image.
pub open spec fn vector_outcome(size: Result<(u32, u32), String>) -> OutcomeV {
    match size {
        Ok((w, h)) => OutcomeV::Vector(w, h),
        Err(why) => OutcomeV::Failed(ProblemV::Unreadable("bad SVG: "@ + why@)),
    }
}

/// Whether a file of `len` bytes will be read.
pub fn admits(len: u64) -> (r: Result<(), ImageProblem>)
    ensures
        match r {
            Ok(()) => len <= MAX_DOWNLOAD_BYTES,
            Err(p) => len > MAX_DOWNLOAD_BYTES && p@ == ProblemV::TooLarge,
        },
{
    if len > MAX_DOWNLOAD_BYTES {
        Err(ImageProblem::TooLarge)
    } else {
        Ok(())
    }
}

/// What is said of a failed request: the first part of what it says itself, which has
/// to fit in a placeholder.
pub open spec fn shortened(s: Seq<char>) -> Seq<char> {
    text::trim(s.subrange(0, text::index_of(s, ':', 0)))
}

/// A one-line form of a request failure, for a placeholder that has to fit.
pub fn short_error(s: &str) -> (r: String)
    ensures
        r@ == shortened(s@),
{
    let v = text::chars_of(s);
    text::trimmed(&text::string_of_range(&v, 0, text::find_char(&v, ':', 0)))
}

// --- encoding --------------------------------------------------------------------------------

/// A side of a cell in pixels, at least 1.
pub open spec fn cell_side(n: u16) -> int {
    if n == 0 {
        1
    } else {
        n as int
    }
}

/// The box in pixels for a request, and the pixel rows of one row of cells. Half blocks
/// address cells directly, two pixel rows in each; the other protocols address real
/// pixels.
pub open spec fn pixel_box(s: StoreV, r: RequestV) -> (int, int, int) {
    if s.protocol == GraphicsProtocol::Blocks {
        (r.cols as int, r.rows * 2, 2)
    } else {
        (
            r.cols * cell_side(s.cell_px.0),
            r.rows * cell_side(s.cell_px.1),
            cell_side(s.cell_px.1),
        )
    }
}

/// True of a request that shows anything.
pub open spec fn shows(s: StoreV, r: RequestV) -> bool {
    r.cols > 0 && rows_shown(r.rows, r.skip_top, r.skip_bottom) > 0 && s.protocol
        != GraphicsProtocol::Off
}

/// The pixels for a request: a bitmap scaled to its box, or a vector image as it was
/// rendered for that box.
pub open spec fn source_picture(s: StoreV, r: RequestV, rendered: Option<PictureV>) -> Option<
    PictureV,
> {
    match known(s.decoded, r.image.url) {
        Some(OutcomeV::Raster(p)) => {
            let (w, h, _) = pixel_box(s, r);
            Some(fitted(p, w as u32, h as u32))
        },
        Some(OutcomeV::Vector(_, _)) => rendered,
        _ => None,
    }
}

/// A picture in the store's protocol.
pub open spec fn in_protocol(s: StoreV, r: RequestV, p: PictureV) -> Option<Seq<char>> {
    let rows = rows_shown(r.rows, r.skip_top, r.skip_bottom) as u16;
    match s.protocol {
        GraphicsProtocol::Kitty => kitty::sent(
            png_of(p),
            r.cols,
            rows,
            s.next_id,
        ),
        GraphicsProtocol::ITerm2 => iterm2::sent_named(
            png_of(p),
            r.image.url,
            r.cols,
            rows,
        ),
        GraphicsProtocol::Sixel => sixel::encoded(p),
        GraphicsProtocol::Blocks => Some(blocks::blocks_text(p, r.indent as nat, s.color)),
        GraphicsProtocol::Off => None,
    }
}

/// The sequence for a request that was not made before.
pub open spec fn encoding(s: StoreV, r: RequestV, rendered: Option<PictureV>) -> Option<Seq<char>> {
    if !shows(s, r) {
        None
    } else {
        match source_picture(s, r, rendered) {
            None => None,
            Some(p) => {
                let unit = pixel_box(s, r).2;
                in_protocol(s, r, cropped(p, r.skip_top * unit, r.skip_bottom * unit))
            },
        }
    }
}

/// The id after this one; 0 is none.
pub open spec fn id_after(id: u32) -> u32 {
    if id == u32::MAX {
        1
    } else {
        (id + 1) as u32
    }
}

/// The answer to a request, and the store after that.
pub open spec fn answered(s: StoreV, r: RequestV, rendered: Option<PictureV>) -> (
    Option<Seq<char>>,
    StoreV,
) {
    match remembered(s.encoded, key_of(r)) {
        Some(sequence) => (sequence, s),
        None => {
            let sequence = encoding(s, r, rendered);
            (
                sequence,
                StoreV {
                    encoded: s.encoded.push((key_of(r), sequence)),
                    next_id: if sequence is Some {
                        id_after(s.next_id)
                    } else {
                        s.next_id
                    },
                    ..s
                },
            )
        },
    }
}

pub open spec fn opt_picture_view(o: Option<Picture>) -> Option<PictureV> {
    match o {
        Some(p) => Some(p@),
        None => None,
    }
}

impl Store {
    pub open spec fn wf(&self) -> bool {
        self@.wf()
    }

    pub fn new(caps: &Capabilities, base_dir: &str, remote: RemotePolicy) -> (r: Store)
        ensures
            r.wf(),
            r@ == (StoreV {
                protocol: caps.graphics,
                color: caps.color,
                cell_px: cell_or_guess(caps.cell_px),
                base_dir: base_dir@,
                remote,
                decoded: Seq::empty(),
                encoded: Seq::empty(),
                next_id: 1,
                skipped_remote: false,
            }),
    {
        let r = Store {
            protocol: caps.graphics,
            color: caps.color,
            cell_px: caps.cell_px_or_guess(),
            base_dir: text::owned(base_dir),
            remote,
            decoded: Vec::new(),
            encoded: Vec::new(),
            next_id: 1,
            skipped_remote: false,
        };
        assert(r@.decoded =~= Seq::empty());
        assert(r@.encoded =~= Seq::empty());
        r
    }

    /// Overrides the protocol that was detected.
    pub fn with_protocol(self, protocol: GraphicsProtocol) -> (r: Store)
        ensures
            r@ == (StoreV { protocol, ..self@ }),
            self.wf() ==> r.wf(),
    {
        let mut r = self;
        r.protocol = protocol;
        r
    }

    pub fn protocol(&self) -> (r: GraphicsProtocol)
        ensures
            r == self.protocol,
    {
        self.protocol
    }

    /// Forgets encodings, keeping decoded pixels. Used when the terminal is resized and
    /// every image needs encoding at a new size.
    pub fn invalidate_encodings(&mut self)
        ensures
            final(self)@ == (StoreV { encoded: Seq::empty(), ..old(self)@ }),
    {
        self.encoded = Vec::new();
        assert(self@.encoded =~= Seq::empty());
    }

    fn find(&self, url: &str) -> (r: Option<&Outcome>)
        ensures
            (match r {
                Some(o) => Some(o@),
                None => None,
            }) == known(self@.decoded, url@),
            self.wf() && r is Some ==> r->0@.wf(),
    {
        let ghost v = self@.decoded;
        let mut i: usize = 0;
        assert(v.take(0) =~= Seq::empty());
        while i < self.decoded.len()
            invariant
                i <= self.decoded.len(),
                v == self@.decoded,
                known(v.take(i as int), url@) is None,
            decreases self.decoded.len() - i,
        {
            assert(v.take(i + 1).drop_last() =~= v.take(i as int));
            assert(v[i as int] == (self.decoded@[i as int].0@, self.decoded@[i as int].1@));
            if text::same(&self.decoded[i].0, url) {
                proof {
                    lemma_known_prefix(v, url@, i + 1);
                }
                return Some(&self.decoded[i].1);
            }
            i = i + 1;
        }
        assert(v.take(self.decoded@.len() as int) =~= v);
        None
    }

    fn learn(&mut self, url: &str, o: Outcome)
        ensures
            final(self)@ == learnt(old(self)@, url@, o@),
            old(self).wf() && o@.wf() ==> final(self).wf(),
    {
        let ghost before = self@.decoded;
        let ghost ov = o@;
        self.decoded.push((text::owned(url), o));
        assert(self@.decoded =~= before.push((url@, ov)));
    }

    /// What has to be read for the image at `url`.
    pub fn want(&mut self, url: &str) -> (r: Want)
        ensures
            (r@, final(self)@) == wanted(old(self)@, url@),
            old(self).wf() ==> final(self).wf(),
    {
        if self.find(url).is_some() {
            return Want::Nothing;
        }
        if text::has_prefix(url, "data:") {
            proof {
                reveal_strlit("data:");
            }
            let v = text::chars_of(url);
            return match decode_data_uri(&text::string_of_range(&v, 5, v.len())) {
                Some(bytes) => Want::Bytes(bytes),
                None => {
                    self.learn(
                        url,
                        Outcome::Failed(ImageProblem::Unreadable(text::owned("bad data URI"))),
                    );
                    Want::Nothing
                },
            };
        }
        if text::has_prefix(url, "http://") || text::has_prefix(url, "https://") {
            if self.remote == RemotePolicy::Deny {
                self.skipped_remote = true;
                self.learn(url, Outcome::Failed(ImageProblem::RemoteBlocked));
                return Want::Nothing;
            }
            return Want::Download(text::owned(url));
        }
        Want::File(resolve_path(&self.base_dir, url))
    }

    /// Remembers what came of reading the image at `url`. Bytes that look like a vector
    /// image are handed back, to be rendered elsewhere.
    pub fn keep(&mut self, url: &str, read: Result<Vec<u8>, ImageProblem>) -> (r: Option<Vec<u8>>)
        ensures
            match read {
                Err(p) => r is None && final(self)@ == learnt(
                    old(self)@,
                    url@,
                    OutcomeV::Failed(p@),
                ),
                Ok(bytes) => if is_svg_text(utf8_lossy(svg_head(bytes@))) {
                    opt_bytes(r) == Some(bytes@) && final(self)@ == old(self)@
                } else {
                    r is None && final(self)@ == learnt(
                        old(self)@,
                        url@,
                        raster_outcome(
                            decoding(
                                format_name(bytes@),
                                image_size(bytes@),
                                image_pixels(bytes@),
                            ),
                        ),
                    )
                },
            },
            old(self).wf() ==> final(self).wf(),
    {
        match read {
            Err(p) => {
                self.learn(url, Outcome::Failed(p));
                None
            },
            Ok(bytes) => {
                if looks_like_svg(&bytes) {
                    return Some(bytes);
                }
                let decoded = decode(&bytes);
                self.keep_raster(url, decoded);
                None
            },
        }
    }

    /// Remembers what came of decoding a bitmap.
    pub fn keep_raster(&mut self, url: &str, decoded: Decoded)
        requires
            decoded matches Decoded::Picture(p) ==> p.wf(),
        ensures
            final(self)@ == learnt(old(self)@, url@, raster_outcome(decoded@)),
            old(self).wf() ==> final(self).wf(),
    {
        match decoded {
            Decoded::Picture(p) => self.learn(url, Outcome::Raster(p)),
            Decoded::Unsupported(what) => self.learn(
                url,
                Outcome::Failed(ImageProblem::Unsupported(what)),
            ),
            Decoded::TooLarge => self.learn(url, Outcome::Failed(ImageProblem::TooLarge)),
        }
    }

    /// Remembers what came of reading a vector image: its size, or why it is none.
    pub fn keep_vector(&mut self, url: &str, size: Result<(u32, u32), String>)
        ensures
            final(self)@ == learnt(old(self)@, url@, vector_outcome(size)),
            old(self).wf() ==> final(self).wf(),
    {
        match size {
            Ok((w, h)) => self.learn(url, Outcome::Vector(w, h)),
            Err(why) => {
                let mut s = text::owned("bad SVG: ");
                s.push_str(&why);
                self.learn(url, Outcome::Failed(ImageProblem::Unreadable(s)));
            },
        }
    }

    /// The size in pixels of the image at `url`, if it was loaded.
    pub fn size(&self, url: &str) -> (r: Option<(u32, u32)>)
        ensures
            r == (match known(self@.decoded, url@) {
                Some(OutcomeV::Raster(p)) => Some((p.width, p.height)),
                Some(OutcomeV::Vector(w, h)) => Some((w, h)),
                _ => None,
            }),
    {
        match self.find(url) {
            Some(Outcome::Raster(p)) => Some((p.width, p.height)),
            Some(Outcome::Vector(w, h)) => Some((*w, *h)),
            _ => None,
        }
    }

    /// Why the image at `url` is not showing, if it has already been tried.
    pub fn recorded_problem(&self, url: &str) -> (r: Option<ImageProblem>)
        ensures
            (match r {
                Some(p) => Some(p@),
                None => None,
            }) == (match known(self@.decoded, url@) {
                Some(OutcomeV::Failed(p)) => Some(p),
                _ => None,
            }),
    {
        match self.find(url) {
            Some(Outcome::Failed(p)) => Some(p.copy()),
            _ => None,
        }
    }

    /// The box in pixels that a vector image has to be rendered for, if the request
    /// asks for one and was not made before.
    pub fn rendering(&self, request: &ImageRequest) -> (r: Option<(u32, u32)>)
        ensures
            r == (if remembered(self@.encoded, key_of(request@)) is None && shows(
                self@,
                request@,
            ) && known(self@.decoded, request.image.url@) matches Some(OutcomeV::Vector(_, _)) {
                let (w, h, _) = pixel_box(self@, request@);
                Some((w as u32, h as u32))
            } else {
                None
            }),
    {
        if self.recall(request).is_some() || !self.draws(request) {
            return None;
        }
        match self.find(&request.image.url) {
            Some(Outcome::Vector(_, _)) => {
                let (w, h, _) = self.box_of(request);
                Some((w, h))
            },
            _ => None,
        }
    }

    fn draws(&self, request: &ImageRequest) -> (r: bool)
        ensures
            r == shows(self@, request@),
    {
        request.cols > 0 && request.visible_rows() > 0 && self.protocol != GraphicsProtocol::Off
    }

    fn box_of(&self, request: &ImageRequest) -> (r: (u32, u32, u32))
        ensures
            (r.0 as int, r.1 as int, r.2 as int) == pixel_box(self@, request@),
            1 <= r.2 <= 65535,
            request.cols > 0 ==> r.0 > 0,
            request.rows > 0 ==> r.1 > 0,
    {
        if self.protocol == GraphicsProtocol::Blocks {
            return (request.cols as u32, request.rows as u32 * 2, 2);
        }
        let w: u32 = if self.cell_px.0 == 0 {
            1
        } else {
            self.cell_px.0 as u32
        };
        let h: u32 = if self.cell_px.1 == 0 {
            1
        } else {
            self.cell_px.1 as u32
        };
        let cols = request.cols;
        let rows = request.rows;
        assert(cols * w <= 65535 * 65535 && rows * h <= 65535 * 65535) by (nonlinear_arith)
            requires
                0 <= cols <= 65535,
                0 <= w <= 65535,
                0 <= rows <= 65535,
                0 <= h <= 65535,
        ;
        assert(cols > 0 ==> cols * w > 0) by (nonlinear_arith)
            requires
                w > 0,
        ;
        assert(rows > 0 ==> rows * h > 0) by (nonlinear_arith)
            requires
                h > 0,
        ;
        (cols as u32 * w, rows as u32 * h, h)
    }

    fn recall(&self, request: &ImageRequest) -> (r: Option<Option<String>>)
        ensures
            (match r {
                Some(s) => Some(opt_text(s)),
                None => None,
            }) == remembered(self@.encoded, key_of(request@)),
    {
        let ghost v = self@.encoded;
        let ghost key = key_of(request@);
        let mut i: usize = 0;
        assert(v.take(0) =~= Seq::empty());
        while i < self.encoded.len()
            invariant
                i <= self.encoded.len(),
                v == self@.encoded,
                key == key_of(request@),
                remembered(v.take(i as int), key) is None,
            decreases self.encoded.len() - i,
        {
            assert(v.take(i + 1).drop_last() =~= v.take(i as int));
            let k = &self.encoded[i].0;
            assert(v[i as int] == (k@, opt_text(self.encoded@[i as int].1)));
            if text::same(&k.url, &request.image.url) && k.cols == request.cols && k.rows
                == request.rows && k.skip_top == request.skip_top && k.skip_bottom
                == request.skip_bottom && k.indent == request.indent {
                assert(k@ == key);
                proof {
                    lemma_remembered_prefix(v, key, i + 1);
                }
                return Some(
                    match &self.encoded[i].1 {
                        Some(s) => Some(text::owned(s)),
                        None => None,
                    },
                );
            }
            i = i + 1;
        }
        assert(v.take(self.encoded@.len() as int) =~= v);
        None
    }

    /// The sequence that draws a request, and `rendered` where it is for a vector image
    /// that was rendered for it.
    pub fn encode(&mut self, request: &ImageRequest, rendered: Option<Picture>) -> (r: Option<
        String,
    >)
        requires
            old(self).wf(),
            rendered matches Some(p) ==> p.wf(),
        ensures
            final(self).wf(),
            (opt_text(r), final(self)@) == answered(
                old(self)@,
                request@,
                opt_picture_view(rendered),
            ),
    {
        match self.recall(request) {
            Some(sequence) => sequence,
            None => {
                let sequence = self.encode_uncached(request, rendered);
                let ghost before = self@;
                if sequence.is_some() {
                    self.next_id = if self.next_id == u32::MAX {
                        1
                    } else {
                        self.next_id + 1
                    };
                }
                let key = EncodingKey {
                    url: text::owned(&request.image.url),
                    cols: request.cols,
                    rows: request.rows,
                    skip_top: request.skip_top,
                    skip_bottom: request.skip_bottom,
                    indent: request.indent,
                };
                let copy = match &sequence {
                    Some(s) => Some(text::owned(s)),
                    None => None,
                };
                self.encoded.push((key, copy));
                assert(self@.encoded =~= before.encoded.push(
                    (key_of(request@), opt_text(sequence)),
                ));
                sequence
            },
        }
    }

    fn encode_uncached(&self, request: &ImageRequest, rendered: Option<Picture>) -> (r: Option<
        String,
    >)
        requires
            self.wf(),
            rendered matches Some(p) ==> p.wf(),
        ensures
            opt_text(r) == encoding(self@, request@, opt_picture_view(rendered)),
    {
        if !self.draws(request) {
            return None;
        }
        let (w, h, unit) = self.box_of(request);
        let source = match self.find(&request.image.url) {
            Some(Outcome::Raster(p)) => fit(p, w, h),
            Some(Outcome::Vector(_, _)) => match rendered {
                Some(p) => p,
                None => {
                    return None;
                },
            },
            _ => {
                return None;
            },
        };
        let top = request.skip_top;
        let bottom = request.skip_bottom;
        assert(0 <= top * unit <= 65535 * 65535 && 0 <= bottom * unit <= 65535 * 65535)
            by (nonlinear_arith)
            requires
                0 <= top <= 65535,
                0 <= bottom <= 65535,
                0 <= unit <= 65535,
        ;
        let cut = crop(&source, top as u32 * unit, bottom as u32 * unit);
        let rows = request.visible_rows();
        match self.protocol {
            GraphicsProtocol::Kitty => kitty::encode(&cut, request.cols, rows, self.next_id),
            GraphicsProtocol::ITerm2 => iterm2::encode_named(&cut, &request.image.url, request.cols, rows),
            GraphicsProtocol::Sixel => sixel::encode(&cut),
            GraphicsProtocol::Blocks => Some(
                blocks::encode_with_depth(&cut, request.indent, self.color),
            ),
            GraphicsProtocol::Off => None,
        }
    }
}

proof fn lemma_known_prefix(s: Seq<(Seq<char>, OutcomeV)>, url: Seq<char>, n: int)
    requires
        0 <= n <= s.len(),
        known(s.take(n), url) is Some,
    ensures
        known(s, url) == known(s.take(n), url),
    decreases s.len() - n,
{
    if n < s.len() {
        assert(s.take(n + 1).drop_last() =~= s.take(n));
        lemma_known_prefix(s, url, n + 1);
    } else {
        assert(s.take(n) =~= s);
    }
}

proof fn lemma_remembered_prefix(s: Seq<(KeyV, Option<Seq<char>>)>, key: KeyV, n: int)
    requires
        0 <= n <= s.len(),
        remembered(s.take(n), key) is Some,
    ensures
        remembered(s, key) == remembered(s.take(n), key),
    decreases s.len() - n,
{
    if n < s.len() {
        assert(s.take(n + 1).drop_last() =~= s.take(n));
        lemma_remembered_prefix(s, key, n + 1);
    } else {
        assert(s.take(n) =~= s);
    }
}

// --- laws ----------------------------------------------------------------------------------------

/// A request that was answered once gets the same answer again, and asking again
/// changes nothing.
pub proof fn answers_are_remembered(
    s: StoreV,
    r: RequestV,
    rendered: Option<PictureV>,
    again: Option<PictureV>,
)
    ensures
        answered(answered(s, r, rendered).1, r, again) == answered(s, r, rendered),
{
    let after = answered(s, r, rendered).1;
    if remembered(s.encoded, key_of(r)) is None {
        assert(after.encoded.drop_last() =~= s.encoded);
    }
}

/// A failure is remembered: once a URL has been tried, nothing more is wanted for it.
pub proof fn failures_stay(s: StoreV, url: Seq<char>, o: OutcomeV)
    requires
        known(s.decoded, url) is None,
    ensures
        known(learnt(s, url, o).decoded, url) == Some(o),
        wanted(learnt(s, url, o), url) == (WantV::Nothing, learnt(s, url, o)),
{
    assert(learnt(s, url, o).decoded.drop_last() =~= s.decoded);
}

/// Without leave nothing is fetched, and that it was not is recorded.
pub proof fn remote_images_need_leave(s: StoreV, url: Seq<char>)
    requires
        s.remote == RemotePolicy::Deny,
    ensures
        !(wanted(s, url).0 is Download),
        known(s.decoded, url) is None && is_remote(url) && !text::starts_with(url, "data:"@)
            ==> wanted(s, url).1.skipped_remote && known(wanted(s, url).1.decoded, url) == Some(
            OutcomeV::Failed(ProblemV::RemoteBlocked),
        ),
{
    if known(s.decoded, url) is None && is_remote(url) {
        failures_stay(
            StoreV { skipped_remote: true, ..s },
            url,
            OutcomeV::Failed(ProblemV::RemoteBlocked),
        );
    }
}

} // verus!
