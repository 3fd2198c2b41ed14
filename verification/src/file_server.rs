//! Serving files from a directory: which file answers a request path, and
//! what the answer's head says about it.
//!
//! Opening and reading files is the server's part; it reports what it
//! found and this module decides the status and headers: the content type
//! from the file's extension, the content encoding negotiated from
//! `Accept-Encoding`, and the entity tag, answering `304 Not Modified` when
//! the client already holds it.

use vstd::prelude::*;
use vstd::string::StringSliceAdditionalSpecFns;
use vstd::utf8::encode_utf8;

use crate::response::{
    lemma_plain_header_name, lemma_visible_header_value, valid_status, visible_text, body_bytes, finished, header_text, header_text_of, with_header, with_status, HandlerResponse, Response,
    ResponseBody, ResponseError, ResponseState,
};
use crate::text::{
    chars_of, concat_str, contains_text, find_text, hex, push_hex, push_zero_padded, string_of, trim_start_char,
    leading_count, zero_padded,
};

verus! {

/// A file system path (`std::path::PathBuf`).
#[verifier::external_type_specification]
#[verifier::external_body]
pub struct ExPathBuf(std::path::PathBuf);

/// What `Path::extension` gives for `path`: the part of the file name after
/// its last `.`, if the name has one that does not start it.
pub uninterp spec fn path_extension(path: Seq<char>) -> Option<Seq<char>>;

/// `std::path::Path::extension` of a path given as text; the extension of
/// text is itself text.
#[verifier::external_body]
fn extension_of(path: &str) -> (r: Option<String>)
    ensures
        match r {
            None => path_extension(path@) is None,
            Some(e) => path_extension(path@) == Some(e@),
        },
{
    std::path::Path::new(path).extension().and_then(|e| e.to_str()).map(|e| e.to_string())
}

/// The MIME type `mime_guess` gives first for an extension, or
/// `application/octet-stream` when it knows none.
pub uninterp spec fn mime_for(ext: Seq<char>) -> Seq<char>;

/// `mime_guess::from_ext(ext).first_or_octet_stream()` as text. An empty
/// extension has no guess, so it gives `application/octet-stream`. The text
/// is that of a media type parsed by `mime` from `mime_guess`'s table, whose
/// entries are made of ASCII letters, digits and `.`, `-`, `_`, `+`, `/`, so
/// it is visible ASCII.
#[verifier::external_body]
fn mime_type(ext: &str) -> (r: String)
    ensures
        r@ == mime_for(ext@),
        visible_text(r@),
        ext@.len() == 0 ==> r@ == "application/octet-stream"@,
{
    mime_guess::from_ext(ext).first_or_octet_stream().to_string()
}

/// How the entity tag of a file is made.
#[derive(Clone, Copy, Debug, PartialEq, Eq, Structural)]
pub enum ETagStrategy {
    /// From a hash of the file's contents (slower).
    Hash,
    /// From the file's modification time and length (faster).
    LastModified,
    /// No entity tag.
    Disabled,
}

impl Default for ETagStrategy {
    fn default() -> (r: ETagStrategy)
        ensures
            r == ETagStrategy::LastModified,
    {
        ETagStrategy::LastModified
    }
}

/// How files are served.
pub struct FileServerOptions {
    /// The directory files are served from.
    pub dir: std::path::PathBuf,
    /// Whether to compress responses the client accepts compressed.
    pub compress: bool,
    /// How entity tags are made.
    pub etag: ETagStrategy,
    /// Headers added to every response, in order.
    pub custom_headers: Vec<(String, String)>,
    /// The file served when the requested one cannot be opened, relative to
    /// `dir`; `404.html` when not given.
    pub fallback_route: Option<String>,
    /// The status sent with the fallback file; `404` when not given.
    pub fallback_status: Option<http::StatusCode>,
}

/// An HTTP status code (`http::StatusCode`).
#[verifier::external_type_specification]
#[verifier::external_body]
pub struct ExStatusCode(http::StatusCode);

/// The number of a status code.
pub uninterp spec fn status_code_value(s: http::StatusCode) -> u16;

/// `http::StatusCode::as_u16`: the code's number. A `StatusCode` can only be
/// made for the numbers `100..=999`, so the number is a valid status.
#[verifier::external_body]
fn status_as_u16(s: &http::StatusCode) -> (r: u16)
    ensures
        r == status_code_value(*s),
        valid_status(r),
{
    s.as_u16()
}

/// The content encodings a file can be sent with.
#[derive(Clone, Copy, Debug, PartialEq, Eq, Structural)]
pub enum Encoding {
    Zstd,
    Brotli,
    Gzip,
    Identity,
}

/// The `Content-Encoding` value of an encoding, if it has one.
pub open spec fn encoding_name(e: Encoding) -> Option<Seq<char>> {
    match e {
        Encoding::Zstd => Some("zstd"@),
        Encoding::Brotli => Some("br"@),
        Encoding::Gzip => Some("gzip"@),
        Encoding::Identity => None,
    }
}

impl Encoding {
    /// The value sent in the `Content-Encoding` header, if any.
    pub fn header_value(&self) -> (r: Option<&'static str>)
        ensures
            match r {
                None => encoding_name(*self) is None,
                Some(s) => encoding_name(*self) == Some(s@),
            },
    {
        match self {
            Encoding::Zstd => Some("zstd"),
            Encoding::Brotli => Some("br"),
            Encoding::Gzip => Some("gzip"),
            Encoding::Identity => None,
        }
    }

    /// Mixed into the entity tag, so that the encodings of one file do not
    /// share a cache entry: the encoding's name, or nothing.
    pub fn etag_suffix(&self) -> (r: &'static str)
        ensures
            r@ == match encoding_name(*self) {
                Some(n) => n,
                None => Seq::<char>::empty(),
            },
    {
        match self.header_value() {
            Some(v) => v,
            None => {
                proof {
                    reveal_strlit("");
                }
                ""
            },
        }
    }
}

/// The encoding chosen for a request whose `Accept-Encoding` header has the
/// bytes `accept` (`None` when it has none): only when compressing, and the
/// header reads as text, the first of `zstd`, `br`, `gz` it mentions.
pub open spec fn negotiated(accept: Option<Seq<u8>>, compress: bool) -> Encoding {
    if !compress {
        Encoding::Identity
    } else {
        match accept {
            None => Encoding::Identity,
            Some(bytes) => match header_text_of(bytes) {
                None => Encoding::Identity,
                Some(text) => if contains_text(text, "zstd"@) {
                    Encoding::Zstd
                } else if contains_text(text, "br"@) {
                    Encoding::Brotli
                } else if contains_text(text, "gz"@) {
                    Encoding::Gzip
                } else {
                    Encoding::Identity
                },
            },
        }
    }
}

/// The bytes of an optional header value, as a sequence.
pub open spec fn opt_bytes(b: Option<&[u8]>) -> Option<Seq<u8>> {
    match b {
        Some(v) => Some(v@),
        None => None,
    }
}

/// Chooses the content encoding for a request.
pub fn negotiate_encoding(accept: Option<&[u8]>, compress: bool) -> (r: Encoding)
    ensures
        r == negotiated(opt_bytes(accept), compress),
{
    if !compress {
        return Encoding::Identity;
    }
    let bytes = match accept {
        None => return Encoding::Identity,
        Some(b) => b,
    };
    let text = match header_text(bytes) {
        None => return Encoding::Identity,
        Some(t) => t,
    };
    let cs = chars_of(text.as_str());
    if find_text(&cs, &chars_of("zstd")) {
        Encoding::Zstd
    } else if find_text(&cs, &chars_of("br")) {
        Encoding::Brotli
    } else if find_text(&cs, &chars_of("gz")) {
        Encoding::Gzip
    } else {
        Encoding::Identity
    }
}

/// Whether the client lacks the version with entity tag `etag`: it does
/// unless its `If-None-Match` header (`if_none_match`) has exactly the
/// tag's bytes.
pub fn has_modified(if_none_match: Option<&[u8]>, etag: &str) -> (r: bool)
    ensures
        r == !(if_none_match matches Some(b) && b@ == etag.spec_bytes()),
{
    match if_none_match {
        None => true,
        Some(b) => {
            let e = etag.as_bytes();
            if b.len() != e.len() {
                return true;
            }
            let mut i: usize = 0;
            while i < b.len()
                invariant
                    e@ == etag.spec_bytes(),
                    if_none_match == Some(b),
                    b@.len() == e@.len(),
                    i <= b@.len(),
                    forall|j: int| 0 <= j < i ==> b@[j] == e@[j],
                decreases b@.len() - i,
            {
                if b[i] != e[i] {
                    assert(b@[i as int] != e@[i as int]);
                    return true;
                }
                i += 1;
            }
            assert(b@ =~= e@);
            false
        },
    }
}

/// Whether a `..` segment starts at index `i` of `p`.
pub open spec fn parent_segment_at(p: Seq<char>, i: int) -> bool {
    &&& 0 <= i && i + 2 <= p.len()
    &&& p[i] == '.' && p[i + 1] == '.'
    &&& (i == 0 || p[i - 1] == '/')
    &&& (i + 2 == p.len() || p[i + 2] == '/')
}

/// Whether `p` has a `..` segment, one that names a parent directory.
pub open spec fn has_parent_segment(p: Seq<char>) -> bool {
    exists|i: int| #[trigger] parent_segment_at(p, i)
}

/// The segments kept after one more segment `seg` of a path: a `..`
/// segment removes the last kept segment (there is none above the served
/// directory to go back to); any other segment is kept.
pub open spec fn resolve_step(kept: Seq<Seq<char>>, seg: Seq<char>) -> Seq<Seq<char>> {
    if seg == seq!['.', '.'] {
        if kept.len() > 0 {
            kept.drop_last()
        } else {
            kept
        }
    } else {
        kept.push(seg)
    }
}

/// The state after reading `s` character by character: the segments kept
/// so far and the segment being read.
pub open spec fn scan_path(s: Seq<char>) -> (Seq<Seq<char>>, Seq<char>)
    decreases s.len(),
{
    if s.len() == 0 {
        (Seq::empty(), Seq::empty())
    } else {
        let (kept, seg) = scan_path(s.drop_last());
        if s.last() == '/' {
            (resolve_step(kept, seg), Seq::empty())
        } else {
            (kept, seg.push(s.last()))
        }
    }
}

/// Segments joined by `/`.
pub open spec fn join_segments(segs: Seq<Seq<char>>) -> Seq<char>
    decreases segs.len(),
{
    if segs.len() == 0 {
        Seq::empty()
    } else if segs.len() == 1 {
        segs[0]
    } else {
        join_segments(segs.drop_last()) + seq!['/'] + segs.last()
    }
}

/// `s` with each `..` segment resolved against the segment before it, as
/// the file system would, except that it never goes above the start.
pub open spec fn resolve_parents(s: Seq<char>) -> Seq<char> {
    let (kept, seg) = scan_path(s);
    join_segments(resolve_step(kept, seg))
}

/// The file a request path names, relative to the served directory: `/`
/// names `index.html`; a path with an extension names itself; any other
/// path names itself with `.html` added. Leading `/`s are dropped, and `..`
/// segments are resolved, never above the served directory, so that no
/// file outside it is named.
pub open spec fn file_for(path: Seq<char>) -> Seq<char> {
    let relative = path.skip(leading_count(path, '/') as int);
    let named = if path == seq!['/'] {
        "index.html"@
    } else if path_extension(path) is Some {
        relative
    } else {
        relative + ".html"@
    };
    let resolved = resolve_parents(named);
    resolved.skip(leading_count(resolved, '/') as int)
}

/// The file that answers a request path.
pub fn determine_file(input: &str) -> (r: String)
    ensures
        r@ == file_for(input@),
{
    let cs = chars_of(input);
    let named = if cs.len() == 1 && cs[0] == '/' {
        assert(input@ =~= seq!['/']);
        String::from_str("index.html")
    } else {
        proof {
            if input@ == seq!['/'] {
                assert(cs@.len() == 1 && cs@[0] == '/');
            }
        }
        let relative = string_of(&trim_start_char(&cs, '/'));
        match extension_of(input) {
            Some(_) => relative,
            None => concat_str(relative.as_str(), ".html"),
        }
    };
    let resolved = resolve_parent_segments(&chars_of(named.as_str()));
    string_of(&trim_start_char(&resolved, '/'))
}

/// The character sequences of a list of segments.
pub open spec fn segments_view(v: Seq<Vec<char>>) -> Seq<Seq<char>> {
    v.map_values(|x: Vec<char>| x@)
}

/// Takes the segment `seg` into the kept segments.
fn take_segment(kept: &mut Vec<Vec<char>>, seg: Vec<char>)
    ensures
        segments_view(final(kept)@) == resolve_step(segments_view(old(kept)@), seg@),
{
    if seg.len() == 2 && seg[0] == '.' && seg[1] == '.' {
        assert(seg@ =~= seq!['.', '.']);
        if kept.len() > 0 {
            let _ = kept.pop();
            assert(segments_view(kept@) =~= segments_view(old(kept)@).drop_last());
        }
    } else {
        assert(seg@ != seq!['.', '.']) by {
            if seg@ == seq!['.', '.'] {
                assert(seg@.len() == 2 && seg@[0] == '.' && seg@[1] == '.');
            }
        }
        let ghost v = seg@;
        kept.push(seg);
        assert(segments_view(kept@) =~= segments_view(old(kept)@).push(v));
    }
}

/// The segments joined by `/`.
fn join_with_slashes(kept: &Vec<Vec<char>>) -> (r: Vec<char>)
    ensures
        r@ == join_segments(segments_view(kept@)),
{
    let ghost segs = segments_view(kept@);
    let mut out: Vec<char> = Vec::new();
    let mut i: usize = 0;
    assert(segs.take(0) =~= Seq::<Seq<char>>::empty());
    while i < kept.len()
        invariant
            segs == segments_view(kept@),
            i <= kept@.len(),
            out@ == join_segments(segs.take(i as int)),
        decreases kept@.len() - i,
    {
        let ghost before = out@;
        if i > 0 {
            out.push('/');
        }
        let ghost base = out@;
        let seg = &kept[i];
        let mut j: usize = 0;
        while j < seg.len()
            invariant
                j <= seg@.len(),
                out@ == base + seg@.take(j as int),
            decreases seg@.len() - j,
        {
            out.push(seg[j]);
            assert(seg@.take(j + 1) =~= seg@.take(j as int).push(seg@[j as int]));
            j += 1;
        }
        assert(seg@.take(seg@.len() as int) =~= seg@);
        assert(segs[i as int] == seg@);
        assert(segs.take(i + 1).drop_last() =~= segs.take(i as int));
        assert(segs.take(i + 1).last() == seg@);
        if i == 0 {
            assert(out@ =~= seg@);
            assert(segs.take(1)[0] == seg@);
        } else {
            assert(out@ =~= before + seq!['/'] + seg@);
        }
        i += 1;
    }
    assert(segs.take(kept@.len() as int) =~= segs);
    out
}

/// The characters `cs` with their `..` segments resolved.
fn resolve_parent_segments(cs: &Vec<char>) -> (r: Vec<char>)
    ensures
        r@ == resolve_parents(cs@),
{
    let mut kept: Vec<Vec<char>> = Vec::new();
    let mut seg: Vec<char> = Vec::new();
    let mut i: usize = 0;
    assert(cs@.take(0) =~= Seq::<char>::empty());
    assert(segments_view(kept@) =~= Seq::<Seq<char>>::empty());
    while i < cs.len()
        invariant
            i <= cs@.len(),
            (segments_view(kept@), seg@) == scan_path(cs@.take(i as int)),
        decreases cs@.len() - i,
    {
        let c = cs[i];
        assert(cs@.take(i + 1).drop_last() =~= cs@.take(i as int));
        if c == '/' {
            take_segment(&mut kept, seg);
            seg = Vec::new();
        } else {
            seg.push(c);
        }
        i += 1;
    }
    assert(cs@.take(cs@.len() as int) =~= cs@);
    take_segment(&mut kept, seg);
    join_with_slashes(&kept)
}

/// A segment that can be kept: no `/` in it, and not `..`.
pub open spec fn plain_segment(seg: Seq<char>) -> bool {
    &&& forall|j: int| 0 <= j < seg.len() ==> #[trigger] seg[j] != '/'
    &&& seg != seq!['.', '.']
}

/// A single segment that is not `..` has no `..` segment.
proof fn lemma_plain_segment(seg: Seq<char>)
    requires
        forall|j: int| 0 <= j < seg.len() ==> #[trigger] seg[j] != '/',
        seg != seq!['.', '.'],
    ensures
        !has_parent_segment(seg),
{
    if has_parent_segment(seg) {
        let i = choose|i: int| #[trigger] parent_segment_at(seg, i);
        if i > 0 {
            assert(seg[i - 1] != '/');
        } else if i + 2 < seg.len() {
            assert(seg[i + 2] != '/');
        } else {
            assert(seg =~= seq!['.', '.']);
        }
    }
}

/// Joining a path without `..` segments and a segment that is not `..`
/// gives a path without `..` segments.
proof fn lemma_join_segment(out: Seq<char>, seg: Seq<char>)
    requires
        !has_parent_segment(out),
        forall|j: int| 0 <= j < seg.len() ==> #[trigger] seg[j] != '/',
        seg != seq!['.', '.'],
    ensures
        !has_parent_segment(out + seq!['/'] + seg),
{
    let t = out + seq!['/'] + seg;
    let n = out.len() as int;
    if has_parent_segment(t) {
        let i = choose|i: int| #[trigger] parent_segment_at(t, i);
        if i + 1 < n {
            assert(parent_segment_at(out, i));
        } else if i <= n {
            assert(t[n] == '/');
        } else if i > n + 1 {
            assert(t[i - 1] == seg[i - 1 - n - 1]);
        } else if i + 2 == t.len() {
            assert(seg =~= seq!['.', '.']);
        } else {
            assert(t[i + 2] == seg[2]);
        }
    }
}

/// Plain segments joined by `/` hold no `..` segment.
proof fn lemma_join_plain(segs: Seq<Seq<char>>)
    requires
        forall|i: int| 0 <= i < segs.len() ==> plain_segment(#[trigger] segs[i]),
    ensures
        !has_parent_segment(join_segments(segs)),
    decreases segs.len(),
{
    if segs.len() == 0 {
        assert(!has_parent_segment(Seq::<char>::empty()));
    } else if segs.len() == 1 {
        assert(plain_segment(segs[0]));
        lemma_plain_segment(segs[0]);
    } else {
        let init = segs.drop_last();
        assert forall|i: int| 0 <= i < init.len() implies plain_segment(#[trigger] init[i]) by {
            assert(init[i] == segs[i]);
        }
        lemma_join_plain(init);
        assert(plain_segment(segs[segs.len() - 1]));
        lemma_join_segment(join_segments(init), segs.last());
    }
}

/// Every segment kept while reading a path is plain, and the segment being
/// read holds no `/`.
proof fn lemma_scan_path(s: Seq<char>)
    ensures
        forall|i: int| 0 <= i < scan_path(s).0.len() ==> plain_segment(#[trigger] scan_path(s).0[i]),
        forall|j: int| 0 <= j < scan_path(s).1.len() ==> #[trigger] scan_path(s).1[j] != '/',
    decreases s.len(),
{
    if s.len() > 0 {
        lemma_scan_path(s.drop_last());
        let (kept, seg) = scan_path(s.drop_last());
        if s.last() == '/' {
            lemma_resolve_step(kept, seg);
        } else {
            assert forall|j: int| 0 <= j < seg.push(s.last()).len() implies #[trigger] seg.push(s.last())[j] != '/' by {
                if j < seg.len() {
                    assert(seg.push(s.last())[j] == seg[j]);
                }
            }
        }
    }
}

/// Taking a segment without `/` keeps every kept segment plain.
proof fn lemma_resolve_step(kept: Seq<Seq<char>>, seg: Seq<char>)
    requires
        forall|i: int| 0 <= i < kept.len() ==> plain_segment(#[trigger] kept[i]),
        forall|j: int| 0 <= j < seg.len() ==> #[trigger] seg[j] != '/',
    ensures
        forall|i: int| 0 <= i < resolve_step(kept, seg).len() ==> plain_segment(#[trigger] resolve_step(kept, seg)[i]),
{
    let r = resolve_step(kept, seg);
    assert forall|i: int| 0 <= i < r.len() implies plain_segment(#[trigger] r[i]) by {
        if seg == seq!['.', '.'] {
            if kept.len() > 0 {
                assert(r[i] == kept[i]);
            }
        } else if i < kept.len() {
            assert(r[i] == kept[i]);
        }
    }
}

/// Dropping leading `/`s keeps a path free of `..` segments.
proof fn lemma_skip_slashes(p: Seq<char>)
    requires
        !has_parent_segment(p),
    ensures
        !has_parent_segment(p.skip(leading_count(p, '/') as int)),
        leading_count(p, '/') < p.len() ==> p.skip(leading_count(p, '/') as int)[0] != '/',
{
    crate::text::lemma_leading_count_bounds(p, '/');
    let k = leading_count(p, '/') as int;
    let q = p.skip(k);
    if has_parent_segment(q) {
        let i = choose|i: int| #[trigger] parent_segment_at(q, i);
        assert(q[i] == p[i + k] && q[i + 1] == p[i + k + 1]);
        if i == 0 && k > 0 {
            assert(p[k - 1] == '/');
        }
        if i + 2 < q.len() {
            assert(q[i + 2] == p[i + k + 2]);
        }
        if i > 0 {
            assert(q[i - 1] == p[i + k - 1]);
        }
        assert(parent_segment_at(p, i + k));
    }
}

/// Every `..` segment of `s`, if any, ends it.
pub open spec fn parents_only_at_end(s: Seq<char>) -> bool {
    forall|i: int| #[trigger] parent_segment_at(s, i) ==> i + 2 == s.len()
}

/// Reading a path whose only `..` segment, if any, is the last one keeps
/// every completed segment: joined again with the segment being read, they
/// give the path back. The segment being read is what follows the last `/`.
proof fn lemma_scan_keeps_segments(s: Seq<char>)
    requires
        parents_only_at_end(s),
    ensures
        join_segments(scan_path(s).0.push(scan_path(s).1)) == s,
        scan_path(s).1.len() <= s.len(),
        scan_path(s).1 == s.skip(s.len() - scan_path(s).1.len()),
        scan_path(s).1.len() < s.len() ==> s[s.len() - scan_path(s).1.len() - 1] == '/',
    decreases s.len(),
{
    if s.len() == 0 {
        assert(Seq::<Seq<char>>::empty().push(Seq::<char>::empty()).len() == 1);
        assert(s.skip(0) =~= s);
    } else {
        let t = s.drop_last();
        assert forall|i: int| #[trigger] parent_segment_at(t, i) implies i + 2 == t.len() by {
            if i + 2 < t.len() {
                assert(s[i] == t[i] && s[i + 1] == t[i + 1] && s[i + 2] == t[i + 2]);
                if i > 0 {
                    assert(s[i - 1] == t[i - 1]);
                }
                assert(parent_segment_at(s, i));
            }
        }
        lemma_scan_keeps_segments(t);
        let (kept, seg) = scan_path(t);
        let c = s.last();
        if c == '/' {
            if seg == seq!['.', '.'] {
                let i = t.len() - 2;
                assert(s[i] == t[i] && s[i + 1] == t[i + 1]);
                assert(t[i] == seg[0] && t[i + 1] == seg[1]);
                if i > 0 {
                    assert(s[i - 1] == t[i - 1]);
                }
                assert(parent_segment_at(s, i));
                assert(false);
            }
            let k2 = kept.push(seg);
            let k3 = k2.push(Seq::<char>::empty());
            assert(scan_path(s).0 == k2);
            assert(k3.drop_last() =~= k2);
            assert(join_segments(k3) == join_segments(k2) + seq!['/'] + Seq::<char>::empty());
            assert(join_segments(k3) =~= s);
            assert(s.skip(s.len() as int) =~= Seq::<char>::empty());
        } else {
            let seg2 = seg.push(c);
            let k2 = kept.push(seg2);
            if kept.len() == 0 {
                assert(join_segments(kept.push(seg)) == seg);
                assert(join_segments(k2) == seg2);
                assert(seg2 =~= s);
            } else {
                assert(kept.push(seg).drop_last() =~= kept);
                assert(k2.drop_last() =~= kept);
                assert(join_segments(kept.push(seg)) == join_segments(kept) + seq!['/'] + seg);
                assert(join_segments(k2) == join_segments(kept) + seq!['/'] + seg2);
                let x = join_segments(kept) + seq!['/'];
                assert(t == x + seg);
                assert(s =~= t.push(c));
                assert(x + seg2 =~= (x + seg).push(c));
            }
            assert(seg2 =~= s.skip(s.len() - seg2.len()));
            if seg2.len() < s.len() {
                assert(s[s.len() - seg2.len() - 1] == t[t.len() - seg.len() - 1]);
            }
        }
    }
}

/// A path without `..` segments is left as it is when they are resolved.
proof fn lemma_resolve_plain(s: Seq<char>)
    requires
        !has_parent_segment(s),
    ensures
        resolve_parents(s) == s,
{
    lemma_scan_keeps_segments(s);
    let (kept, seg) = scan_path(s);
    if seg == seq!['.', '.'] {
        let i = s.len() - 2;
        assert(s[i] == seg[0] && s[i + 1] == seg[1]);
        assert(parent_segment_at(s, i));
    }
}

/// A request path without `..` segments names, character for character,
/// the path itself without its leading `/`s, followed by `.html` when it has
/// no extension; `/` names `index.html`.
pub proof fn law_plain_paths_name_themselves(path: Seq<char>)
    requires
        !has_parent_segment(path),
    ensures
        path == seq!['/'] ==> file_for(path) == "index.html"@,
        path != seq!['/'] && path_extension(path) is Some ==> file_for(path) == path.skip(leading_count(path, '/') as int),
        path != seq!['/'] && path_extension(path) is None ==> file_for(path) == path.skip(leading_count(path, '/') as int)
            + ".html"@,
{
    reveal_strlit("index.html");
    reveal_strlit(".html");
    lemma_skip_slashes(path);
    crate::text::lemma_leading_count_bounds(path, '/');
    let relative = path.skip(leading_count(path, '/') as int);
    let named = if path == seq!['/'] {
        "index.html"@
    } else if path_extension(path) is Some {
        relative
    } else {
        relative + ".html"@
    };
    if path == seq!['/'] {
        if has_parent_segment(named) {
            let i = choose|i: int| #[trigger] parent_segment_at(named, i);
            assert(named[i] == '.' && named[i + 1] == '.');
        }
    } else if path_extension(path) is None {
        if has_parent_segment(named) {
            let i = choose|i: int| #[trigger] parent_segment_at(named, i);
            if i + 1 < relative.len() {
                if i + 2 < relative.len() {
                    assert(named[i + 2] == relative[i + 2]);
                }
                assert(parent_segment_at(relative, i));
            } else {
                assert(named[relative.len() + 1int] == 'h');
            }
        }
        if relative.len() > 0 {
            assert(named[0] == relative[0]);
        }
    }
    lemma_resolve_plain(named);
    assert(named.len() == 0 || named[0] != '/');
    assert(leading_count(named, '/') == 0);
    assert(named.skip(0) =~= named);
}

/// Reading a segment without `/` only adds it to the segment being read.
proof fn lemma_scan_segment(x: Seq<char>, y: Seq<char>)
    requires
        forall|j: int| 0 <= j < y.len() ==> #[trigger] y[j] != '/',
    ensures
        scan_path(x + y) == (scan_path(x).0, scan_path(x).1 + y),
    decreases y.len(),
{
    if y.len() == 0 {
        assert(x + y =~= x);
        assert(scan_path(x).1 + y =~= scan_path(x).1);
    } else {
        let y0 = y.drop_last();
        lemma_scan_segment(x, y0);
        assert((x + y).drop_last() =~= x + y0);
        assert((x + y).last() == y.last());
        assert(scan_path(x).1 + y =~= (scan_path(x).1 + y0).push(y.last()));
    }
}

/// Reading `/` and then a segment without `/` ends the segment being read.
proof fn lemma_scan_after_slash(x: Seq<char>, y: Seq<char>)
    requires
        forall|j: int| 0 <= j < y.len() ==> #[trigger] y[j] != '/',
    ensures
        scan_path(x + seq!['/'] + y) == (resolve_step(scan_path(x).0, scan_path(x).1), y),
{
    let xs = x + seq!['/'];
    assert(xs.drop_last() =~= x);
    lemma_scan_segment(xs, y);
    assert(Seq::<char>::empty() + y =~= y);
}

/// A `..` segment cancels the segment just before it, and at the start of
/// a path, where there is none, it is dropped: `a/../b` and `../b` both
/// resolve to `b`.
pub proof fn law_parent_cancels_segment(a: Seq<char>, b: Seq<char>)
    requires
        plain_segment(a),
        plain_segment(b),
    ensures
        resolve_parents(a + seq!['/', '.', '.', '/'] + b) == b,
        resolve_parents(seq!['.', '.', '/'] + b) == b,
{
    let dd = seq!['.', '.'];
    assert forall|j: int| 0 <= j < dd.len() implies #[trigger] dd[j] != '/' by {}
    // a alone: nothing kept, `a` being read.
    lemma_scan_segment(Seq::<char>::empty(), a);
    assert(Seq::<char>::empty() + a =~= a);
    assert(scan_path(Seq::<char>::empty()) == (Seq::<Seq<char>>::empty(), Seq::<char>::empty()));
    assert(Seq::<char>::empty() + a =~= a);
    // a/..
    lemma_scan_after_slash(a, dd);
    let x1 = a + seq!['/'] + dd;
    assert(scan_path(x1) == (seq![a], dd)) by {
        assert(resolve_step(Seq::<Seq<char>>::empty(), a) =~= seq![a]);
    }
    // a/../b
    lemma_scan_after_slash(x1, b);
    assert(x1 + seq!['/'] + b =~= a + seq!['/', '.', '.', '/'] + b);
    assert(resolve_step(seq![a], dd) =~= Seq::<Seq<char>>::empty());
    assert(resolve_step(Seq::<Seq<char>>::empty(), b) =~= seq![b]);
    assert(join_segments(seq![b]) == b);
    // ../b
    lemma_scan_segment(Seq::<char>::empty(), dd);
    assert(Seq::<char>::empty() + dd =~= dd);
    lemma_scan_after_slash(dd, b);
    assert(dd + seq!['/'] + b =~= seq!['.', '.', '/'] + b);
}

/// When only the fallback file could be opened and the client does not hold
/// its entity tag, it is sent with the fallback status, `404 Not Found`
/// unless another is configured; the requested file itself is sent with
/// `200 OK`.
pub proof fn law_fallback_status(
    options: FileServerOptions,
    st: Result<ResponseState, ResponseError>,
    request_path: Seq<char>,
    fallback_path: Seq<char>,
    accept: Option<Seq<u8>>,
    if_none_match: Option<Seq<u8>>,
    etag: EtagSource,
)
    requires
        ({
            let enc = negotiated(accept, options.compress);
            let suffix = match encoding_name(enc) {
                Some(n) => n,
                None => Seq::<char>::empty(),
            };
            match etag_text(etag, suffix) {
                Some(tag) => if_none_match != Some(encode_utf8(tag)),
                None => true,
            }
        }),
    ensures
        options.fallback_status is None ==> options.fallback_code() == 404,
        options.fallback_status matches Some(c) ==> options.fallback_code() == status_code_value(c),
        ({
            let (answer, stream) = file_reply_spec(options, st, request_path, fallback_path, Opened::Fallback, accept,
                if_none_match, etag);
            &&& stream == Some(negotiated(accept, options.compress))
            &&& answer matches Ok(s) ==> s.status == options.fallback_code()
        }),
        ({
            let (answer, stream) = file_reply_spec(options, st, request_path, fallback_path, Opened::Requested, accept,
                if_none_match, etag);
            &&& stream == Some(negotiated(accept, options.compress))
            &&& answer matches Ok(s) ==> s.status == 200
        }),
{
}

/// With compression on and an `Accept-Encoding` header that reads as text,
/// `zstd` is chosen whenever the text mentions it anywhere; otherwise `br`
/// whenever it mentions that; otherwise gzip whenever it mentions `gz`;
/// otherwise nothing. With compression off nothing is ever chosen.
pub proof fn law_encoding_by_mention(bytes: Seq<u8>, text: Seq<char>)
    requires
        header_text_of(bytes) == Some(text),
    ensures
        negotiated(Some(bytes), false) == Encoding::Identity,
        negotiated(None, true) == Encoding::Identity,
        (exists|i: int| 0 <= i && i + 4 <= text.len() && #[trigger] text[i] == 'z' && text[i + 1] == 's'
            && text[i + 2] == 't' && text[i + 3] == 'd')
            ==> negotiated(Some(bytes), true) == Encoding::Zstd,
        !(exists|i: int| 0 <= i && i + 4 <= text.len() && #[trigger] text[i] == 'z' && text[i + 1] == 's'
            && text[i + 2] == 't' && text[i + 3] == 'd')
            && (exists|i: int| 0 <= i && i + 2 <= text.len() && #[trigger] text[i] == 'b' && text[i + 1] == 'r')
            ==> negotiated(Some(bytes), true) == Encoding::Brotli,
        !(exists|i: int| 0 <= i && i + 4 <= text.len() && #[trigger] text[i] == 'z' && text[i + 1] == 's'
            && text[i + 2] == 't' && text[i + 3] == 'd')
            && !(exists|i: int| 0 <= i && i + 2 <= text.len() && #[trigger] text[i] == 'b' && text[i + 1] == 'r')
            && (exists|i: int| 0 <= i && i + 2 <= text.len() && #[trigger] text[i] == 'g' && text[i + 1] == 'z')
            ==> negotiated(Some(bytes), true) == Encoding::Gzip,
        !(exists|i: int| 0 <= i && i + 4 <= text.len() && #[trigger] text[i] == 'z' && text[i + 1] == 's'
            && text[i + 2] == 't' && text[i + 3] == 'd')
            && !(exists|i: int| 0 <= i && i + 2 <= text.len() && #[trigger] text[i] == 'b' && text[i + 1] == 'r')
            && !(exists|i: int| 0 <= i && i + 2 <= text.len() && #[trigger] text[i] == 'g' && text[i + 1] == 'z')
            ==> negotiated(Some(bytes), true) == Encoding::Identity,
{
    reveal_strlit("zstd");
    reveal_strlit("br");
    reveal_strlit("gz");
    assert("zstd"@ =~= seq!['z', 's', 't', 'd']);
    assert("br"@ =~= seq!['b', 'r']);
    assert("gz"@ =~= seq!['g', 'z']);
    lemma_mentions_four(text, 'z', 's', 't', 'd');
    lemma_mentions_two(text, 'b', 'r');
    lemma_mentions_two(text, 'g', 'z');
}

/// Two characters occur in `s` exactly when they appear one after the
/// other from some index.
proof fn lemma_mentions_two(s: Seq<char>, a: char, b: char)
    ensures
        contains_text(s, seq![a, b]) <==> exists|i: int| 0 <= i && i + 2 <= s.len() && #[trigger] s[i] == a && s[i + 1] == b,
{
    let p = seq![a, b];
    if contains_text(s, p) {
        let i = choose|i: int| 0 <= i && i + p.len() <= s.len() && #[trigger] s.subrange(i, i + p.len()) == p;
        assert(s.subrange(i, i + 2)[0] == s[i] && s.subrange(i, i + 2)[1] == s[i + 1]);
    }
    if exists|i: int| 0 <= i && i + 2 <= s.len() && #[trigger] s[i] == a && s[i + 1] == b {
        let i = choose|i: int| 0 <= i && i + 2 <= s.len() && #[trigger] s[i] == a && s[i + 1] == b;
        assert(s.subrange(i, i + 2) =~= p);
    }
}

/// Four characters occur in `s` exactly when they appear one after the
/// other from some index.
proof fn lemma_mentions_four(s: Seq<char>, a: char, b: char, c: char, d: char)
    ensures
        contains_text(s, seq![a, b, c, d]) <==> exists|i: int| 0 <= i && i + 4 <= s.len() && #[trigger] s[i] == a
            && s[i + 1] == b && s[i + 2] == c && s[i + 3] == d,
{
    let p = seq![a, b, c, d];
    if contains_text(s, p) {
        let i = choose|i: int| 0 <= i && i + p.len() <= s.len() && #[trigger] s.subrange(i, i + p.len()) == p;
        let q = s.subrange(i, i + 4);
        assert(q[0] == s[i] && q[1] == s[i + 1] && q[2] == s[i + 2] && q[3] == s[i + 3]);
    }
    if exists|i: int| 0 <= i && i + 4 <= s.len() && #[trigger] s[i] == a && s[i + 1] == b && s[i + 2] == c && s[i + 3] == d {
        let i = choose|i: int| 0 <= i && i + 4 <= s.len() && #[trigger] s[i] == a && s[i + 1] == b && s[i + 2] == c
            && s[i + 3] == d;
        assert(s.subrange(i, i + 4) =~= p);
    }
}

/// The file a request path names stays inside the served directory: it is
/// a relative path (it does not start with `/`) with no `..` segment.
pub proof fn law_files_stay_inside(path: Seq<char>)
    ensures
        !has_parent_segment(file_for(path)),
        file_for(path).len() > 0 ==> file_for(path)[0] != '/',
{
    let relative = path.skip(leading_count(path, '/') as int);
    let named = if path == seq!['/'] {
        "index.html"@
    } else if path_extension(path) is Some {
        relative
    } else {
        relative + ".html"@
    };
    let (kept, seg) = scan_path(named);
    lemma_scan_path(named);
    lemma_resolve_step(kept, seg);
    lemma_join_plain(resolve_step(kept, seg));
    lemma_skip_slashes(resolve_parents(named));
    crate::text::lemma_leading_count_bounds(resolve_parents(named), '/');
}

/// The extension of a path, or nothing when it has none.
pub open spec fn extension_or_empty(path: Seq<char>) -> Seq<char> {
    match path_extension(path) {
        Some(e) => e,
        None => Seq::empty(),
    }
}

/// The extension of a path, or the empty text.
pub fn try_extension(input: &str) -> (r: String)
    ensures
        r@ == extension_or_empty(input@),
{
    match extension_of(input) {
        Some(e) => e,
        None => String::new(),
    }
}

/// What the server learnt when it went to read the file that would answer
/// a request, according to `FileServerOptions::etag`.
pub enum EtagSource {
    /// The hash of the file's contents.
    Hash(u64),
    /// The file's modification time in nanoseconds since the Unix epoch,
    /// and its length.
    LastModified(u128, u64),
    /// No entity tag is made.
    Disabled,
}

/// The entity tag for a file: the hash as 16 hexadecimal digits, or the
/// modification time and the length in hexadecimal, followed by the
/// encoding's suffix.
pub open spec fn etag_text(source: EtagSource, suffix: Seq<char>) -> Option<Seq<char>> {
    match source {
        EtagSource::Hash(h) => Some(zero_padded(hex(h as nat), 16) + suffix),
        EtagSource::LastModified(nanos, len) => Some(hex(nanos as nat) + hex(len as nat) + suffix),
        EtagSource::Disabled => None,
    }
}

/// Makes the entity tag.
pub fn etag_for(source: &EtagSource, suffix: &str) -> (r: Option<String>)
    ensures
        match r {
            None => etag_text(*source, suffix@) is None,
            Some(t) => etag_text(*source, suffix@) == Some(t@),
        },
{
    match source {
        EtagSource::Hash(h) => {
            let mut digits: Vec<char> = Vec::new();
            push_hex(&mut digits, *h as u128);
            assert(digits@ =~= hex(*h as nat));
            let mut out: Vec<char> = Vec::new();
            push_zero_padded(&mut out, &digits, 16);
            let tag = string_of(&out);
            assert(tag@ =~= zero_padded(hex(*h as nat), 16));
            Some(concat_str(tag.as_str(), suffix))
        },
        EtagSource::LastModified(nanos, len) => {
            let mut out: Vec<char> = Vec::new();
            push_hex(&mut out, *nanos);
            push_hex(&mut out, *len as u128);
            let tag = string_of(&out);
            assert(tag@ =~= hex(*nanos as nat) + hex(*len as nat));
            Some(concat_str(tag.as_str(), suffix))
        },
        EtagSource::Disabled => None,
    }
}

/// Which file the server managed to open.
#[derive(Clone, Copy, Debug, PartialEq, Eq, Structural)]
pub enum Opened {
    /// The file the request path names.
    Requested,
    /// Not that one, but the fallback file.
    Fallback,
    /// Neither.
    Neither,
}

/// The answer the file server gives.
pub enum FileReply {
    /// A complete answer with an empty body.
    Done(Result<HandlerResponse, ResponseError>),
    /// Send the opened file, encoded with `Encoding`, as the body of this response.
    Stream(Response, Encoding),
}

/// The state after adding each of the `(name, value)` headers, in order.
pub open spec fn with_headers(st: Result<ResponseState, ResponseError>, hs: Seq<(Seq<char>, Seq<char>)>) -> Result<
    ResponseState,
    ResponseError,
>
    decreases hs.len(),
{
    if hs.len() == 0 {
        st
    } else {
        with_header(with_headers(st, hs.drop_last()), encode_utf8(hs.last().0), encode_utf8(hs.last().1))
    }
}

impl FileServerOptions {
    /// The custom headers as pairs of texts.
    pub open spec fn custom_header_pairs(&self) -> Seq<(Seq<char>, Seq<char>)> {
        self.custom_headers@.map_values(|p: (String, String)| (p.0@, p.1@))
    }

    /// The status sent with the fallback file.
    pub open spec fn fallback_code(&self) -> u16 {
        match self.fallback_status {
            Some(s) => status_code_value(s),
            None => 404,
        }
    }

    /// The fallback file, relative to the served directory.
    pub fn fallback_route(&self) -> (r: String)
        ensures
            r@ == match self.fallback_route {
                Some(p) => p@,
                None => "404.html"@,
            },
    {
        match &self.fallback_route {
            Some(p) => p.clone(),
            None => String::from_str("404.html"),
        }
    }

    /// The status sent with the fallback file.
    pub fn fallback_status(&self) -> (r: u16)
        ensures
            r == self.fallback_code(),
            valid_status(r),
    {
        match &self.fallback_status {
            Some(s) => status_as_u16(s),
            None => 404,
        }
    }
}

/// The answer for a request for `request_path`, given what the server
/// opened (`fallback_path` is where the fallback file lives), the request's
/// `Accept-Encoding` and `If-None-Match` headers, and what it learnt for the
/// entity tag.
pub open spec fn file_reply_spec(
    options: FileServerOptions,
    st: Result<ResponseState, ResponseError>,
    request_path: Seq<char>,
    fallback_path: Seq<char>,
    opened: Opened,
    accept: Option<Seq<u8>>,
    if_none_match: Option<Seq<u8>>,
    etag: EtagSource,
) -> (Result<ResponseState, ResponseError>, Option<Encoding>) {
    let base = with_headers(st, options.custom_header_pairs());
    if opened == Opened::Neither {
        (with_status(base, 404), None)
    } else {
        let ext = if opened == Opened::Requested {
            extension_or_empty(file_for(request_path))
        } else {
            extension_or_empty(fallback_path)
        };
        let status = if opened == Opened::Requested { 200u16 } else { options.fallback_code() };
        let typed = with_header(base, "content-type".spec_bytes(), encode_utf8(mime_for(ext)));
        let enc = negotiated(accept, options.compress);
        let encoded = match encoding_name(enc) {
            Some(n) => with_header(typed, "content-encoding".spec_bytes(), encode_utf8(n)),
            None => typed,
        };
        let suffix = match encoding_name(enc) {
            Some(n) => n,
            None => Seq::empty(),
        };
        match etag_text(etag, suffix) {
            Some(tag) => if if_none_match == Some(encode_utf8(tag)) {
                (with_status(encoded, 304), None)
            } else {
                (with_status(with_header(encoded, "etag".spec_bytes(), encode_utf8(tag)), status), Some(enc))
            },
            None => (with_status(encoded, status), Some(enc)),
        }
    }
}

/// Decides the answer of the file server: custom headers first; with no
/// file opened, `404` with an empty body; otherwise the content type of the
/// opened file, the negotiated content encoding, and the entity tag, which
/// gives `304 Not Modified` with an empty body when the client holds it;
/// else the file is to be streamed with status `200` (or the fallback
/// status for the fallback file).
pub fn file_reply(
    options: &FileServerOptions,
    res: Response,
    request_path: &str,
    fallback_path: &str,
    opened: Opened,
    accept: Option<&[u8]>,
    if_none_match: Option<&[u8]>,
    etag: &EtagSource,
) -> (r: FileReply)
    ensures
        ({
            let (st, enc) = file_reply_spec(
                *options,
                res@,
                request_path@,
                fallback_path@,
                opened,
                opt_bytes(accept),
                opt_bytes(if_none_match),
                *etag,
            );
            match enc {
                None => r matches FileReply::Done(x) && finished(x, st)
                    && (x matches Ok(hr) ==> body_bytes(hr.body) == Some(Seq::<u8>::empty())),
                Some(e) => r matches FileReply::Stream(resp, e2) && resp@ == st && e2 == e,
            }
        }),
        // A client that sends back the entity tag of the file gets `304 Not
        // Modified` with an empty body.
        ({
            let enc = negotiated(opt_bytes(accept), options.compress);
            let suffix = match encoding_name(enc) {
                Some(n) => n,
                None => Seq::<char>::empty(),
            };
            opened != Opened::Neither && !((*etag) is Disabled)
                && opt_bytes(if_none_match) == Some(encode_utf8(etag_text(*etag, suffix)->Some_0))
        }) ==> (r matches FileReply::Done(x) && (x matches Ok(hr) ==> hr.status == 304
            && body_bytes(hr.body) == Some(Seq::<u8>::empty()))),
        // Once the custom headers are in place without error, the answer is
        // built without error.
        with_headers(res@, options.custom_header_pairs()) is Ok
            ==> (r matches FileReply::Done(x) ==> x is Ok) && (r matches FileReply::Stream(resp, _) ==> resp@ is Ok),
{
    proof {
        if opened != Opened::Neither && !((*etag) is Disabled) {
            law_revalidation(*options, res@, request_path@, fallback_path@, opened, opt_bytes(accept), *etag);
        }
    }
    let ghost st0 = res@;
    let mut res = res;
    let mut i: usize = 0;
    while i < options.custom_headers.len()
        invariant
            i <= options.custom_headers@.len(),
            res@ == with_headers(st0, options.custom_header_pairs().take(i as int)),
        decreases options.custom_headers@.len() - i,
    {
        let pair = &options.custom_headers[i];
        res = res.header(pair.0.as_str(), pair.1.as_str());
        assert(options.custom_header_pairs().take(i + 1).drop_last() =~= options.custom_header_pairs().take(i as int));
        i += 1;
    }
    assert(options.custom_header_pairs().take(options.custom_headers@.len() as int) =~= options.custom_header_pairs());
    let ext = match opened {
        Opened::Neither => {
            proof {
                if with_headers(st0, options.custom_header_pairs()) is Ok {
                    lemma_file_reply_ok(*options, st0, request_path@, fallback_path@, opened, opt_bytes(accept),
                        opt_bytes(if_none_match), *etag);
                }
            }
            return FileReply::Done(res.status(404).body(ResponseBody::empty()));
        },
        Opened::Requested => try_extension(determine_file(request_path).as_str()),
        Opened::Fallback => try_extension(fallback_path),
    };
    let status = match opened {
        Opened::Requested => 200,
        _ => options.fallback_status(),
    };
    let mime = mime_type(ext.as_str());
    proof {
        if with_headers(st0, options.custom_header_pairs()) is Ok
            && (opened == Opened::Fallback ==> valid_status(options.fallback_code())) {
            lemma_file_reply_ok(*options, st0, request_path@, fallback_path@, opened, opt_bytes(accept),
                opt_bytes(if_none_match), *etag);
        }
    }
    res = res.header("content-type", mime.as_str());
    let encoding = negotiate_encoding(accept, options.compress);
    if let Some(name) = encoding.header_value() {
        res = res.header("content-encoding", name);
    }
    match etag_for(etag, encoding.etag_suffix()) {
        Some(tag) => {
            if !has_modified(if_none_match, tag.as_str()) {
                return FileReply::Done(res.status(304).body(ResponseBody::empty()));
            }
            res = res.header("etag", tag.as_str());
            FileReply::Stream(res.status(status), encoding)
        },
        None => FileReply::Stream(res.status(status), encoding),
    }
}

/// Hexadecimal digits are visible text.
proof fn lemma_hex_visible(n: nat)
    ensures
        visible_text(hex(n)),
    decreases n,
{
    if n >= 16 {
        lemma_hex_visible(n / 16);
        let h = hex(n / 16).push(crate::text::hex_digit(n % 16));
        assert forall|i: int| 0 <= i < h.len() implies ' ' <= #[trigger] h[i] <= '~' by {
            if i < h.len() - 1 {
                assert(h[i] == hex(n / 16)[i]);
            }
        }
    }
}

/// An entity tag with a suffix of visible text is visible text.
proof fn lemma_etag_visible(source: EtagSource, suffix: Seq<char>)
    requires
        visible_text(suffix),
    ensures
        etag_text(source, suffix) matches Some(t) ==> visible_text(t),
{
    match source {
        EtagSource::Hash(h) => {
            lemma_hex_visible(h as nat);
            let z = zero_padded(hex(h as nat), 16);
            assert(visible_text(z)) by {
                if hex(h as nat).len() < 16 {
                    let pad = Seq::new((16 - hex(h as nat).len()) as nat, |i: int| '0');
                    assert forall|i: int| 0 <= i < z.len() implies ' ' <= #[trigger] z[i] <= '~' by {
                        if i < pad.len() {
                            assert(z[i] == pad[i]);
                        } else {
                            assert(z[i] == hex(h as nat)[i - pad.len()]);
                        }
                    }
                }
            }
            let t = z + suffix;
            assert forall|i: int| 0 <= i < t.len() implies ' ' <= #[trigger] t[i] <= '~' by {
                if i < z.len() {
                    assert(t[i] == z[i]);
                } else {
                    assert(t[i] == suffix[i - z.len()]);
                }
            }
        },
        EtagSource::LastModified(nanos, len) => {
            lemma_hex_visible(nanos as nat);
            lemma_hex_visible(len as nat);
            let a = hex(nanos as nat);
            let b = hex(len as nat);
            let t = a + b + suffix;
            assert forall|i: int| 0 <= i < t.len() implies ' ' <= #[trigger] t[i] <= '~' by {
                if i < a.len() {
                    assert(t[i] == a[i]);
                } else if i < a.len() + b.len() {
                    assert(t[i] == b[i - a.len()]);
                } else {
                    assert(t[i] == suffix[i - a.len() - b.len()]);
                }
            }
        },
        EtagSource::Disabled => {},
    }
}

/// The name of an encoding, and so the suffix of its entity tags, is
/// visible text.
proof fn lemma_encoding_name_visible(e: Encoding)
    ensures
        encoding_name(e) matches Some(n) ==> visible_text(n),
        visible_text(Seq::<char>::empty()),
{
    reveal_strlit("zstd");
    reveal_strlit("br");
    reveal_strlit("gzip");
}

/// Once the custom headers are in place without error, and the fallback
/// status is a valid one where the fallback file is sent, the rest of the
/// answer is built without error: its header names are plain, and the
/// content type, the encoding's name and the entity tag are visible text.
proof fn lemma_file_reply_ok(
    options: FileServerOptions,
    st: Result<ResponseState, ResponseError>,
    request_path: Seq<char>,
    fallback_path: Seq<char>,
    opened: Opened,
    accept: Option<Seq<u8>>,
    if_none_match: Option<Seq<u8>>,
    etag: EtagSource,
)
    requires
        with_headers(st, options.custom_header_pairs()) is Ok,
        opened == Opened::Fallback ==> valid_status(options.fallback_code()),
        opened != Opened::Neither ==> visible_text(
            mime_for(
                if opened == Opened::Requested {
                    extension_or_empty(file_for(request_path))
                } else {
                    extension_or_empty(fallback_path)
                },
            ),
        ),
    ensures
        file_reply_spec(options, st, request_path, fallback_path, opened, accept, if_none_match, etag).0 is Ok,
{
    reveal_strlit("content-type");
    reveal_strlit("content-encoding");
    reveal_strlit("etag");
    lemma_plain_header_name("content-type"@);
    lemma_plain_header_name("content-encoding"@);
    lemma_plain_header_name("etag"@);
    let enc = negotiated(accept, options.compress);
    lemma_encoding_name_visible(enc);
    let ext = if opened == Opened::Requested {
        extension_or_empty(file_for(request_path))
    } else {
        extension_or_empty(fallback_path)
    };
    if opened != Opened::Neither {
        lemma_visible_header_value(mime_for(ext));
    }
    if let Some(n) = encoding_name(enc) {
        lemma_visible_header_value(n);
    }
    let suffix = match encoding_name(enc) {
        Some(n) => n,
        None => Seq::<char>::empty(),
    };
    lemma_etag_visible(etag, suffix);
    if let Some(tag) = etag_text(etag, suffix) {
        lemma_visible_header_value(tag);
    }
}

/// A client that sends back, in `If-None-Match`, the entity tag it was
/// given for a file gets `304 Not Modified` and no body, as long as the
/// file, its entity-tag data and the negotiated encoding are unchanged.
pub proof fn law_revalidation(
    options: FileServerOptions,
    st: Result<ResponseState, ResponseError>,
    request_path: Seq<char>,
    fallback_path: Seq<char>,
    opened: Opened,
    accept: Option<Seq<u8>>,
    etag: EtagSource,
)
    requires
        opened != Opened::Neither,
        !(etag is Disabled),
    ensures
        ({
            let enc = negotiated(accept, options.compress);
            let suffix = match encoding_name(enc) {
                Some(n) => n,
                None => Seq::<char>::empty(),
            };
            let tag = etag_text(etag, suffix)->Some_0;
            let (answer, stream) = file_reply_spec(
                options,
                st,
                request_path,
                fallback_path,
                opened,
                accept,
                Some(encode_utf8(tag)),
                etag,
            );
            &&& stream is None
            &&& answer matches Ok(s) ==> s.status == 304
        }),
{
}

/// A client that does not send back the file's entity tag gets the file
/// with status `200` and the tag as the last header, `ETag`.
pub proof fn law_fresh_request_gets_tag(
    options: FileServerOptions,
    st: Result<ResponseState, ResponseError>,
    request_path: Seq<char>,
    fallback_path: Seq<char>,
    accept: Option<Seq<u8>>,
    if_none_match: Option<Seq<u8>>,
    etag: EtagSource,
)
    requires
        !(etag is Disabled),
        ({
            let enc = negotiated(accept, options.compress);
            let suffix = match encoding_name(enc) {
                Some(n) => n,
                None => Seq::<char>::empty(),
            };
            if_none_match != Some(encode_utf8(etag_text(etag, suffix)->Some_0))
        }),
    ensures
        ({
            let enc = negotiated(accept, options.compress);
            let suffix = match encoding_name(enc) {
                Some(n) => n,
                None => Seq::<char>::empty(),
            };
            let tag = etag_text(etag, suffix)->Some_0;
            let (answer, stream) = file_reply_spec(
                options,
                st,
                request_path,
                fallback_path,
                Opened::Requested,
                accept,
                if_none_match,
                etag,
            );
            &&& stream == Some(enc)
            &&& answer matches Ok(s) ==> s.status == 200 && s.headers.last() == ("etag"@, encode_utf8(tag))
        }),
{
    reveal_strlit("etag");
    crate::response::lemma_plain_header_name("etag"@);
}

/// Without compression, or without an `Accept-Encoding` header, files are
/// sent as they are; otherwise `zstd` is preferred to `br`, and `br` to
/// `gz`; and the entity tag of an encoded file ends with the encoding's name.
pub proof fn law_encoding_choice(accept: Option<Seq<u8>>, compress: bool, source: EtagSource)
    ensures
        !compress ==> negotiated(accept, compress) == Encoding::Identity,
        accept is None ==> negotiated(accept, compress) == Encoding::Identity,
        compress && (accept matches Some(b) && header_text_of(b) matches Some(t) && contains_text(t, "zstd"@))
            ==> negotiated(accept, compress) == Encoding::Zstd,
        ({
            let enc = negotiated(accept, compress);
            match (encoding_name(enc), etag_text(source, match encoding_name(enc) { Some(n) => n, None => Seq::empty() })) {
                (Some(n), Some(tag)) => tag.len() >= n.len() && tag.skip(tag.len() - n.len()) == n,
                _ => true,
            }
        }),
{
    let enc = negotiated(accept, compress);
    if let Some(n) = encoding_name(enc) {
        if let Some(tag) = etag_text(source, n) {
            match source {
                EtagSource::Hash(h) => {
                    assert(tag.skip(tag.len() - n.len()) =~= n);
                },
                EtagSource::LastModified(a, b) => {
                    assert(tag.skip(tag.len() - n.len()) =~= n);
                },
                EtagSource::Disabled => {},
            }
        }
    }
}

} // verus!
