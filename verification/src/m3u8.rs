//! The playlist model and its parser: scans playlist text line by line,
//! collecting segment references (resolved to absolute locators), the
//! encryption method, key location and IV, the media-sequence start and
//! an optional fragmented-media init-segment reference.

use vstd::prelude::*;
use crate::common::{
    is_url, replace_last_segment, spec_replace_last_segment, url_host_of, url_parses,
    url_scheme_of,
};
use crate::strings::{
    after_first, contains, parse_i32_or_zero, spec_after_first, spec_contains,
    spec_i32_or_zero, spec_split, spec_starts_with, spec_take_until, split_by, starts_with,
    str_views, take_until,
};

verus! {

/// The encryption method named by a playlist key tag.
#[derive(Clone, Copy, PartialEq, Eq, Structural, Debug)]
pub enum HlsM3u8Method {
    SampleAes,
    Aes128,
}

/// A parsed media playlist.
pub struct HlsM3u8 {
    /// Location of the decryption key, resolved to an absolute locator
    /// where possible.
    pub key: String,
    /// Segment locators in playlist order.
    pub list: Vec<String>,
    /// Encryption method; `None` means the segments are not encrypted.
    pub method: Option<HlsM3u8Method>,
    /// Initialisation vector, exactly as written in the key tag.
    pub iv: String,
    /// The playlist's own source locator; empty for local playlists.
    pub original_url: String,
    /// The working folder the playlist belongs to.
    pub folder: String,
    /// Sequence number of the first segment.
    pub sequence: i32,
    /// Init-segment reference of a fragmented-media playlist; empty when
    /// the playlist has none.
    pub x_map_uri: String,
    /// File extension of the segments: `ts`, or `m4s` for fragmented
    /// media.
    pub extension: String,
}

/// The mathematical model of a playlist.
#[verifier::ext_equal]
pub ghost struct SpecM3u8 {
    pub key: Seq<char>,
    pub list: Seq<Seq<char>>,
    pub method: Option<HlsM3u8Method>,
    pub iv: Seq<char>,
    pub original_url: Seq<char>,
    pub folder: Seq<char>,
    pub sequence: int,
    pub x_map_uri: Seq<char>,
    pub extension: Seq<char>,
}

impl View for HlsM3u8 {
    type V = SpecM3u8;

    open spec fn view(&self) -> SpecM3u8 {
        SpecM3u8 {
            key: self.key@,
            list: str_views(self.list@),
            method: self.method,
            iv: self.iv@,
            original_url: self.original_url@,
            folder: self.folder@,
            sequence: self.sequence as int,
            x_map_uri: self.x_map_uri@,
            extension: self.extension@,
        }
    }
}

/// The model of a freshly created playlist bound to a source locator.
pub open spec fn spec_m3u8_init(url: Seq<char>, folder: Seq<char>) -> SpecM3u8 {
    SpecM3u8 {
        key: Seq::empty(),
        list: Seq::empty(),
        method: None,
        iv: Seq::empty(),
        original_url: url,
        folder: folder,
        sequence: 0,
        x_map_uri: Seq::empty(),
        extension: "ts"@,
    }
}

impl HlsM3u8 {
    /// An empty playlist: no segments, no encryption, sequence zero,
    /// plain `ts` segments.
    pub fn new() -> (m: HlsM3u8)
        ensures
            m@ == spec_m3u8_init(Seq::<char>::empty(), Seq::<char>::empty()),
    {
        let m = HlsM3u8 {
            key: String::new(),
            list: Vec::new(),
            method: None,
            iv: String::new(),
            original_url: String::new(),
            folder: String::new(),
            sequence: 0,
            x_map_uri: String::new(),
            extension: "ts".to_owned(),
        };
        proof {
            assert(m@ =~= spec_m3u8_init(Seq::<char>::empty(), Seq::<char>::empty()));
        }
        m
    }

    /// Replaces the segment list.
    pub fn set_list(&mut self, list: Vec<String>)
        ensures
            final(self)@ == (SpecM3u8 { list: str_views(list@), ..old(self)@ }),
    {
        self.list = list;
        proof {
            assert(final(self)@ =~= SpecM3u8 { list: str_views(self.list@), ..old(self)@ });
        }
    }

    /// Binds the playlist to its source locator and working folder.
    pub fn set_original_url(&mut self, original_url: String, folder: String)
        ensures
            final(self)@ == (SpecM3u8 {
                original_url: original_url@,
                folder: folder@,
                ..old(self)@
            }),
    {
        self.original_url = original_url;
        self.folder = folder;
        proof {
            assert(final(self)@ =~= SpecM3u8 {
                original_url: self.original_url@,
                folder: self.folder@,
                ..old(self)@
            });
        }
    }

    /// Sets the key location.
    pub fn set_key(&mut self, key: String)
        ensures
            final(self)@ == (SpecM3u8 { key: key@, ..old(self)@ }),
    {
        self.key = key;
        proof {
            assert(final(self)@ =~= SpecM3u8 { key: self.key@, ..old(self)@ });
        }
    }

    /// Sets the media-sequence start.
    pub fn set_sequence(&mut self, sequence: i32)
        ensures
            final(self)@ == (SpecM3u8 { sequence: sequence as int, ..old(self)@ }),
    {
        self.sequence = sequence;
        proof {
            assert(final(self)@ =~= SpecM3u8 { sequence: self.sequence as int, ..old(self)@ });
        }
    }

    /// Sets the segment file extension.
    pub fn set_extension(&mut self, extension: String)
        ensures
            final(self)@ == (SpecM3u8 { extension: extension@, ..old(self)@ }),
    {
        self.extension = extension;
        proof {
            assert(final(self)@ =~= SpecM3u8 { extension: self.extension@, ..old(self)@ });
        }
    }

    /// Records the key tag: method and IV as given, and the key location
    /// resolved against the playlist's source locator.
    pub fn set_method_and_key(&mut self, method: Option<HlsM3u8Method>, key: String, iv: String)
        ensures
            final(self)@ == (SpecM3u8 {
                method: method,
                iv: iv@,
                key: spec_resolved_key(key@, old(self)@.original_url),
                ..old(self)@
            }),
    {
        self.method = method;
        self.iv = iv;
        let resolved = resolve_key_uri(key, self.original_url.as_str());
        self.key = resolved;
        proof {
            assert(final(self)@ =~= SpecM3u8 {
                method: self.method,
                iv: self.iv@,
                key: self.key@,
                ..old(self)@
            });
        }
    }
}

/// Where the decryption key is fetched from: the key reference itself
/// when it is already absolute or the playlist has no source locator;
/// a host-relative reference (starting with `/`) joined to the
/// source's scheme and host, `<scheme>://<host><reference>`, so the
/// result is a fetchable absolute location; otherwise the reference
/// resolved against the source locator by replacing its final path
/// segment.
pub open spec fn spec_resolved_key(key: Seq<char>, orig: Seq<char>) -> Seq<char> {
    if url_parses(key) || orig.len() == 0 {
        key
    } else if key.len() > 0 && key[0] == '/' {
        match url_scheme_of(orig) {
            Some(sch) => match url_host_of(orig) {
                Some(h) => sch + seq![':', '/', '/'] + h + key,
                None => key,
            },
            None => key,
        }
    } else {
        spec_replace_last_segment(orig, key)
    }
}

/// Resolves a key reference against the playlist's source locator.
pub fn resolve_key_uri(key: String, original_url: &str) -> (r: String)
    ensures
        r@ == spec_resolved_key(key@, original_url@),
{
    if is_url(key.clone()) || original_url.is_empty() {
        return key;
    }
    let starts_slash = if key.as_str().unicode_len() > 0 {
        key.as_str().get_char(0) == '/'
    } else {
        false
    };
    if starts_slash {
        match crate::common::get_url_scheme_opt(original_url) {
            Some(sch) => match crate::common::get_url_host_opt(original_url) {
                Some(h) => {
                    let mut out = sch;
                    crate::strings::push_char(&mut out, ':');
                    crate::strings::push_char(&mut out, '/');
                    crate::strings::push_char(&mut out, '/');
                    out.append(h.as_str());
                    out.append(key.as_str());
                    proof {
                        assert(out@ =~= url_scheme_of(original_url@).unwrap() + seq![
                            ':',
                            '/',
                            '/',
                        ] + url_host_of(original_url@).unwrap() + key@);
                    }
                    out
                },
                None => key,
            },
            None => key,
        }
    } else {
        replace_last_segment(original_url, key.as_str())
    }
}

/// The encryption method named on a key tag line, by substring match:
/// `AES-128` wins over `SAMPLE-AES`; anything else means none.
pub open spec fn spec_method_of(line: Seq<char>) -> Option<HlsM3u8Method> {
    if spec_contains(line, "AES-128"@) {
        Some(HlsM3u8Method::Aes128)
    } else if spec_contains(line, "SAMPLE-AES"@) {
        Some(HlsM3u8Method::SampleAes)
    } else {
        None
    }
}

/// The IV attribute of a key tag line: everything after the first
/// `IV=`; empty when the line carries no IV.
pub open spec fn spec_iv_attr(line: Seq<char>) -> Seq<char> {
    match spec_after_first(line, "IV="@) {
        Some(t) => t,
        None => Seq::empty(),
    }
}

/// The quoted URI attribute of a tag line: the characters between
/// `URI="` and the next `"`; empty when either quote is missing.
pub open spec fn spec_uri_attr(line: Seq<char>) -> Seq<char> {
    match spec_after_first(line, "URI=\""@) {
        Some(t) => match spec_after_first(t, "\""@) {
            Some(_) => spec_take_until(t, '"'),
            None => Seq::empty(),
        },
        None => Seq::empty(),
    }
}

/// Reads the encryption method from a key tag line.
pub fn get_method_from_regex(str: &str) -> (r: Option<HlsM3u8Method>)
    ensures
        r == spec_method_of(str@),
{
    if contains(str, "AES-128") {
        Some(HlsM3u8Method::Aes128)
    } else if contains(str, "SAMPLE-AES") {
        Some(HlsM3u8Method::SampleAes)
    } else {
        None
    }
}

/// Reads the IV attribute from a key tag line.
pub fn get_iv_from_regex(str: &str) -> (r: String)
    ensures
        r@ == spec_iv_attr(str@),
{
    match after_first(str, "IV=") {
        Some(t) => t,
        None => String::new(),
    }
}

/// Reads the quoted URI attribute from a tag line.
pub fn get_uri_from_regex(str: &str) -> (r: String)
    ensures
        r@ == spec_uri_attr(str@),
{
    match after_first(str, "URI=\"") {
        Some(t) => {
            match after_first(t.as_str(), "\"") {
                Some(_) => take_until(t.as_str(), '"'),
                None => String::new(),
            }
        },
        None => String::new(),
    }
}

/// One parsing step: how a single playlist line changes the model.
/// Non-empty lines that carry no tag are segment references, kept in
/// order and resolved against the source locator; unresolvable ones are
/// dropped. A key tag records method, IV and resolved key location (the
/// last key tag wins); a media-sequence tag records the start number
/// (zero when malformed); a map tag records the init-segment reference
/// and switches the segment extension to `m4s`. Unknown tags are
/// ignored.
pub open spec fn spec_parse_step(st: SpecM3u8, line: Seq<char>) -> SpecM3u8 {
    if line.len() == 0 {
        st
    } else if !spec_starts_with(line, "#EXT"@) {
        if url_parses(line) {
            SpecM3u8 { list: st.list.push(line), ..st }
        } else if st.original_url.len() > 0 {
            SpecM3u8 {
                list: st.list.push(spec_replace_last_segment(st.original_url, line)),
                ..st
            }
        } else {
            st
        }
    } else if spec_starts_with(line, "#EXT-X-KEY"@) {
        SpecM3u8 {
            method: spec_method_of(line),
            iv: spec_iv_attr(line),
            key: spec_resolved_key(spec_uri_attr(line), st.original_url),
            ..st
        }
    } else if spec_starts_with(line, "#EXT-X-MEDIA-SEQUENCE:"@) {
        SpecM3u8 {
            sequence: spec_i32_or_zero(line.skip("#EXT-X-MEDIA-SEQUENCE:"@.len() as int)),
            ..st
        }
    } else if spec_starts_with(line, "#EXT-X-MAP"@) {
        SpecM3u8 { x_map_uri: spec_uri_attr(line), extension: "m4s"@, ..st }
    } else {
        st
    }
}

/// The model after parsing a sequence of lines, left to right.
pub open spec fn spec_parse_lines(st: SpecM3u8, lines: Seq<Seq<char>>) -> SpecM3u8
    decreases lines.len(),
{
    if lines.len() == 0 {
        st
    } else {
        spec_parse_lines(spec_parse_step(st, lines[0]), lines.skip(1))
    }
}

/// The playlist model that parsing `text` against source locator `url`
/// and working folder `folder` produces.
pub open spec fn spec_parse_m3u8(text: Seq<char>, url: Seq<char>, folder: Seq<char>) -> SpecM3u8 {
    spec_parse_lines(spec_m3u8_init(url, folder), spec_split(text, '\n'))
}

/// Parses playlist text into a playlist bound to source locator `url`
/// and folder `folder`. Segment order in the result equals the order of
/// the segment lines in `str`.
pub fn str_to_urls(str: String, url: String, folder: String) -> (m: HlsM3u8)
    ensures
        m@ == spec_parse_m3u8(str@, url@, folder@),
{
    let mut hls = HlsM3u8::new();
    hls.set_original_url(url, folder);
    let lines = split_by(str.as_str(), '\n');
    let ghost line_views = str_views(lines@);
    let n = lines.len();
    let mut i: usize = 0;
    proof {
        assert(line_views.skip(0) =~= line_views);
        assert(hls@ =~= spec_m3u8_init(hls@.original_url, hls@.folder));
    }
    while i < n
        invariant
            n == lines@.len(),
            i <= n,
            line_views == str_views(lines@),
            spec_parse_m3u8(str@, url@, folder@) == spec_parse_lines(hls@, line_views.skip(i as int)),
        decreases n - i,
    {
        let ghost pre = hls@;
        let line = &lines[i];
        proof {
            assert(line_views[i as int] == line@);
            assert(line_views.skip(i as int)[0] == line@);
            assert(line_views.skip(i as int).skip(1) =~= line_views.skip(i + 1));
        }
        if !line.as_str().is_empty() {
            if !starts_with(line.as_str(), "#EXT") {
                if is_url(line.clone()) {
                    hls.list.push(line.clone());
                    proof {
                        assert(hls@ =~= (SpecM3u8 { list: pre.list.push(line@), ..pre }));
                    }
                } else if !hls.original_url.as_str().is_empty() {
                    let new_url = replace_last_segment(hls.original_url.as_str(), line.as_str());
                    hls.list.push(new_url);
                    proof {
                        assert(hls@ =~= (SpecM3u8 {
                            list: pre.list.push(
                                spec_replace_last_segment(pre.original_url, line@),
                            ),
                            ..pre
                        }));
                    }
                }
            } else {
                if starts_with(line.as_str(), "#EXT-X-KEY") {
                    let method = get_method_from_regex(line.as_str());
                    let uri = get_uri_from_regex(line.as_str());
                    let iv = get_iv_from_regex(line.as_str());
                    hls.set_method_and_key(method, uri, iv);
                    proof {
                        assert(hls@ =~= spec_parse_step(pre, line@));
                    }
                } else if starts_with(line.as_str(), "#EXT-X-MEDIA-SEQUENCE:") {
                    let prefix_len = "#EXT-X-MEDIA-SEQUENCE:".unicode_len();
                    let rest = line.as_str().substring_char(prefix_len, line.as_str().unicode_len());
                    let seq_val = parse_i32_or_zero(rest);
                    hls.set_sequence(seq_val);
                    proof {
                        assert(rest@ =~= line@.skip("#EXT-X-MEDIA-SEQUENCE:"@.len() as int));
                        assert(hls@ =~= spec_parse_step(pre, line@));
                    }
                } else if starts_with(line.as_str(), "#EXT-X-MAP") {
                    let uri = get_uri_from_regex(line.as_str());
                    hls.x_map_uri = uri;
                    hls.extension = "m4s".to_owned();
                    proof {
                        assert(hls@ =~= spec_parse_step(pre, line@));
                    }
                }
            }
        }
        proof {
            assert(hls@ =~= spec_parse_step(pre, line@));
        }
        i += 1;
    }
    proof {
        assert(line_views.skip(n as int).len() == 0);
    }
    hls
}

/// The local path the fetched decryption key is persisted under:
/// `./<folder>.key` in the working folder.
pub fn key_file_name(folder: &str) -> (r: String)
    ensures
        r@ == seq!['.', '/'] + folder@ + ".key"@,
{
    let mut out = String::new();
    crate::strings::push_char(&mut out, '.');
    crate::strings::push_char(&mut out, '/');
    out.append(folder);
    out.append(".key");
    proof {
        assert(out@ =~= seq!['.', '/'] + folder@ + ".key"@);
    }
    out
}

/// The one way a parsed playlist can be unusable: it references no
/// segments at all.
#[derive(PartialEq, Eq, Structural, Debug, Clone, Copy)]
pub enum PlaylistParseError {
    NoSegments,
}

/// Accepts a parsed playlist exactly when it references at least one
/// segment; an empty playlist is the only unusable structure.
pub fn validate_playlist(m: &HlsM3u8) -> (r: Result<(), PlaylistParseError>)
    ensures
        r is Ok <==> m@.list.len() > 0,
        r is Err ==> r->Err_0 == PlaylistParseError::NoSegments,
{
    if m.list.len() > 0 {
        Ok(())
    } else {
        Err(PlaylistParseError::NoSegments)
    }
}

/// The decryption key could not be retrieved from its resolved
/// location.
#[derive(PartialEq, Eq, Structural, Debug, Clone, Copy)]
pub enum KeyFetchError {
    KeyUnreachable,
}

/// Decides whether a run may continue past key resolution: a run that
/// needs a key must have fetched it, and a failed key fetch aborts the
/// run instead of letting undecryptable segments download.
pub fn key_fetch_outcome(key_needed: bool, fetched: bool) -> (r: Result<(), KeyFetchError>)
    ensures
        r is Ok <==> (!key_needed || fetched),
        r is Err ==> r->Err_0 == KeyFetchError::KeyUnreachable,
{
    if !key_needed || fetched {
        Ok(())
    } else {
        Err(KeyFetchError::KeyUnreachable)
    }
}

/// Whether a playlist calls for a key fetch: it does exactly when its
/// key tag named an encryption method.
pub fn key_required(m: &HlsM3u8) -> (r: bool)
    ensures
        r == !(m@.method is None),
{
    match m.method {
        Some(_) => true,
        None => false,
    }
}

/// The segment references among a sequence of playlist lines, in line
/// order: every non-empty line that carries no tag, taken as-is when it
/// is an absolute URL, resolved against `url` when one is given, and
/// dropped when neither holds.
pub open spec fn spec_segment_lines(lines: Seq<Seq<char>>, url: Seq<char>) -> Seq<Seq<char>>
    decreases lines.len(),
{
    if lines.len() == 0 {
        Seq::empty()
    } else {
        let rest = spec_segment_lines(lines.skip(1), url);
        let line = lines[0];
        if line.len() > 0 && !spec_starts_with(line, "#EXT"@) {
            if url_parses(line) {
                seq![line] + rest
            } else if url.len() > 0 {
                seq![spec_replace_last_segment(url, line)] + rest
            } else {
                rest
            }
        } else {
            rest
        }
    }
}

proof fn lemma_parse_lines_list(st: SpecM3u8, lines: Seq<Seq<char>>)
    ensures
        spec_parse_lines(st, lines).list == st.list + spec_segment_lines(
            lines,
            st.original_url,
        ),
        spec_parse_lines(st, lines).original_url == st.original_url,
    decreases lines.len(),
{
    if lines.len() == 0 {
        assert(st.list + spec_segment_lines(lines, st.original_url) =~= st.list);
    } else {
        let line = lines[0];
        let st1 = spec_parse_step(st, line);
        lemma_parse_lines_list(st1, lines.skip(1));
        let rest = spec_segment_lines(lines.skip(1), st.original_url);
        if line.len() > 0 && !spec_starts_with(line, "#EXT"@) {
            if url_parses(line) {
                assert(st.list + (seq![line] + rest) =~= st.list.push(line) + rest);
            } else if st.original_url.len() > 0 {
                let resolved = spec_replace_last_segment(st.original_url, line);
                assert(st.list + (seq![resolved] + rest) =~= st.list.push(resolved) + rest);
            }
        }
    }
}

/// Law: parsing preserves segment order. For every playlist text, the
/// parsed segment list is exactly the sequence of segment references in
/// the text, in the order their lines appear.
pub proof fn lemma_parser_preserves_segment_order(
    text: Seq<char>,
    url: Seq<char>,
    folder: Seq<char>,
)
    ensures
        spec_parse_m3u8(text, url, folder).list == spec_segment_lines(
            spec_split(text, '\n'),
            url,
        ),
{
    let st = spec_m3u8_init(url, folder);
    lemma_parse_lines_list(st, spec_split(text, '\n'));
    assert(st.list + spec_segment_lines(spec_split(text, '\n'), url) =~= spec_segment_lines(
        spec_split(text, '\n'),
        url,
    ));
}

} // verus!
