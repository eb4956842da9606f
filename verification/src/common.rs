//! Shared helpers: URL classification and host extraction (through the
//! `url` crate), relative-reference resolution, path hashing (through the
//! `md5` crate) and the wall clock.

use vstd::prelude::*;
use crate::strings::{push_char, spec_split, lemma_split_nonempty, split_by};

verus! {

/// Whether `url::Url::parse` accepts `s` as an absolute URL; the result
/// depends on the characters of `s` alone.
pub uninterp spec fn url_parses(s: Seq<char>) -> bool;

/// The host part that the `url` crate reports for `s`: `None` when `s`
/// does not parse or has no host. Depends on the characters alone.
pub uninterp spec fn url_host_of(s: Seq<char>) -> Option<Seq<char>>;

/// The path part that the `url` crate reports for `s`: `None` when `s`
/// does not parse. Depends on the characters alone.
pub uninterp spec fn url_path_of(s: Seq<char>) -> Option<Seq<char>>;

/// The scheme that the `url` crate reports for `s`: `None` when `s`
/// does not parse. Depends on the characters alone.
pub uninterp spec fn url_scheme_of(s: Seq<char>) -> Option<Seq<char>>;

/// The 32 lowercase hex digits of the MD5 digest of `s`'s UTF-8 bytes;
/// a function of the characters alone.
pub uninterp spec fn md5_hex_of(s: Seq<char>) -> Seq<char>;

/// Relies on `url::Url::parse`: it accepts a string, deterministically,
/// exactly when the string is an absolute URL under the WHATWG rules.
#[verifier::external_body]
fn url_parse_ok(s: &str) -> (r: bool)
    ensures
        r == url_parses(s@),
{
    url::Url::parse(s).is_ok()
}

/// Relies on `url::Url::parse` and `url::Url::host_str`: the host part
/// of the parsed URL, `None` when parsing fails or the URL has no host.
#[verifier::external_body]
pub(crate) fn get_url_host_opt(s: &str) -> (r: Option<String>)
    ensures
        match r {
            Some(h) => url_host_of(s@) == Some(h@),
            None => url_host_of(s@) is None,
        },
{
    match url::Url::parse(s) {
        Ok(u) => u.host_str().map(|h| h.to_string()),
        Err(_) => None,
    }
}

/// Relies on `url::Url::parse` and `url::Url::scheme`: the scheme of
/// the parsed URL, `None` when parsing fails.
#[verifier::external_body]
pub(crate) fn get_url_scheme_opt(s: &str) -> (r: Option<String>)
    ensures
        match r {
            Some(sch) => url_scheme_of(s@) == Some(sch@),
            None => url_scheme_of(s@) is None,
        },
{
    match url::Url::parse(s) {
        Ok(u) => Some(u.scheme().to_string()),
        Err(_) => None,
    }
}

/// Relies on `url::Url::parse` and `url::Url::path`: the path part of
/// the parsed URL, `None` when parsing fails.
#[verifier::external_body]
fn url_path(s: &str) -> (r: Option<String>)
    ensures
        match r {
            Some(p) => url_path_of(s@) == Some(p@),
            None => url_path_of(s@) is None,
        },
{
    match url::Url::parse(s) {
        Ok(u) => Some(u.path().to_string()),
        Err(_) => None,
    }
}

/// Relies on `md5::compute` and the `md5` crate's `LowerHex` formatting:
/// a 16-byte digest printed as two lowercase hex digits per byte.
#[verifier::external_body]
fn md5_hex(s: &str) -> (r: String)
    ensures
        r@ == md5_hex_of(s@),
        r@.len() == 32,
{
    format!("{:x}", md5::compute(s))
}

/// Relies on `std::time::SystemTime`: the seconds elapsed since the Unix
/// epoch, or zero when the system clock reads earlier than the epoch.
#[verifier::external_body]
pub fn now() -> u64 {
    match std::time::SystemTime::now().duration_since(std::time::UNIX_EPOCH) {
        Ok(d) => d.as_secs(),
        Err(_) => 0,
    }
}

/// Declares `core::fmt::Error`, the unit error type a few reporting
/// functions of this crate return, so that it can appear in signatures.
#[verifier::external_type_specification]
pub struct ExFmtError(core::fmt::Error);

/// Relies on `core::fmt::Error` being a unit struct: constructs it.
#[verifier::external_body]
pub(crate) fn fmt_error() -> core::fmt::Error {
    core::fmt::Error
}

/// The host of an absolute URL; an empty string for an empty input, an
/// error when the input is not empty and has no parseable host.
pub fn get_url_host(str: &str) -> (r: Result<String, core::fmt::Error>)
    ensures
        str@.len() == 0 ==> r is Ok && r.unwrap()@ == Seq::<char>::empty(),
        str@.len() != 0 ==> match url_host_of(str@) {
            Some(h) => r is Ok && r.unwrap()@ == h,
            None => r is Err,
        },
{
    if str.is_empty() {
        return Ok(String::new());
    }
    match get_url_host_opt(str) {
        Some(h) => Ok(h),
        None => Err(fmt_error()),
    }
}

/// Whether the string is an absolute URL.
pub fn is_url(_str: String) -> (r: bool)
    ensures
        r == url_parses(_str@),
{
    url_parse_ok(_str.as_str())
}

/// `url` with everything after its last `/` replaced by `rep`; `rep`
/// alone when `url` has no `/`.
pub open spec fn spec_replace_last_segment(url: Seq<char>, rep: Seq<char>) -> Seq<char>
    decreases url.len(),
{
    if url.len() == 0 {
        rep
    } else if url.last() == '/' {
        url + rep
    } else {
        spec_replace_last_segment(url.drop_last(), rep)
    }
}

/// Replaces the final path segment of `url` with `replacement`, the rule
/// used to resolve playlist-relative references against the playlist's
/// own location.
pub fn replace_last_segment(url: &str, replacement: &str) -> (r: String)
    ensures
        r@ == spec_replace_last_segment(url@, replacement@),
{
    let len = url.unicode_len();
    let mut i: usize = len;
    proof {
        assert(url@.subrange(0, len as int) =~= url@);
    }
    while i > 0
        invariant
            len == url@.len(),
            i <= len,
            spec_replace_last_segment(url@, replacement@) == spec_replace_last_segment(
                url@.subrange(0, i as int),
                replacement@,
            ),
            forall|k: int| i <= k < len ==> url@[k] != '/',
        decreases i,
    {
        let c = url.get_char(i - 1);
        if c == '/' {
            let mut out = url.substring_char(0, i).to_owned();
            out.append(replacement);
            proof {
                let pre = url@.subrange(0, i as int);
                assert(pre.last() == '/');
                assert(spec_replace_last_segment(pre, replacement@) == pre + replacement@);
            }
            return out;
        }
        proof {
            let pre = url@.subrange(0, i as int);
            assert(pre.last() == url@[i - 1]);
            assert(pre.drop_last() =~= url@.subrange(0, i - 1));
        }
        i -= 1;
    }
    proof {
        assert(url@.subrange(0, 0).len() == 0);
    }
    replacement.to_owned()
}

/// The MD5 digest (as lowercase hex) of the path part of an absolute
/// URL; `None` when the string is not an absolute URL.
pub fn path_to_md5(url_str: &str) -> (r: Option<String>)
    ensures
        match url_path_of(url_str@) {
            Some(p) => r is Some && r.unwrap()@ == md5_hex_of(p) && md5_hex_of(p).len() == 32,
            None => r is None,
        },
{
    match url_path(url_str) {
        Some(p) => Some(md5_hex(p.as_str())),
        None => None,
    }
}

/// The working folder of a download run, under the download directory:
/// the caller's folder name when one was supplied; else the MD5 digest
/// of the URL's path; else, when the URL does not parse, a fresh
/// timestamp name.
pub fn download_folder_path(download_dir: &str, folder: String, url: &str) -> (r: String)
    ensures
        folder@.len() > 0 ==> r@ == seq!['.', '/'] + download_dir@ + seq!['/'] + folder@,
        folder@.len() == 0 ==> match url_path_of(url@) {
            Some(p) => r@ == seq!['.', '/'] + download_dir@ + seq!['/'] + md5_hex_of(p),
            None => exists|t: nat|
                r@ == seq!['.', '/'] + download_dir@ + seq!['/'] + crate::strings::spec_u64_str(
                    t,
                ),
        },
{
    let name: String = if !folder.as_str().is_empty() {
        folder
    } else {
        match path_to_md5(url) {
            Some(digest) => digest,
            None => {
                let t = now();
                let fresh = crate::strings::u64_to_string(t);
                proof {
                    assert(fresh@ == crate::strings::spec_u64_str(t as nat));
                }
                fresh
            },
        }
    };
    let mut out = String::new();
    push_char(&mut out, '.');
    push_char(&mut out, '/');
    out.append(download_dir);
    push_char(&mut out, '/');
    out.append(name.as_str());
    proof {
        assert(out@ =~= seq!['.', '/'] + download_dir@ + seq!['/'] + name@);
    }
    out
}

/// The name `file_name` would have after moving it into `folder`: the
/// final `/`-separated component of `file_name` appended to `folder`.
pub open spec fn spec_move_file_name(file_name: Seq<char>, folder: Seq<char>) -> Seq<char> {
    folder + seq!['/'] + spec_split(file_name, '/').last()
}

/// Builds the destination path for moving `file_name` into `folder`.
pub fn get_move_file_name(file_name: String, folder: String) -> (r: String)
    ensures
        r@ == spec_move_file_name(file_name@, folder@),
{
    let pieces = split_by(file_name.as_str(), '/');
    proof {
        lemma_split_nonempty(file_name@, '/');
        assert(pieces@.map_values(|piece: String| piece@).len() == pieces@.len());
    }
    let lastp = &pieces[pieces.len() - 1];
    let mut out = folder;
    push_char(&mut out, '/');
    out.append(lastp.as_str());
    proof {
        assert(pieces@.map_values(|piece: String| piece@).last() == pieces@.last()@);
    }
    out
}

} // verus!
