//! Reassembly of downloaded segments: file-name enumeration from a
//! numbered pattern, the concat manifest handed to the external muxer,
//! raw byte concatenation for fragmented media, per-segment AES-128-CBC
//! decryption through OpenSSL, and the choice between those strategies.

use vstd::prelude::*;
use crate::download::spec_failed_count;
use crate::m3u8::{HlsM3u8Method, SpecM3u8};
use crate::strings::{
    i64_to_string, push_char, replace, spec_i64_str, spec_replace, spec_u64_str, str_views,
    u64_to_string,
};
use crate::common::now;

verus! {

/// The file names a numbered pattern denotes: `(.*)` in `reg_name`
/// replaced by each of `reg_start ..= reg_end` in turn.
pub fn get_reg_files(reg_name: String, reg_start: i32, reg_end: i32) -> (r: Result<
    Vec<String>,
    core::fmt::Error,
>)
    ensures
        r is Ok,
        ({
            let files = str_views(r.unwrap()@);
            &&& files.len() == if reg_start <= reg_end {
                reg_end - reg_start + 1
            } else {
                0int
            }
            &&& forall|k: int|
                0 <= k < files.len() ==> #[trigger] files[k] == spec_replace(
                    reg_name@,
                    "(.*)"@,
                    spec_i64_str(reg_start + k),
                )
        }),
{
    let mut files: Vec<String> = Vec::new();
    if reg_start > reg_end {
        assert(str_views(files@) =~= Seq::<Seq<char>>::empty());
        return Ok(files);
    }
    let mut i: i32 = reg_start;
    loop
        invariant_except_break
            reg_start <= i <= reg_end,
            files@.len() == i - reg_start,
            forall|k: int|
                0 <= k < files@.len() ==> #[trigger] str_views(files@)[k] == spec_replace(
                    reg_name@,
                    "(.*)"@,
                    spec_i64_str(reg_start + k),
                ),
        ensures
            files@.len() == reg_end - reg_start + 1,
            forall|k: int|
                0 <= k < files@.len() ==> #[trigger] str_views(files@)[k] == spec_replace(
                    reg_name@,
                    "(.*)"@,
                    spec_i64_str(reg_start + k),
                ),
        decreases reg_end - i,
    {
        let num = i64_to_string(i as i64);
        let file = replace(reg_name.as_str(), "(.*)", num.as_str());
        let ghost prev_files = files@;
        files.push(file);
        proof {
            crate::strings::lemma_str_views_push(prev_files, files@.last());
            assert(str_views(files@)[files@.len() - 1] == spec_replace(
                reg_name@,
                "(.*)"@,
                spec_i64_str(i as int),
            ));
        }
        if i == reg_end {
            break;
        }
        i += 1;
    }
    Ok(files)
}

/// The pattern with its `(.*)` hole removed: the name used when no
/// explicit target name was supplied.
pub fn get_reg_file_name(reg_name: String) -> (r: String)
    ensures
        r@ == spec_replace(reg_name@, "(.*)"@, Seq::<char>::empty()),
{
    proof {
        reveal_strlit("");
        assert(""@ =~= Seq::<char>::empty());
    }
    replace(reg_name.as_str(), "(.*)", "")
}

/// A fresh `<timestamp>.txt` name for the concat manifest.
pub fn to_files() -> (r: Result<String, core::fmt::Error>)
    ensures
        r is Ok,
        exists|t: nat| r.unwrap()@ == spec_u64_str(t) + ".txt"@,
{
    let t = now();
    let mut out = u64_to_string(t);
    out.append(".txt");
    proof {
        assert(out@ == spec_u64_str(t as nat) + ".txt"@);
    }
    Ok(out)
}

/// The target name of a combine run: the supplied name, or the pattern
/// with its hole removed when none was supplied.
pub fn combine_target_name(reg_name: &str, target_name: String) -> (r: String)
    ensures
        target_name@.len() == 0 ==> r@ == spec_replace(reg_name@, "(.*)"@, Seq::<char>::empty()),
        target_name@.len() > 0 ==> r@ == target_name@,
{
    if target_name.as_str().is_empty() {
        get_reg_file_name(reg_name.to_owned())
    } else {
        target_name
    }
}

/// The text of the concat manifest: one `file '<path>'` line per file,
/// in the order given.
pub open spec fn spec_file_list(files: Seq<Seq<char>>) -> Seq<char>
    decreases files.len(),
{
    if files.len() == 0 {
        Seq::empty()
    } else {
        "file '"@ + files[0] + seq!['\'', '\n'] + spec_file_list(files.skip(1))
    }
}

/// Renders the concat manifest for the external muxer: the given file
/// names, one `file '<path>'` line each, in the order given — which is
/// playlist order, never completion order.
pub fn render_file_list(files: &Vec<String>) -> (r: String)
    ensures
        r@ == spec_file_list(str_views(files@)),
{
    let mut out = String::new();
    let n = files.len();
    let mut i: usize = 0;
    proof {
        assert(str_views(files@).skip(0) =~= str_views(files@));
    }
    while i < n
        invariant
            n == files@.len(),
            i <= n,
            spec_file_list(str_views(files@)) == out@ + spec_file_list(
                str_views(files@).skip(i as int),
            ),
        decreases n - i,
    {
        let ghost prev = out@;
        out.append("file '");
        out.append(files[i].as_str());
        push_char(&mut out, '\'');
        push_char(&mut out, '\n');
        proof {
            let fs = str_views(files@);
            assert(fs.skip(i as int)[0] == fs[i as int]);
            assert(fs.skip(i as int).skip(1) =~= fs.skip(i + 1));
            assert(out@ =~= prev + ("file '"@ + fs[i as int] + seq!['\'', '\n']));
            assert(prev + ("file '"@ + fs[i as int] + seq!['\'', '\n']) + spec_file_list(
                fs.skip(i + 1),
            ) =~= prev + ("file '"@ + fs[i as int] + seq!['\'', '\n'] + spec_file_list(
                fs.skip(i + 1),
            )));
        }
        i += 1;
    }
    proof {
        assert(str_views(files@).skip(n as int).len() == 0);
        assert(out@ =~= spec_file_list(str_views(files@)));
    }
    out
}

/// The views of a sequence of byte vectors.
pub open spec fn byte_views(l: Seq<Vec<u8>>) -> Seq<Seq<u8>> {
    l.map_values(|v: Vec<u8>| v@)
}

/// The bytes of several chunks laid end to end, in order.
pub open spec fn spec_concat_bytes(chunks: Seq<Seq<u8>>) -> Seq<u8>
    decreases chunks.len(),
{
    if chunks.len() == 0 {
        Seq::empty()
    } else {
        chunks[0] + spec_concat_bytes(chunks.skip(1))
    }
}

/// Concatenates segment payloads in the order given: the output is
/// exactly chunk 0, then chunk 1, and so on — the fragmented-media
/// reassembly step, with the init segment as chunk 0.
pub fn concat_segment_bytes(chunks: &Vec<Vec<u8>>) -> (out: Vec<u8>)
    ensures
        out@ == spec_concat_bytes(byte_views(chunks@)),
{
    let mut out: Vec<u8> = Vec::new();
    let n = chunks.len();
    let mut i: usize = 0;
    proof {
        assert(byte_views(chunks@).skip(0) =~= byte_views(chunks@));
    }
    while i < n
        invariant
            n == chunks@.len(),
            i <= n,
            spec_concat_bytes(byte_views(chunks@)) == out@ + spec_concat_bytes(
                byte_views(chunks@).skip(i as int),
            ),
        decreases n - i,
    {
        let ghost prev = out@;
        out.extend_from_slice(chunks[i].as_slice());
        proof {
            let cs = byte_views(chunks@);
            assert(cs.skip(i as int)[0] == cs[i as int]);
            assert(cs.skip(i as int).skip(1) =~= cs.skip(i + 1));
            assert(out@ =~= prev + cs[i as int]);
            assert(prev + cs[i as int] + spec_concat_bytes(cs.skip(i + 1)) =~= prev + (
            cs[i as int] + spec_concat_bytes(cs.skip(i + 1))));
        }
        i += 1;
    }
    proof {
        assert(byte_views(chunks@).skip(n as int).len() == 0);
        assert(out@ =~= spec_concat_bytes(byte_views(chunks@)));
    }
    out
}

/// Decryption failed: the ciphertext is malformed for AES-128-CBC with
/// the given key and IV (wrong key, wrong IV or corrupt data).
#[derive(PartialEq, Eq, Structural, Debug, Clone, Copy)]
pub enum DecryptError {
    BadCiphertext,
}

/// What AES-128-CBC decryption with PKCS#7 padding removal yields for a
/// key, IV and ciphertext: `None` when OpenSSL rejects the combination.
/// A function of the three inputs alone.
pub uninterp spec fn aes128_cbc_plaintext(key: Seq<u8>, iv: Seq<u8>, data: Seq<u8>) -> Option<
    Seq<u8>,
>;

/// Declares OpenSSL's error type so that the decryption wrapper can
/// hand it through.
#[verifier::external_type_specification]
#[verifier::external_body]
pub struct ExErrorStack(openssl::error::ErrorStack);

/// Relies on `openssl::symm::decrypt` with `Cipher::aes_128_cbc`: the
/// outcome is a function of key, IV and ciphertext alone — the one
/// determined plaintext on success, an error exactly when the three
/// are malformed for AES-128-CBC with PKCS#7 padding (resource
/// exhaustion inside OpenSSL left aside). The length bounds keep clear
/// of the `c_int` conversions that the OpenSSL bindings unwrap: data,
/// key and IV lengths are each converted to a C `int`, and the output
/// buffer adds one block to the data length.
#[verifier::external_body]
fn openssl_aes128_cbc_decrypt(key: &[u8], iv: &[u8], data: &[u8]) -> (r: Result<
    Vec<u8>,
    openssl::error::ErrorStack,
>)
    requires
        data@.len() <= 0x7fff_ffef,
        key@.len() <= 0x7fff_ffff,
        iv@.len() <= 0x7fff_ffff,
    ensures
        (match r {
            Ok(v) => aes128_cbc_plaintext(key@, iv@, data@) == Some(v@),
            Err(_) => aes128_cbc_plaintext(key@, iv@, data@) is None,
        }),
{
    openssl::symm::decrypt(openssl::symm::Cipher::aes_128_cbc(), key, Some(iv), data)
}

/// Decrypts one segment's bytes with AES-128-CBC. Succeeds exactly when
/// the key, IV and ciphertext form a well-formed combination: a success
/// returns the one plaintext they determine, and a malformed segment
/// yields an error, never partial or pass-through bytes.
pub fn decrypt_segment(key: &[u8], iv: &[u8], data: &[u8]) -> (r: Result<Vec<u8>, DecryptError>)
    requires
        data@.len() <= 0x7fff_ffef,
        key@.len() <= 0x7fff_ffff,
        iv@.len() <= 0x7fff_ffff,
    ensures
        (match r {
            Ok(v) => aes128_cbc_plaintext(key@, iv@, data@) == Some(v@),
            Err(e) => aes128_cbc_plaintext(key@, iv@, data@) is None && e
                == DecryptError::BadCiphertext,
        }),
        aes128_cbc_plaintext(key@, iv@, data@) is Some ==> r is Ok,
{
    match openssl_aes128_cbc_decrypt(key, iv, data) {
        Ok(v) => Ok(v),
        Err(_) => Err(DecryptError::BadCiphertext),
    }
}

/// Decrypts every segment of an encrypted playlist with the one key and
/// the one playlist-level IV, keeping index order: entry `i` of the
/// result is the plaintext of segment `i`. Succeeds exactly when every
/// segment decrypts; one malformed segment fails the whole batch, so no
/// partially decrypted set ever reaches the assembler.
pub fn decrypt_all_segments(key: &[u8], iv: &[u8], segments: &Vec<Vec<u8>>) -> (r: Result<
    Vec<Vec<u8>>,
    DecryptError,
>)
    requires
        forall|i: int| 0 <= i < segments@.len() ==> (#[trigger] segments@[i])@.len()
            <= 0x7fff_ffef,
        key@.len() <= 0x7fff_ffff,
        iv@.len() <= 0x7fff_ffff,
    ensures
        (match r {
            Ok(v) => v@.len() == segments@.len() && forall|i: int|
                0 <= i < v@.len() ==> aes128_cbc_plaintext(key@, iv@, (#[trigger] segments@[i])@)
                    == Some(v@[i]@),
            Err(_) => exists|i: int|
                0 <= i < segments@.len() && aes128_cbc_plaintext(
                    key@,
                    iv@,
                    (#[trigger] segments@[i])@,
                ) is None,
        }),
        (forall|i: int|
            0 <= i < segments@.len() ==> (#[trigger] aes128_cbc_plaintext(
                key@,
                iv@,
                segments@[i]@,
            )) is Some) ==> r is Ok,
{
    let mut out: Vec<Vec<u8>> = Vec::new();
    let n = segments.len();
    let mut i: usize = 0;
    while i < n
        invariant
            n == segments@.len(),
            i <= n,
            out@.len() == i,
            forall|k: int| 0 <= k < n ==> (#[trigger] segments@[k])@.len() <= 0x7fff_ffef,
            key@.len() <= 0x7fff_ffff,
            iv@.len() <= 0x7fff_ffff,
            forall|k: int|
                0 <= k < i ==> aes128_cbc_plaintext(key@, iv@, (#[trigger] segments@[k])@)
                    == Some(out@[k]@),
        decreases n - i,
    {
        match decrypt_segment(key, iv, segments[i].as_slice()) {
            Ok(plain) => {
                out.push(plain);
            },
            Err(e) => {
                return Err(e);
            },
        }
        i += 1;
    }
    Ok(out)
}

/// How the downloaded segments are turned into one stream.
#[derive(PartialEq, Eq, Structural, Debug, Clone, Copy)]
pub enum CombinePlan {
    /// Fragmented media: prepend the init segment and concatenate the
    /// raw bytes in index order.
    RawConcat,
    /// AES-128 encrypted: decrypt every segment, then concatenate the
    /// decrypted files in index order through the muxer manifest.
    DecryptAes128,
    /// SampleAES is not implemented: the run must fail loudly rather
    /// than pass ciphertext through.
    Unsupported,
    /// Unencrypted: concatenate the segment files in index order
    /// through the muxer manifest.
    PlainConcat,
}

/// Chooses the reassembly strategy from the playlist: fragmented media
/// always concatenates raw bytes; otherwise the encryption method
/// decides, with SampleAES refused as unsupported.
pub fn combine_plan(method: &Option<HlsM3u8Method>, x_map_uri: &str) -> (r: CombinePlan)
    ensures
        x_map_uri@.len() > 0 ==> r == CombinePlan::RawConcat,
        x_map_uri@.len() == 0 ==> r == (match method {
            Some(HlsM3u8Method::Aes128) => CombinePlan::DecryptAes128,
            Some(HlsM3u8Method::SampleAes) => CombinePlan::Unsupported,
            None => CombinePlan::PlainConcat,
        }),
{
    if !x_map_uri.is_empty() {
        return CombinePlan::RawConcat;
    }
    match method {
        Some(HlsM3u8Method::Aes128) => CombinePlan::DecryptAes128,
        Some(HlsM3u8Method::SampleAes) => CombinePlan::Unsupported,
        None => CombinePlan::PlainConcat,
    }
}

/// The name of segment file `i` in the working folder: `<i>.<ext>`.
pub open spec fn spec_plain_segment_name(i: int, extension: Seq<char>) -> Seq<char> {
    spec_i64_str(i) + seq!['.'] + extension
}

/// The file order of the assembled output: the init segment's file
/// first when there is one, then the indexed segment files in strictly
/// ascending index order.
pub open spec fn spec_assembly_files(has_init: bool, n: int, extension: Seq<char>) -> Seq<
    Seq<char>,
> {
    (if has_init {
        seq![spec_plain_segment_name(-1, extension)]
    } else {
        Seq::empty()
    }) + Seq::new(n as nat, |i: int| spec_plain_segment_name(i, extension))
}

/// Builds the assembled-output file order for `n` segments.
pub fn assembly_file_list(n: usize, has_init: bool, extension: &str) -> (r: Vec<String>)
    requires
        n <= 0x7fff_ffff,
    ensures
        str_views(r@) == spec_assembly_files(has_init, n as int, extension@),
{
    let mut files: Vec<String> = Vec::new();
    if has_init {
        let ghost prev_files = files@;
        files.push(plain_segment_name(-1, extension));
        proof {
            crate::strings::lemma_str_views_push(prev_files, files@.last());
        }
    }
    let ghost init_count: int = if has_init { 1int } else { 0int };
    let mut i: usize = 0;
    while i < n
        invariant
            n <= 0x7fff_ffff,
            i <= n,
            files@.len() == init_count + i,
            init_count == if has_init { 1int } else { 0int },
            has_init ==> str_views(files@)[0] == spec_plain_segment_name(-1, extension@),
            forall|k: int|
                init_count <= k < files@.len() ==> #[trigger] str_views(files@)[k]
                    == spec_plain_segment_name(k - init_count, extension@),
        decreases n - i,
    {
        let ghost prev_files = files@;
        files.push(plain_segment_name(i as i32, extension));
        proof {
            crate::strings::lemma_str_views_push(prev_files, files@.last());
            assert(str_views(files@)[init_count + i] == spec_plain_segment_name(
                i as int,
                extension@,
            ));
            assert(forall|k: int|
                init_count <= k < files@.len() ==> #[trigger] str_views(files@)[k]
                    == spec_plain_segment_name(k - init_count, extension@));
        }
        i += 1;
    }
    proof {
        assert(str_views(files@) =~= spec_assembly_files(has_init, n as int, extension@));
    }
    files
}

/// Builds the segment file name `<i>.<ext>`.
pub fn plain_segment_name(i: i32, extension: &str) -> (r: String)
    ensures
        r@ == spec_plain_segment_name(i as int, extension@),
{
    let mut out = i64_to_string(i as i64);
    push_char(&mut out, '.');
    out.append(extension);
    proof {
        assert(out@ =~= spec_plain_segment_name(i as int, extension@));
    }
    out
}

/// Law: workers and assembler agree on file names. The destination a
/// worker downloads segment `i` into is exactly the assembler's file
/// for segment `i`, addressed from the working folder.
pub proof fn lemma_destination_matches_assembly(i: int, extension: Seq<char>)
    ensures
        crate::download::spec_segment_file_name(i, extension) == seq!['.', '/']
            + spec_plain_segment_name(i, extension),
{
    assert(crate::download::spec_segment_file_name(i, extension) =~= seq!['.', '/']
        + spec_plain_segment_name(i, extension));
}

/// What a run hands to reassembly once it has observed one completion
/// signal per submitted job: the ordered file list when every signal
/// reported success, nothing otherwise.
pub open spec fn spec_run_output(m: SpecM3u8, events: Seq<bool>) -> Option<Seq<Seq<char>>> {
    if events.len() == m.list.len() && spec_failed_count(events) == 0 {
        Some(spec_assembly_files(m.x_map_uri.len() > 0, m.list.len() as int, m.extension))
    } else {
        None
    }
}

/// Law: the assembled order never depends on completion order. Two runs
/// over the same playlist whose workers report the same multiset of
/// completion signals — in any order — produce the same outcome, and
/// whenever an output is produced its file order is the playlist's own
/// index order, init segment first.
pub proof fn lemma_order_independent_assembly(m: SpecM3u8, e1: Seq<bool>, e2: Seq<bool>)
    requires
        e1.to_multiset() == e2.to_multiset(),
    ensures
        spec_run_output(m, e1) == spec_run_output(m, e2),
        (spec_run_output(m, e1) matches Some(files) ==> files == spec_assembly_files(
            m.x_map_uri.len() > 0,
            m.list.len() as int,
            m.extension,
        )),
{
    crate::download::lemma_completion_order_irrelevant(e1, e2);
}

} // verus!
