//! Download planning: one fetch job per segment, destination file names,
//! the skip-if-present worker decision, the completion barrier that the
//! coordinator blocks on, and the session state that lets a later run
//! resume the same download.

use vstd::prelude::*;
use crate::m3u8::{HlsM3u8, SpecM3u8};
use crate::common::{now, url_parses, is_url, replace_last_segment, spec_replace_last_segment};
use crate::strings::{
    i32_to_string, push_char, spec_i64_str, spec_u64_str, str_views, u64_to_string,
};

verus! {

/// One fetch unit: segment index (`-1` for the init segment), absolute
/// locator and destination file extension.
pub struct VideoTs {
    pub index: i32,
    pub url: String,
    pub extension: String,
}

impl VideoTs {
    /// A blank job: index zero, empty locator and extension.
    pub fn new() -> (v: VideoTs)
        ensures
            v.index == 0,
            v.url@ == Seq::<char>::empty(),
            v.extension@ == Seq::<char>::empty(),
    {
        VideoTs { index: 0, url: String::new(), extension: String::new() }
    }

    /// Fills all three fields.
    pub fn set(&mut self, index: i32, url: String, extension: String)
        ensures
            final(self).index == index,
            final(self).url@ == url@,
            final(self).extension@ == extension@,
    {
        self.index = index;
        self.url = url;
        self.extension = extension;
    }
}

/// The destination file of a job: `./<index>.<extension>`.
pub open spec fn spec_segment_file_name(index: int, extension: Seq<char>) -> Seq<char> {
    seq!['.', '/'] + spec_i64_str(index) + seq!['.'] + extension
}

/// Builds the destination file name `./<index>.<extension>`.
pub fn segment_file_name(index: i32, extension: &str) -> (r: String)
    ensures
        r@ == spec_segment_file_name(index as int, extension@),
{
    let mut out = String::new();
    push_char(&mut out, '.');
    push_char(&mut out, '/');
    let num = i32_to_string(index);
    out.append(num.as_str());
    push_char(&mut out, '.');
    out.append(extension);
    proof {
        assert(out@ =~= spec_segment_file_name(index as int, extension@));
    }
    out
}

/// Builds one fetch job per segment, in playlist order: job `k` carries
/// index `k`, the `k`-th segment locator and the playlist's extension.
pub fn build_jobs(m: &HlsM3u8) -> (jobs: Vec<VideoTs>)
    requires
        m@.list.len() <= 0x7fff_ffff,
    ensures
        jobs@.len() == m@.list.len(),
        forall|k: int|
            0 <= k < jobs@.len() ==> (#[trigger] jobs@[k]).index == k && jobs@[k].url@
                == m@.list[k] && jobs@[k].extension@ == m@.extension,
{
    let mut jobs: Vec<VideoTs> = Vec::new();
    let n = m.list.len();
    let mut k: usize = 0;
    while k < n
        invariant
            n == m.list@.len(),
            n <= 0x7fff_ffff,
            k <= n,
            jobs@.len() == k,
            forall|j: int|
                0 <= j < k ==> (#[trigger] jobs@[j]).index == j && jobs@[j].url@
                    == m@.list[j] && jobs@[j].extension@ == m@.extension,
        decreases n - k,
    {
        let mut ts = VideoTs::new();
        ts.set(k as i32, m.list[k].clone(), m.extension.clone());
        jobs.push(ts);
        k += 1;
    }
    jobs
}

/// The job that fetches the init segment of a fragmented-media playlist:
/// index `-1`, the map reference resolved against the source locator
/// `source` unless it is already absolute. `None` when the playlist has
/// no init segment.
pub fn init_job(m: &HlsM3u8, source: &str) -> (r: Option<VideoTs>)
    ensures
        m@.x_map_uri.len() == 0 ==> r is None,
        m@.x_map_uri.len() > 0 ==> (match r {
            Some(v) => v.index == -1 && v.extension@ == m@.extension && v.url@ == (
            if url_parses(m@.x_map_uri) {
                m@.x_map_uri
            } else {
                spec_replace_last_segment(source@, m@.x_map_uri)
            }),
            None => false,
        }),
{
    if m.x_map_uri.as_str().is_empty() {
        return None;
    }
    let x_url = if is_url(m.x_map_uri.clone()) {
        m.x_map_uri.clone()
    } else {
        replace_last_segment(source, m.x_map_uri.as_str())
    };
    let mut v = VideoTs::new();
    v.set(-1, x_url, m.extension.clone());
    Some(v)
}

/// What a worker does with one job, given whether the destination file
/// is already on disk.
pub enum DownloadStep {
    /// The destination exists: the job is already satisfied and no
    /// fetch is performed.
    AlreadyPresent,
    /// Fetch `url` and write the body to `destination`.
    Fetch { url: String, destination: String },
}

/// The worker decision for one job: a job whose destination file exists
/// is never fetched again; otherwise the job's locator is fetched into
/// `./<index>.<extension>`.
pub fn worker_step(job: &VideoTs, destination_exists: bool) -> (r: DownloadStep)
    ensures
        destination_exists ==> r is AlreadyPresent,
        !destination_exists ==> (match r {
            DownloadStep::Fetch { url, destination } => url@ == job.url@ && destination@
                == spec_segment_file_name(job.index as int, job.extension@),
            DownloadStep::AlreadyPresent => false,
        }),
{
    if destination_exists {
        DownloadStep::AlreadyPresent
    } else {
        let destination = segment_file_name(job.index, job.extension.as_str());
        DownloadStep::Fetch { url: job.url.clone(), destination }
    }
}

/// Law: the scheduler is resumable. Take one decision per job under the
/// worker rule — a job whose destination file already exists is treated
/// as satisfied. When every destination is present, as after a completed
/// earlier run over the same folder, no job leads to a fetch: a second
/// run performs zero network transfers.
pub proof fn lemma_rerun_fetches_nothing(
    destination_exists: Seq<bool>,
    steps: Seq<DownloadStep>,
)
    requires
        steps.len() == destination_exists.len(),
        forall|i: int|
            0 <= i < steps.len() && destination_exists[i] ==> (#[trigger] steps[i])
                is AlreadyPresent,
        forall|i: int| 0 <= i < destination_exists.len() ==> #[trigger] destination_exists[i],
    ensures
        forall|i: int| 0 <= i < steps.len() ==> !((#[trigger] steps[i]) is Fetch),
{
}

/// The completion barrier: the coordinator counts every completion
/// signal, success or failure alike, and proceeds only when as many
/// signals arrived as jobs were submitted.
pub struct DownloadProgress {
    /// How many jobs were submitted.
    pub total: usize,
    /// How many completion signals have been observed.
    pub done: usize,
    /// How many of those signals reported failure.
    pub failed: usize,
}

impl DownloadProgress {
    /// The counters are consistent.
    pub open spec fn wf(&self) -> bool {
        self.done <= self.total && self.failed <= self.done
    }

    /// A barrier expecting `total` signals.
    pub fn new(total: usize) -> (p: DownloadProgress)
        ensures
            p.total == total,
            p.done == 0,
            p.failed == 0,
            p.wf(),
    {
        DownloadProgress { total, done: 0, failed: 0 }
    }

    /// Observes one completion signal. Every signal counts towards the
    /// barrier, whether it reports success or failure, so a failed fetch
    /// can never leave the coordinator waiting forever.
    pub fn record(&mut self, success: bool)
        requires
            old(self).wf(),
            old(self).done < old(self).total,
        ensures
            final(self).total == old(self).total,
            final(self).done == old(self).done + 1,
            final(self).failed == old(self).failed + (if success { 0int } else { 1int }),
            final(self).wf(),
    {
        self.done = self.done + 1;
        if !success {
            self.failed = self.failed + 1;
        }
    }

    /// Whether every submitted job has reported back.
    pub fn is_complete(&self) -> (r: bool)
        ensures
            r == (self.done == self.total),
    {
        self.done == self.total
    }

    /// Whether no job has reported failure.
    pub fn all_succeeded(&self) -> (r: bool)
        ensures
            r == (self.failed == 0),
    {
        self.failed == 0
    }
}

/// How many of a sequence of completion signals report failure.
pub open spec fn spec_failed_count(events: Seq<bool>) -> int {
    events.filter(|success: bool| !success).len() as int
}

proof fn lemma_failed_count_is_multiset_count(events: Seq<bool>)
    ensures
        spec_failed_count(events) == events.to_multiset().count(false),
    decreases events.len(),
{
    broadcast use vstd::seq_lib::group_to_multiset_ensures;

    if events.len() == 0 {
        assert(!events.contains(false));
        reveal(Seq::filter);
    } else {
        let prefix = events.drop_last();
        lemma_failed_count_is_multiset_count(prefix);
        assert(events =~= prefix.push(events.last()));
        assert(events.to_multiset() =~= prefix.to_multiset().insert(events.last()));
        reveal(Seq::filter);
        assert(events.filter(|success: bool| !success) == if !events.last() {
            prefix.filter(|success: bool| !success).push(events.last())
        } else {
            prefix.filter(|success: bool| !success)
        });
    }
}

/// Law: what the barrier reports depends only on which signals arrived,
/// not on the order they arrived in. Two runs whose workers complete in
/// different orders observe the same signal count and the same failure
/// count.
pub proof fn lemma_completion_order_irrelevant(e1: Seq<bool>, e2: Seq<bool>)
    requires
        e1.to_multiset() == e2.to_multiset(),
    ensures
        e1.len() == e2.len(),
        spec_failed_count(e1) == spec_failed_count(e2),
{
    broadcast use vstd::seq_lib::group_to_multiset_ensures;

    e1.to_multiset_ensures();
    e2.to_multiset_ensures();
    lemma_failed_count_is_multiset_count(e1);
    lemma_failed_count_is_multiset_count(e2);
}

/// The opening of the session-state object, up to the first character
/// of the stored URL.
pub open spec fn spec_json_head() -> Seq<char> {
    "{\"url\":\""@
}

/// The middle of the session-state object, between the stored URL's
/// closing quote (exclusive) and the first character of the stored
/// playlist name.
pub open spec fn spec_json_mid() -> Seq<char> {
    ",\"m3u8_name\":\""@
}

/// The lowercase hex digit for a value below sixteen.
pub open spec fn spec_hex_char(d: int) -> char {
    if d == 0 { '0' }
    else if d == 1 { '1' }
    else if d == 2 { '2' }
    else if d == 3 { '3' }
    else if d == 4 { '4' }
    else if d == 5 { '5' }
    else if d == 6 { '6' }
    else if d == 7 { '7' }
    else if d == 8 { '8' }
    else if d == 9 { '9' }
    else if d == 10 { 'a' }
    else if d == 11 { 'b' }
    else if d == 12 { 'c' }
    else if d == 13 { 'd' }
    else if d == 14 { 'e' }
    else { 'f' }
}

/// How one character is written inside a JSON string: quote and
/// backslash get a backslash escape, control characters a `\u00XX`
/// escape, everything else stands for itself.
pub open spec fn spec_escape_char(c: char) -> Seq<char> {
    if c == '"' {
        seq!['\\', '"']
    } else if c == '\\' {
        seq!['\\', '\\']
    } else if (c as u32) < 32 {
        seq![
            '\\',
            'u',
            '0',
            '0',
            spec_hex_char((c as u32) as int / 16),
            spec_hex_char((c as u32) as int % 16),
        ]
    } else {
        seq![c]
    }
}

/// A string written inside JSON quotes, character by character.
pub open spec fn spec_escape(s: Seq<char>) -> Seq<char>
    decreases s.len(),
{
    if s.len() == 0 {
        Seq::empty()
    } else {
        spec_escape_char(s[0]) + spec_escape(s.skip(1))
    }
}

/// The session-state file's text for a stored URL and playlist name:
/// a JSON object with the two fields `url` and `m3u8_name`.
pub open spec fn spec_base_info_json(url: Seq<char>, m3u8_name: Seq<char>) -> Seq<char> {
    spec_json_head() + spec_escape(url) + seq!['"'] + spec_json_mid() + spec_escape(m3u8_name)
        + seq!['"', '}']
}

fn hex_char(d: u32) -> (c: char)
    requires
        d < 16,
    ensures
        c == spec_hex_char(d as int),
{
    if d == 0 { '0' }
    else if d == 1 { '1' }
    else if d == 2 { '2' }
    else if d == 3 { '3' }
    else if d == 4 { '4' }
    else if d == 5 { '5' }
    else if d == 6 { '6' }
    else if d == 7 { '7' }
    else if d == 8 { '8' }
    else if d == 9 { '9' }
    else if d == 10 { 'a' }
    else if d == 11 { 'b' }
    else if d == 12 { 'c' }
    else if d == 13 { 'd' }
    else if d == 14 { 'e' }
    else { 'f' }
}

/// Appends `s` to `out` in JSON string escaping.
fn escape_append(out: &mut String, s: &str)
    ensures
        final(out)@ == old(out)@ + spec_escape(s@),
{
    let len = s.unicode_len();
    let mut i: usize = 0;
    proof {
        assert(s@.skip(0) =~= s@);
        assert(old(out)@ + spec_escape(s@) =~= old(out)@ + spec_escape(s@.skip(0)));
    }
    while i < len
        invariant
            len == s@.len(),
            i <= len,
            old(out)@ + spec_escape(s@) == out@ + spec_escape(s@.skip(i as int)),
        decreases len - i,
    {
        let c = s.get_char(i);
        let ghost prev = out@;
        let cv = c as u32;
        if c == '"' {
            push_char(out, '\\');
            push_char(out, '"');
        } else if c == '\\' {
            push_char(out, '\\');
            push_char(out, '\\');
        } else if cv < 32 {
            push_char(out, '\\');
            push_char(out, 'u');
            push_char(out, '0');
            push_char(out, '0');
            push_char(out, hex_char(cv / 16));
            push_char(out, hex_char(cv % 16));
        } else {
            push_char(out, c);
        }
        proof {
            assert(out@ =~= prev + spec_escape_char(s@[i as int]));
            assert(s@.skip(i as int).skip(1) =~= s@.skip(i + 1));
            assert(prev + (spec_escape_char(s@[i as int]) + spec_escape(s@.skip(i + 1))) =~= (
            prev + spec_escape_char(s@[i as int])) + spec_escape(s@.skip(i + 1)));
        }
        i += 1;
    }
    proof {
        assert(s@.skip(len as int).len() == 0);
        assert(out@ =~= old(out)@ + spec_escape(s@));
    }
}

/// The session state persisted in an output folder: the original source
/// URL and the playlist file name, so a later run in the same folder
/// can resume without being handed the URL again.
pub struct BaseInfo {
    pub url: String,
    pub m3u8_name: String,
}

impl BaseInfo {
    /// Empty session state.
    pub fn new() -> (b: BaseInfo)
        ensures
            b.url@ == Seq::<char>::empty(),
            b.m3u8_name@ == Seq::<char>::empty(),
    {
        BaseInfo { url: String::new(), m3u8_name: String::new() }
    }

    /// Stores the source URL.
    pub fn set_host(&mut self, url: String)
        ensures
            final(self).url@ == url@,
            final(self).m3u8_name@ == old(self).m3u8_name@,
    {
        self.url = url;
    }

    /// Stores the playlist file name.
    pub fn set_m3u8_name(&mut self, m3u8_name: String)
        ensures
            final(self).m3u8_name@ == m3u8_name@,
            final(self).url@ == old(self).url@,
    {
        self.m3u8_name = m3u8_name;
    }

    /// Renders the session state as the JSON text persisted on disk.
    pub fn to_json(&self) -> (r: String)
        ensures
            r@ == spec_base_info_json(self.url@, self.m3u8_name@),
    {
        let mut out = String::new();
        out.append("{\"url\":\"");
        escape_append(&mut out, self.url.as_str());
        push_char(&mut out, '"');
        out.append(",\"m3u8_name\":\"");
        escape_append(&mut out, self.m3u8_name.as_str());
        push_char(&mut out, '"');
        push_char(&mut out, '}');
        proof {
            assert(out@ =~= spec_base_info_json(self.url@, self.m3u8_name@));
        }
        out
    }
}

/// A lowercase hexadecimal digit.
pub open spec fn spec_is_hex_lc(c: char) -> bool {
    (48 <= c as u32 <= 57) || (97 <= c as u32 <= 102)
}

/// The value of a lowercase hexadecimal digit.
pub open spec fn spec_hex_val(c: char) -> int {
    if 48 <= c as u32 <= 57 {
        c as u32 - 48
    } else {
        c as u32 - 87
    }
}

/// Reads one JSON string body starting inside the quotes: the decoded
/// characters and how many input characters were consumed, including
/// the closing quote. `None` when the input is not a string body in the
/// exact form this crate writes (escapes for quote, backslash and
/// `\u00XX` control characters only, lowercase hex).
pub open spec fn spec_scan_string(s: Seq<char>) -> Option<(Seq<char>, int)>
    decreases s.len(),
{
    if s.len() == 0 {
        None
    } else if s[0] == '"' {
        Some((Seq::empty(), 1))
    } else if s[0] == '\\' {
        if s.len() < 2 {
            None
        } else if s[1] == '"' || s[1] == '\\' {
            match spec_scan_string(s.skip(2)) {
                Some(p) => Some((seq![s[1]] + p.0, 2 + p.1)),
                None => None,
            }
        } else if s[1] == 'u' {
            if s.len() < 6 {
                None
            } else if s[2] == '0' && s[3] == '0' && spec_is_hex_lc(s[4]) && spec_is_hex_lc(s[5])
                && spec_hex_val(s[4]) * 16 + spec_hex_val(s[5]) < 32 {
                match spec_scan_string(s.skip(6)) {
                    Some(p) => Some(
                        (
                            seq![(((spec_hex_val(s[4]) * 16 + spec_hex_val(s[5])) as u32) as char)]
                                + p.0,
                            6 + p.1,
                        ),
                    ),
                    None => None,
                }
            } else {
                None
            }
        } else {
            None
        }
    } else if (s[0] as u32) >= 32 {
        match spec_scan_string(s.skip(1)) {
            Some(p) => Some((seq![s[0]] + p.0, 1 + p.1)),
            None => None,
        }
    } else {
        None
    }
}

fn hex_val(c: char) -> (v: u32)
    requires
        spec_is_hex_lc(c),
    ensures
        v as int == spec_hex_val(c),
        v < 16,
{
    let cv = c as u32;
    if cv <= 57 {
        cv - 48
    } else {
        cv - 87
    }
}

fn is_hex_lc(c: char) -> (r: bool)
    ensures
        r == spec_is_hex_lc(c),
{
    let cv = c as u32;
    (48 <= cv && cv <= 57) || (97 <= cv && cv <= 102)
}

/// Reads one JSON string body out of `s`, starting at `from` (just
/// after the opening quote).
fn scan_json_string(s: &str, from: usize) -> (r: Option<(String, usize)>)
    requires
        from <= s@.len(),
    ensures
        match r {
            Some(p) => spec_scan_string(s@.skip(from as int)) == Some((p.0@, p.1 as int)) && from
                + p.1 <= s@.len(),
            None => spec_scan_string(s@.skip(from as int)) is None,
        },
{
    let len = s.unicode_len();
    let mut pos: usize = from;
    let mut out = String::new();
    loop
        invariant
            len == s@.len(),
            from <= pos <= len,
            ({
                let whole = spec_scan_string(s@.skip(from as int));
                let rest = spec_scan_string(s@.skip(pos as int));
                match rest {
                    Some(p) => whole == Some((out@ + p.0, (pos - from) + p.1)),
                    None => whole is None,
                }
            }),
        decreases len - pos,
    {
        if pos == len {
            assert(s@.skip(pos as int).len() == 0);
            return None;
        }
        let c = s.get_char(pos);
        let ghost tail = s@.skip(pos as int);
        proof {
            assert(tail[0] == s@[pos as int]);
            assert(tail.skip(1) =~= s@.skip(pos + 1));
        }
        if c == '"' {
            proof {
                assert(spec_scan_string(tail) == Some((Seq::<char>::empty(), 1int)));
                assert(out@ + Seq::<char>::empty() =~= out@);
            }
            return Some((out, pos + 1 - from));
        }
        if c == '\\' {
            if pos + 1 == len {
                assert(tail.len() < 2);
                return None;
            }
            let c2 = s.get_char(pos + 1);
            proof {
                assert(tail[1] == s@[pos + 1]);
            }
            if c2 == '"' || c2 == '\\' {
                let ghost prev = out@;
                push_char(&mut out, c2);
                proof {
                    assert(tail.skip(2) =~= s@.skip(pos + 2));
                    assert(out@ =~= prev.push(c2));
                    if spec_scan_string(s@.skip(pos + 2)) is Some {
                        let p = spec_scan_string(s@.skip(pos + 2)).unwrap();
                        assert(out@ + p.0 =~= prev + (seq![c2] + p.0));
                    }
                }
                pos += 2;
            } else if c2 == 'u' {
                if len - pos < 6 {
                    assert(tail.len() < 6);
                    return None;
                }
                let c3 = s.get_char(pos + 2);
                let c4 = s.get_char(pos + 3);
                let h1 = s.get_char(pos + 4);
                let h2 = s.get_char(pos + 5);
                proof {
                    assert(tail[2] == s@[pos + 2]);
                    assert(tail[3] == s@[pos + 3]);
                    assert(tail[4] == s@[pos + 4]);
                    assert(tail[5] == s@[pos + 5]);
                }
                if c3 != '0' || c4 != '0' || !is_hex_lc(h1) || !is_hex_lc(h2) {
                    return None;
                }
                let val: u32 = hex_val(h1) * 16 + hex_val(h2);
                if val >= 32 {
                    return None;
                }
                let decoded: char = (val as u8) as char;
                let ghost prev = out@;
                push_char(&mut out, decoded);
                proof {
                    assert(decoded as u32 == val);
                    assert(tail.skip(6) =~= s@.skip(pos + 6));
                    assert(out@ =~= prev.push(decoded));
                    if spec_scan_string(s@.skip(pos + 6)) is Some {
                        let p = spec_scan_string(s@.skip(pos + 6)).unwrap();
                        assert(out@ + p.0 =~= prev + (seq![decoded] + p.0));
                    }
                }
                pos += 6;
            } else {
                return None;
            }
        } else {
            let cv = c as u32;
            if cv < 32 {
                return None;
            }
            let ghost prev = out@;
            push_char(&mut out, c);
            proof {
                assert(out@ =~= prev.push(c));
                if spec_scan_string(s@.skip(pos + 1)) is Some {
                    let p = spec_scan_string(s@.skip(pos + 1)).unwrap();
                    assert(out@ + p.0 =~= prev + (seq![c] + p.0));
                }
            }
            pos += 1;
        }
    }
}

/// The session state denoted by state-file text `s`: `None` unless `s`
/// is exactly a JSON object of the form this crate writes, with the
/// stored URL and playlist name as its two fields.
pub open spec fn spec_parse_base_info(s: Seq<char>) -> Option<(Seq<char>, Seq<char>)> {
    if !crate::strings::spec_starts_with(s, spec_json_head()) {
        None
    } else {
        match spec_scan_string(s.skip(spec_json_head().len() as int)) {
            Some(p_url) => {
                let p1 = spec_json_head().len() + p_url.1;
                if crate::strings::spec_starts_with(s.skip(p1 as int), spec_json_mid()) {
                    match spec_scan_string(s.skip(p1 + spec_json_mid().len() as int)) {
                        Some(p_name) => {
                            let p2 = p1 + spec_json_mid().len() + p_name.1;
                            if s.len() == p2 + 1 && s[p2 as int] == '}' {
                                Some((p_url.0, p_name.0))
                            } else {
                                None
                            }
                        },
                        None => None,
                    }
                } else {
                    None
                }
            },
            None => None,
        }
    }
}

impl BaseInfo {
    /// Reads session state back from state-file text; `None` when the
    /// text is not a state object this crate would have written.
    pub fn from_json(s: &str) -> (r: Option<BaseInfo>)
        ensures
            match r {
                Some(b) => spec_parse_base_info(s@) == Some((b.url@, b.m3u8_name@)),
                None => spec_parse_base_info(s@) is None,
            },
    {
        let len = s.unicode_len();
        let head = "{\"url\":\"";
        let head_len = head.unicode_len();
        if !crate::strings::starts_with(s, head) {
            return None;
        }
        let (url_s, used1) = match scan_json_string(s, head_len) {
            Some(p) => p,
            None => {
                return None;
            },
        };
        let p1 = head_len + used1;
        let mid = ",\"m3u8_name\":\"";
        let mid_len = mid.unicode_len();
        proof {
            crate::strings::lemma_match_at_skip(s@, spec_json_mid(), p1 as int);
        }
        if !crate::strings::match_at(s, mid, p1) {
            return None;
        }
        let (name_s, used2) = match scan_json_string(s, p1 + mid_len) {
            Some(p) => p,
            None => {
                return None;
            },
        };
        let p2 = p1 + mid_len + used2;
        if len - p2 == 1 && s.get_char(p2) == '}' {
            Some(BaseInfo { url: url_s, m3u8_name: name_s })
        } else {
            None
        }
    }
}

proof fn lemma_hex_char_val(d: int)
    requires
        0 <= d < 16,
    ensures
        spec_is_hex_lc(spec_hex_char(d)),
        spec_hex_val(spec_hex_char(d)) == d,
{
}

proof fn lemma_hex_char_of_val(c: char)
    requires
        spec_is_hex_lc(c),
    ensures
        spec_hex_char(spec_hex_val(c)) == c,
{
    vstd::utf8::char_u32_cast(c, c as u32);
    assert(('0' as u32) as char == '0');
    assert(('1' as u32) as char == '1');
    assert(('2' as u32) as char == '2');
    assert(('3' as u32) as char == '3');
    assert(('4' as u32) as char == '4');
    assert(('5' as u32) as char == '5');
    assert(('6' as u32) as char == '6');
    assert(('7' as u32) as char == '7');
    assert(('8' as u32) as char == '8');
    assert(('9' as u32) as char == '9');
    assert(('a' as u32) as char == 'a');
    assert(('b' as u32) as char == 'b');
    assert(('c' as u32) as char == 'c');
    assert(('d' as u32) as char == 'd');
    assert(('e' as u32) as char == 'e');
    assert(('f' as u32) as char == 'f');
}

/// Scanning an escaped string body followed by its closing quote reads
/// back exactly the original characters, whatever follows the quote.
proof fn lemma_scan_escape(u: Seq<char>, rest: Seq<char>)
    ensures
        spec_scan_string(spec_escape(u) + seq!['"'] + rest) == Some(
            (u, spec_escape(u).len() + 1 as int),
        ),
    decreases u.len(),
{
    let s = spec_escape(u) + seq!['"'] + rest;
    if u.len() == 0 {
        assert(spec_escape(u) =~= Seq::<char>::empty());
        assert(s =~= seq!['"'] + rest);
        assert(s[0] == '"');
        assert(spec_scan_string(s) == Some((Seq::<char>::empty(), 1int)));
        assert(Seq::<char>::empty() =~= u);
    } else {
        let c = u[0];
        let u1 = u.skip(1);
        lemma_scan_escape(u1, rest);
        let s1 = spec_escape(u1) + seq!['"'] + rest;
        assert(spec_escape(u) =~= spec_escape_char(c) + spec_escape(u1));
        assert(s =~= spec_escape_char(c) + s1);
        if c == '"' {
            assert(s[0] == '\\' && s[1] == '"');
            assert(s.skip(2) =~= s1);
            assert(seq![s[1]] + u1 =~= u);
        } else if c == '\\' {
            assert(s[0] == '\\' && s[1] == '\\');
            assert(s.skip(2) =~= s1);
            assert(seq![s[1]] + u1 =~= u);
        } else if (c as u32) < 32 {
            let hi = (c as u32) as int / 16;
            let lo = (c as u32) as int % 16;
            assert(s[0] == '\\' && s[1] == 'u' && s[2] == '0' && s[3] == '0');
            assert(s[4] == spec_hex_char(hi) && s[5] == spec_hex_char(lo));
            lemma_hex_char_val(hi);
            lemma_hex_char_val(lo);
            assert(spec_hex_val(s[4]) * 16 + spec_hex_val(s[5]) == c as u32);
            assert(s.skip(6) =~= s1);
            assert(((spec_hex_val(s[4]) * 16 + spec_hex_val(s[5])) as u32) == c as u32);
            vstd::utf8::char_u32_cast(c, ((spec_hex_val(s[4]) * 16 + spec_hex_val(s[5])) as u32));
            assert((((spec_hex_val(s[4]) * 16 + spec_hex_val(s[5])) as u32) as char) == c);
            assert(seq![(((spec_hex_val(s[4]) * 16 + spec_hex_val(s[5])) as u32) as char)] + u1
                =~= u);
        } else {
            assert(s[0] == c);
            assert(s.skip(1) =~= s1);
            assert(seq![s[0]] + u1 =~= u);
        }
    }
}

proof fn lemma_scan_sound(s: Seq<char>)
    ensures
        (match spec_scan_string(s) {
            Some(p) => 1 <= p.1 <= s.len() && s.subrange(0, p.1) == spec_escape(p.0) + seq!['"'],
            None => true,
        }),
    decreases s.len(),
{
    if spec_scan_string(s) is Some {
        let p = spec_scan_string(s).unwrap();
        if s[0] == '"' {
            assert(s.subrange(0, 1) =~= spec_escape(p.0) + seq!['"']);
        } else if s[0] == '\\' {
            if s[1] == '"' || s[1] == '\\' {
                lemma_scan_sound(s.skip(2));
                let sub = spec_scan_string(s.skip(2)).unwrap();
                assert((seq![s[1]] + sub.0)[0] == s[1]);
                assert((seq![s[1]] + sub.0).skip(1) =~= sub.0);
                assert(spec_escape(p.0) =~= spec_escape_char(s[1]) + spec_escape(sub.0));
                assert(s.subrange(0, 2) =~= spec_escape_char(s[1]));
                assert(s.subrange(0, p.1) =~= s.subrange(0, 2) + s.skip(2).subrange(0, sub.1));
                assert(s.subrange(0, p.1) =~= spec_escape(p.0) + seq!['"']);
            } else {
                lemma_scan_sound(s.skip(6));
                let sub = spec_scan_string(s.skip(6)).unwrap();
                let val = spec_hex_val(s[4]) * 16 + spec_hex_val(s[5]);
                let c = ((val as u32) as char);
                vstd::utf8::char_u32_cast(c, val as u32);
                assert(c as u32 == val) by {
                    lemma_hex_char_of_val(s[4]);
                    lemma_hex_char_of_val(s[5]);
                    assert(spec_hex_char(spec_hex_val(s[4])) == s[4]);
                    if (c as u32) != val {
                        // A control code below 32 is a valid scalar
                        // value, so the two casts cancel.
                        assert(spec_scan_string(s) is Some);
                    }
                }
                assert((seq![c] + sub.0)[0] == c);
                assert((seq![c] + sub.0).skip(1) =~= sub.0);
                assert(spec_escape(p.0) =~= spec_escape_char(c) + spec_escape(sub.0));
                lemma_hex_char_of_val(s[4]);
                lemma_hex_char_of_val(s[5]);
                assert(spec_escape_char(c) =~= s.subrange(0, 6)) by {
                    assert(val / 16 == spec_hex_val(s[4]) && val % 16 == spec_hex_val(s[5]));
                    assert(spec_hex_char(val / 16) == s[4]);
                    assert(spec_hex_char(val % 16) == s[5]);
                }
                assert(s.subrange(0, p.1) =~= s.subrange(0, 6) + s.skip(6).subrange(0, sub.1));
                assert(s.subrange(0, p.1) =~= spec_escape(p.0) + seq!['"']);
            }
        } else {
            lemma_scan_sound(s.skip(1));
            let sub = spec_scan_string(s.skip(1)).unwrap();
            assert((seq![s[0]] + sub.0)[0] == s[0]);
            assert((seq![s[0]] + sub.0).skip(1) =~= sub.0);
            assert(spec_escape(p.0) =~= spec_escape_char(s[0]) + spec_escape(sub.0));
            assert(spec_escape_char(s[0]) =~= s.subrange(0, 1));
            assert(s.subrange(0, p.1) =~= s.subrange(0, 1) + s.skip(1).subrange(0, sub.1));
            assert(s.subrange(0, p.1) =~= spec_escape(p.0) + seq!['"']);
        }
    }
}

/// Law: the state file format is unambiguous. Any text that parses as
/// session state is exactly the text this crate writes for the parsed
/// URL and playlist name — nothing else is accepted.
pub proof fn lemma_state_file_unambiguous(s: Seq<char>)
    ensures
        (match spec_parse_base_info(s) {
            Some(p) => s == spec_base_info_json(p.0, p.1),
            None => true,
        }),
{
    if spec_parse_base_info(s) is Some {
        let head = spec_json_head();
        let mid = spec_json_mid();
        let p_url = spec_scan_string(s.skip(head.len() as int)).unwrap();
        let p1 = head.len() + p_url.1;
        let p_name = spec_scan_string(s.skip(p1 + mid.len() as int)).unwrap();
        let p2 = p1 + mid.len() + p_name.1;
        lemma_scan_sound(s.skip(head.len() as int));
        lemma_scan_sound(s.skip(p1 + mid.len() as int));
        assert(s.subrange(0, head.len() as int) == head);
        assert(s.skip(head.len() as int).subrange(0, p_url.1) == spec_escape(p_url.0) + seq![
            '"',
        ]);
        assert(s.skip(p1 as int).subrange(0, mid.len() as int) == mid);
        assert(s.skip(p1 + mid.len() as int).subrange(0, p_name.1) == spec_escape(p_name.0)
            + seq!['"']);
        assert(s.len() == p2 + 1 && s[p2 as int] == '}');
        assert(s =~= s.subrange(0, head.len() as int) + s.skip(head.len() as int).subrange(
            0,
            p_url.1,
        ) + s.skip(p1 as int).subrange(0, mid.len() as int) + s.skip(
            p1 + mid.len() as int,
        ).subrange(0, p_name.1) + seq![s[p2 as int]]);
        assert(s =~= head + (spec_escape(p_url.0) + seq!['"']) + mid + (spec_escape(p_name.0)
            + seq!['"']) + seq!['}']);
        assert(s =~= spec_base_info_json(p_url.0, p_name.0));
    }
}

/// Law: the session state round-trips through its state file. Reading
/// back the exact text that `BaseInfo::to_json` writes for a stored URL
/// and playlist name yields that URL and name again, so a resumed run
/// sees precisely the session the first run persisted.
pub proof fn lemma_base_info_round_trip(url: Seq<char>, m3u8_name: Seq<char>)
    ensures
        spec_parse_base_info(spec_base_info_json(url, m3u8_name)) == Some((url, m3u8_name)),
{
    let s = spec_base_info_json(url, m3u8_name);
    let head = spec_json_head();
    let mid = spec_json_mid();
    let rest1 = mid + spec_escape(m3u8_name) + seq!['"', '}'];
    assert(s.subrange(0, head.len() as int) =~= head);
    assert(s.skip(head.len() as int) =~= spec_escape(url) + seq!['"'] + rest1);
    lemma_scan_escape(url, rest1);
    let used1 = spec_escape(url).len() + 1 as int;
    let p1 = head.len() + used1;
    assert(s.skip(p1).subrange(0, mid.len() as int) =~= mid) by {
        assert(s.skip(p1) =~= rest1);
    }
    assert(s.skip(p1 + mid.len() as int) =~= spec_escape(m3u8_name) + seq!['"'] + seq!['}']);
    lemma_scan_escape(m3u8_name, seq!['}']);
    let used2 = spec_escape(m3u8_name).len() + 1 as int;
    let p2 = p1 + mid.len() + used2;
    assert(s.len() == p2 + 1);
    assert(s[p2 as int] == '}');
}

/// A run has no source to work from: no URL was supplied and the
/// working folder holds no readable session state.
#[derive(PartialEq, Eq, Structural, Debug, Clone, Copy)]
pub enum SessionStateError {
    NoSourceAvailable,
}

/// Whether the working folder holds resumable session state. The probe
/// for the state file happens at the filesystem boundary; this stage
/// takes the probe's result and is the fact the run decides on.
pub fn check_base_info_exists(_folder_name: String, state_file_readable: bool) -> (r: bool)
    ensures
        r == state_file_readable,
{
    state_file_readable
}

/// The fatal precondition of a run: it may proceed exactly when a
/// source URL was supplied or readable session state exists; with
/// neither there is nothing to resume and nothing to fetch.
pub fn require_session_source(url: &str, state_file_readable: bool) -> (r: Result<
    (),
    SessionStateError,
>)
    ensures
        r is Ok <==> (url@.len() > 0 || state_file_readable),
        r is Err ==> r->Err_0 == SessionStateError::NoSourceAvailable,
{
    if !url.is_empty() || state_file_readable {
        Ok(())
    } else {
        Err(SessionStateError::NoSourceAvailable)
    }
}

/// The session decision of a run: which source URL and playlist file
/// name to use, and whether to persist fresh state. Stored state wins
/// and is never overwritten; only a run that found no stored state
/// persists one, carrying exactly the supplied URL and fresh name.
pub fn resolve_session(supplied_url: String, fresh_m3u8_name: String, stored: Option<BaseInfo>)
    -> (r: (String, String, Option<BaseInfo>))
    ensures
        match stored {
            Some(b) => r.0@ == b.url@ && r.1@ == b.m3u8_name@ && r.2 is None,
            None => r.0@ == supplied_url@ && r.1@ == fresh_m3u8_name@ && (match r.2 {
                Some(fresh) => fresh.url@ == supplied_url@ && fresh.m3u8_name@
                    == fresh_m3u8_name@,
                None => false,
            }),
        },
{
    match stored {
        Some(b) => (b.url, b.m3u8_name, None),
        None => {
            let mut fresh = BaseInfo::new();
            fresh.set_host(supplied_url.clone());
            fresh.set_m3u8_name(fresh_m3u8_name.clone());
            (supplied_url, fresh_m3u8_name, Some(fresh))
        },
    }
}

/// The output file name: `file_name` itself when one was supplied, else
/// a fresh `<timestamp>.mp4`.
pub fn get_file_name(file_name: String) -> (r: String)
    ensures
        file_name@.len() > 0 ==> r@ == file_name@,
        file_name@.len() == 0 ==> (exists|t: nat| r@ == spec_u64_str(t) + ".mp4"@),
{
    if file_name.as_str().is_empty() {
        let t = now();
        let mut out = u64_to_string(t);
        out.append(".mp4");
        proof {
            assert(out@ == spec_u64_str(t as nat) + ".mp4"@);
        }
        out
    } else {
        file_name
    }
}

} // verus!
