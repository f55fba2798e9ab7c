use vstd::prelude::*;

use sha3::Digest;

use crate::agent::protocol::Message;
use crate::text::{chars_of, decimal, push_char, push_decimal, string_of};

verus! {

/// Where downloads go.
pub struct DownloadConfig {
    path: String,
}

/// The configuration of an agent.
pub struct AgentConfig {
    download: DownloadConfig,
}

impl DownloadConfig {
    pub closed spec fn spec_path(&self) -> Seq<char> {
        self.path@
    }

    pub fn new(path: &str) -> (c: Self)
        ensures
            c.spec_path() == path@,
    {
        DownloadConfig { path: path.to_owned() }
    }

    pub fn path(&self) -> (r: &str)
        ensures
            r@ == self.spec_path(),
    {
        self.path.as_str()
    }
}

impl AgentConfig {
    pub closed spec fn spec_download(&self) -> DownloadConfig {
        self.download
    }

    pub fn new(download: DownloadConfig) -> (c: Self)
        ensures
            c.spec_download() == download,
    {
        AgentConfig { download }
    }

    pub fn download(&self) -> (r: &DownloadConfig)
        ensures
            *r == self.spec_download(),
    {
        &self.download
    }
}

/// The line without a carriage return at its end.
pub open spec fn strip_cr(l: Seq<char>) -> Seq<char> {
    if l.len() > 0 && l.last() == '\r' {
        l.drop_last()
    } else {
        l
    }
}

/// The lines of `s`, the current one begun with `cur`: a line ends at "\n", or "\r\n", or at
/// the end of the text, where an empty last line is no line.
pub open spec fn lines_from(s: Seq<char>, cur: Seq<char>) -> Seq<Seq<char>>
    decreases s.len(),
{
    if s.len() == 0 {
        if cur.len() == 0 {
            seq![]
        } else {
            seq![cur]
        }
    } else if s[0] == '\n' {
        seq![strip_cr(cur)] + lines_from(s.drop_first(), seq![])
    } else {
        lines_from(s.drop_first(), cur.push(s[0]))
    }
}

/// The lines of a text, as `str::lines` gives them.
pub open spec fn lines_of(s: Seq<char>) -> Seq<Seq<char>> {
    lines_from(s, seq![])
}

/// From `q` on, the line holds spaces and then a comma.
pub open spec fn comma_after(line: Seq<char>, q: int) -> bool
    decreases line.len() - q,
{
    if q < 0 || q >= line.len() {
        false
    } else if line[q] == ',' {
        true
    } else {
        line[q] == ' ' && comma_after(line, q + 1)
    }
}

/// The quote at `p` closes the URL of a fetch line: a comma follows it after spaces.
pub open spec fn closes_url(line: Seq<char>, p: int) -> bool {
    0 <= p < line.len() && line[p] == '"' && comma_after(line, p + 1)
}

/// The last quote at `p` or before, and after the seven characters `fetch("`, that closes the
/// URL.
pub open spec fn url_end(line: Seq<char>, p: int) -> Option<int>
    decreases p,
{
    if p < 7 {
        None
    } else if closes_url(line, p) {
        Some(p)
    } else {
        url_end(line, p - 1)
    }
}

/// The URL of a line `fetch("<url>" , ...`: the line starts with `fetch("`, and the URL runs to
/// the last quote that spaces and a comma follow.
pub open spec fn url_of(line: Seq<char>) -> Option<Seq<char>> {
    if line.len() >= 7 && line.take(7) == "fetch(\""@ {
        match url_end(line, line.len() - 1) {
            Some(p) => Some(line.subrange(7, p)),
            None => None,
        }
    } else {
        None
    }
}

/// The line ends with ");".
pub open spec fn ends_call(l: Seq<char>) -> bool {
    l.len() >= 2 && l[l.len() - 2] == ')' && l[l.len() - 1] == ';'
}

/// The lines joined without separators, up to the first that ends with ");", of which the part
/// before ");" is taken.
pub open spec fn body_of(lines: Seq<Seq<char>>) -> Seq<char>
    decreases lines.len(),
{
    if lines.len() == 0 {
        seq![]
    } else if ends_call(lines[0]) {
        lines[0].subrange(0, lines[0].len() - 2)
    } else {
        lines[0] + body_of(lines.drop_first())
    }
}

/// The URL and the request text of a request copied as `fetch("<url>", {...});`: the URL
/// from the first line, and "{" followed by the other lines up to ");".
pub open spec fn fetch_parts_of(fetch: Seq<char>) -> Option<(Seq<char>, Seq<char>)> {
    let lines = lines_of(fetch);
    if lines.len() == 0 {
        None
    } else {
        match url_of(lines[0]) {
            Some(u) => Some((u, seq!['{'] + body_of(lines.drop_first()))),
            None => None,
        }
    }
}

/// The lines of a text.
pub fn split_lines(text: &str) -> (r: Vec<Vec<char>>)
    ensures
        r@.len() == lines_of(text@).len(),
        forall|i: int| 0 <= i < r@.len() ==> (#[trigger] r@[i])@ == lines_of(text@)[i],
{
    let s = chars_of(text);
    let ghost all = s@;
    let ghost mut done: Seq<Seq<char>> = seq![];
    let mut r: Vec<Vec<char>> = Vec::new();
    let mut cur: Vec<char> = Vec::new();
    let mut i: usize = 0;
    assert(all.skip(0) =~= all);
    while i < s.len()
        invariant
            i <= s@.len(),
            all == s@,
            all == text@,
            r@.len() == done.len(),
            forall|j: int| 0 <= j < r@.len() ==> (#[trigger] r@[j])@ == done[j],
            lines_of(all) == done + lines_from(all.skip(i as int), cur@),
        decreases s.len() - i,
    {
        proof {
            assert(all.skip(i as int)[0] == all[i as int]);
            assert(all.skip(i as int).drop_first() =~= all.skip(i + 1));
        }
        if s[i] == '\n' {
            let n = cur.len();
            if n > 0 && cur[n - 1] == '\r' {
                cur.pop();
            }
            proof {
                done = done.push(cur@);
                assert(done + lines_from(all.skip(i + 1), seq![]) =~= done.drop_last() + (seq![
                    done.last(),
                ] + lines_from(all.skip(i + 1), seq![])));
            }
            r.push(cur);
            cur = Vec::new();
        } else {
            cur.push(s[i]);
        }
        i = i + 1;
    }
    proof {
        assert(all.skip(i as int).len() == 0);
    }
    if cur.len() > 0 {
        proof {
            done = done.push(cur@);
        }
        r.push(cur);
    }
    proof {
        assert(lines_of(all) =~= done);
    }
    r
}

/// From `q` on, the line holds spaces and then a comma.
fn comma_after_exec(line: &Vec<char>, q: usize) -> (r: bool)
    ensures
        r == comma_after(line@, q as int),
{
    if q >= line.len() {
        return false;
    }
    let mut k: usize = q;
    while k < line.len() && line[k] == ' '
        invariant
            q <= k <= line@.len(),
            comma_after(line@, q as int) == comma_after(line@, k as int),
        decreases line.len() - k,
    {
        k = k + 1;
    }
    k < line.len() && line[k] == ','
}

/// The URL of a fetch line (see `url_of`).
pub fn url_of_line(line: &Vec<char>) -> (r: Option<String>)
    ensures
        match r {
            Some(u) => url_of(line@) == Some(u@),
            None => url_of(line@) is None,
        },
{
    let n = line.len();
    if n < 7 || line[0] != 'f' || line[1] != 'e' || line[2] != 't' || line[3] != 'c' || line[4]
        != 'h' || line[5] != '(' || line[6] != '"' {
        proof {
            reveal_strlit("fetch(\"");
            if n >= 7 {
                assert(line@.take(7)[0] == line@[0]);
                assert(line@.take(7)[1] == line@[1]);
                assert(line@.take(7)[2] == line@[2]);
                assert(line@.take(7)[3] == line@[3]);
                assert(line@.take(7)[4] == line@[4]);
                assert(line@.take(7)[5] == line@[5]);
                assert(line@.take(7)[6] == line@[6]);
            }
        }
        return None;
    }
    proof {
        reveal_strlit("fetch(\"");
        assert(line@.take(7) =~= "fetch(\""@);
    }
    let mut p: usize = n - 1;
    while p >= 7
        invariant
            7 <= n == line@.len(),
            p < n,
            line@.len() >= 7 && line@.take(7) == "fetch(\""@,
            url_end(line@, n - 1) == url_end(line@, p as int),
        decreases p,
    {
        if line[p] == '"' && comma_after_exec(line, p + 1) {
            return Some(string_of(line.as_slice(), 7, p));
        }
        p = p - 1;
    }
    None
}

/// The lines joined up to the first that ends with ");" (see `body_of`), appended to `out`.
fn append_body(out: &mut String, lines: &Vec<Vec<char>>, from: usize)
    requires
        from <= lines@.len(),
    ensures
        final(out)@ == old(out)@ + body_of(
            Seq::new((lines@.len() - from) as nat, |i: int| lines@[from + i]@),
        ),
    decreases lines@.len() - from,
{
    let ghost rest = Seq::new((lines@.len() - from) as nat, |i: int| lines@[from + i]@);
    if from == lines.len() {
        assert(old(out)@ + body_of(rest) =~= old(out)@);
        return;
    }
    let l = &lines[from];
    let n = l.len();
    assert(rest[0] == l@);
    if n >= 2 && l[n - 2] == ')' && l[n - 1] == ';' {
        let t = string_of(l.as_slice(), 0, n - 2);
        out.append(t.as_str());
    } else {
        let t = string_of(l.as_slice(), 0, n);
        out.append(t.as_str());
        assert(l@.subrange(0, n as int) =~= l@);
        append_body(out, lines, from + 1);
        assert(rest.drop_first() =~= Seq::new(
            (lines@.len() - (from + 1)) as nat,
            |i: int| lines@[from + 1 + i]@,
        ));
        assert(old(out)@ + l@ + body_of(rest.drop_first()) =~= old(out)@ + (l@ + body_of(
            rest.drop_first(),
        )));
    }
}

/// The URL and the request text of a request copied as `fetch("<url>", {...});` (see
/// `fetch_parts_of`); `None` where the first line is no fetch call or there is none.
pub fn fetch_parts(fetch: &str) -> (r: Option<(String, String)>)
    ensures
        match r {
            Some((u, b)) => fetch_parts_of(fetch@) == Some((u@, b@)),
            None => fetch_parts_of(fetch@) is None,
        },
{
    let lines = split_lines(fetch);
    if lines.len() == 0 {
        return None;
    }
    match url_of_line(&lines[0]) {
        Some(url) => {
            let mut buf = String::new();
            push_char(&mut buf, '{');
            append_body(&mut buf, &lines, 1);
            proof {
                let ls = lines_of(fetch@);
                assert(Seq::new((lines@.len() - 1) as nat, |i: int| lines@[1 + i]@) =~= ls.drop_first());
                assert(Seq::<char>::empty().push('{') =~= seq!['{']);
            }
            Some((url, buf))
        },
        None => None,
    }
}

/// The SHA3-256 digest of a byte sequence.
pub uninterp spec fn sha3_256_digest(data: Seq<u8>) -> Seq<u8>;

/// The SHA3-256 digest of `data`; a wrapper of `sha3::Digest::digest` on `sha3::Sha3_256`,
/// which computes the 32-byte digest of the data.
#[verifier::external_body]
fn sha3_256(data: &[u8]) -> (r: Vec<u8>)
    ensures
        r@ == sha3_256_digest(data@),
        r@.len() == 32,
{
    sha3::Sha3_256::digest(data).to_vec()
}

/// The header name is "range", in any mix of upper and lower case.
pub open spec fn is_range_header(name: Seq<char>) -> bool {
    &&& name.len() == 5
    &&& forall|i: int| 0 <= i < 5 ==> name[i] == seq!['r', 'a', 'n', 'g', 'e'][i] || name[i] == seq!['R', 'A', 'N', 'G', 'E'][i]
}

/// Whether a header of the request names the byte range; such a header is not passed on,
/// so that the whole file is loaded.
pub fn is_range_header_name(name: &str) -> (r: bool)
    ensures
        r == is_range_header(name@),
{
    let cs = chars_of(name);
    if cs.len() != 5 {
        return false;
    }
    let lower = ['r', 'a', 'n', 'g', 'e'];
    let upper = ['R', 'A', 'N', 'G', 'E'];
    let mut i: usize = 0;
    while i < 5
        invariant
            cs@ == name@,
            cs@.len() == 5,
            i <= 5,
            lower@ == seq!['r', 'a', 'n', 'g', 'e'],
            upper@ == seq!['R', 'A', 'N', 'G', 'E'],
            forall|k: int| 0 <= k < i ==> cs@[k] == lower@[k] || cs@[k] == upper@[k],
        decreases 5 - i,
    {
        if cs[i] != lower[i] && cs[i] != upper[i] {
            return false;
        }
        i = i + 1;
    }
    true
}

/// A SHA3-256 hasher that is fed a download piece by piece. Verus cannot declare
/// `sha3::Sha3_256`, an alias of a generic wrapper of the crate's core, so the hasher is held
/// here and seen only through `sha3_fed`.
#[verifier::external_body]
pub struct Sha3Hasher {
    inner: sha3::Sha3_256,
}

/// The bytes a hasher has been fed, in order.
pub uninterp spec fn sha3_fed(h: Sha3Hasher) -> Seq<u8>;

/// A new hasher; a wrapper of `sha3::Digest::new` on `sha3::Sha3_256`, which has been fed
/// nothing.
#[verifier::external_body]
fn sha3_new() -> (r: Sha3Hasher)
    ensures
        sha3_fed(r) == Seq::<u8>::empty(),
{
    Sha3Hasher { inner: sha3::Sha3_256::new() }
}

/// Feeds `data` to the hasher; a wrapper of `sha3::Digest::update`, which processes the
/// data after what came before.
#[verifier::external_body]
fn sha3_update(h: &mut Sha3Hasher, data: &[u8])
    ensures
        sha3_fed(*final(h)) == sha3_fed(*old(h)) + data@,
{
    h.inner.update(data)
}

/// The digest of all that the hasher was fed; a wrapper of `sha3::Digest::finalize`, which
/// gives the same digest as `sha3::Digest::digest` of those bytes at once.
#[verifier::external_body]
fn sha3_finish(h: Sha3Hasher) -> (r: Vec<u8>)
    ensures
        r@ == sha3_256_digest(sha3_fed(h)),
{
    h.inner.finalize().to_vec()
}

/// The lower-case hexadecimal digit of `d`.
pub open spec fn hex_digit(d: nat) -> char {
    if d < 10 {
        crate::text::digit_char(d)
    } else if d == 10 {
        'a'
    } else if d == 11 {
        'b'
    } else if d == 12 {
        'c'
    } else if d == 13 {
        'd'
    } else if d == 14 {
        'e'
    } else {
        'f'
    }
}

/// Two lower-case hexadecimal digits per byte, in order.
pub open spec fn hex_text(bytes: Seq<u8>) -> Seq<char>
    decreases bytes.len(),
{
    if bytes.len() == 0 {
        seq![]
    } else {
        hex_text(bytes.drop_last()) + seq![
            hex_digit((bytes.last() / 16) as nat),
            hex_digit((bytes.last() % 16) as nat),
        ]
    }
}

fn hex_char(d: u8) -> (c: char)
    requires
        d < 16,
    ensures
        c == hex_digit(d as nat),
{
    if d == 0 {
        '0'
    } else if d == 1 {
        '1'
    } else if d == 2 {
        '2'
    } else if d == 3 {
        '3'
    } else if d == 4 {
        '4'
    } else if d == 5 {
        '5'
    } else if d == 6 {
        '6'
    } else if d == 7 {
        '7'
    } else if d == 8 {
        '8'
    } else if d == 9 {
        '9'
    } else if d == 10 {
        'a'
    } else if d == 11 {
        'b'
    } else if d == 12 {
        'c'
    } else if d == 13 {
        'd'
    } else if d == 14 {
        'e'
    } else {
        'f'
    }
}

/// The bytes as two lower-case hexadecimal digits each.
pub fn hex_string(bytes: &Vec<u8>) -> (r: String)
    ensures
        r@ == hex_text(bytes@),
{
    let mut r = String::new();
    let mut i: usize = 0;
    while i < bytes.len()
        invariant
            i <= bytes@.len(),
            r@ == hex_text(bytes@.take(i as int)),
        decreases bytes.len() - i,
    {
        let b = bytes[i];
        push_char(&mut r, hex_char(b / 16));
        push_char(&mut r, hex_char(b % 16));
        proof {
            assert(bytes@.take(i + 1).drop_last() =~= bytes@.take(i as int));
            assert(r@ =~= hex_text(bytes@.take(i + 1)));
        }
        i = i + 1;
    }
    assert(bytes@.take(bytes@.len() as int) =~= bytes@);
    r
}

/// The id of a job: the hexadecimal SHA3-256 digest of the request's UTF-8 bytes.
pub fn generate_hash(fetch: &String) -> (r: String)
    ensures
        r@ == hex_text(sha3_256_digest(vstd::utf8::encode_utf8(fetch@))),
{
    let digest = sha3_256(fetch.as_str().as_bytes());
    hex_string(&digest)
}

/// "<jobid>.mp4", the name of the file a job downloads into.
pub fn job_file_name(jobid: &str) -> (r: String)
    ensures
        r@ == jobid@ + ".mp4"@,
{
    let mut r = jobid.to_owned();
    r.append(".mp4");
    r
}

/// "<digest>.<extension>", the name a downloaded file gets once it is complete.
pub fn hashed_file_name(hex: &str, extension: &str) -> (r: String)
    ensures
        r@ == hex@ + seq!['.'] + extension@,
{
    let mut r = hex.to_owned();
    push_char(&mut r, '.');
    r.append(extension);
    r
}

/// "<host> <path> <n>%", the status of a download.
pub fn status_text(host: &str, path: &str, n: u64) -> (r: String)
    ensures
        r@ == host@ + seq![' '] + path@ + seq![' '] + decimal(n as nat) + seq!['%'],
{
    let mut r = host.to_owned();
    push_char(&mut r, ' ');
    r.append(path);
    push_char(&mut r, ' ');
    push_decimal(&mut r, n);
    push_char(&mut r, '%');
    r
}

/// The progress of a download of a known size: a status is reported for the chunk that
/// reaches the next hundredth of the size, and the bytes are hashed as they come in.
pub struct LoadProgress {
    pub count: u64,
    pub next_part: u64,
    pub part_count: u64,
    pub part_size: u64,
    pub hasher: Sha3Hasher,
}

impl LoadProgress {
    /// The bytes read so far, in order.
    pub open spec fn hashed(&self) -> Seq<u8> {
        sha3_fed(self.hasher)
    }

    /// Nothing read yet of `size` bytes; a hundredth of them is a part.
    pub fn new(size: u64) -> (p: Self)
        ensures
            p.count == 0 && p.next_part == 0 && p.part_count == 0 && p.part_size == size / 100,
            p.hashed() == Seq::<u8>::empty(),
    {
        LoadProgress { count: 0, next_part: 0, part_count: 0, part_size: size / 100, hasher: sha3_new() }
    }

    /// A chunk came in: it is hashed after the bytes before it, and where the bytes read so
    /// far reach the next part, the number of parts reported so far is to be reported, and
    /// the next part lies one part further.
    pub fn on_chunk(&mut self, chunk: &[u8]) -> (r: Option<u64>)
        requires
            old(self).count + chunk@.len() <= u64::MAX,
            old(self).next_part + old(self).part_size <= u64::MAX,
            old(self).part_count < u64::MAX,
        ensures
            ({
                let len = chunk@.len();
                &&& final(self).count == old(self).count + len
                &&& final(self).part_size == old(self).part_size
                &&& final(self).hashed() == old(self).hashed() + chunk@
                &&& if old(self).count + len >= old(self).next_part {
                    &&& r == Some(old(self).part_count)
                    &&& final(self).next_part == old(self).next_part + old(self).part_size
                    &&& final(self).part_count == old(self).part_count + 1
                } else {
                    &&& r is None
                    &&& final(self).next_part == old(self).next_part
                    &&& final(self).part_count == old(self).part_count
                }
            }),
    {
        sha3_update(&mut self.hasher, chunk);
        let len = chunk.len() as u64;
        self.count = self.count + len;
        if self.count >= self.next_part {
            let n = self.part_count;
            self.next_part = self.next_part + self.part_size;
            self.part_count = self.part_count + 1;
            Some(n)
        } else {
            None
        }
    }

    /// The name the downloaded file gets: the hexadecimal digest of all the bytes read, a
    /// dot and the extension.
    pub fn finish(self, ext: &str) -> (n: String)
        ensures
            n@ == hex_text(sha3_256_digest(self.hashed())) + seq!['.'] + ext@,
    {
        let digest = sha3_finish(self.hasher);
        let hex = hex_string(&digest);
        hashed_file_name(hex.as_str(), ext)
    }
}

/// What an agent does with a message a client sent it.
pub enum AgentTask {
    /// Find the agent with the most space for the size and answer it.
    FindSpace(usize),
    /// Answer whether a disk here has more than the size free.
    CheckSpaceHere(usize),
    /// Acknowledge, then find space for the request and have that agent load it.
    Load(String),
    /// Acknowledge, then load the request here.
    LoadHere(String),
    /// Answer the information on the known hosts.
    ReadStatus,
    /// The message is not handled.
    Unsupported,
}

/// The task of a message.
pub fn agent_task(msg: Message) -> (t: AgentTask)
    ensures
        match msg {
            Message::RequireSpace(n) => t == AgentTask::FindSpace(n),
            Message::RequireSpaceHere(n) => t == AgentTask::CheckSpaceHere(n),
            Message::Load(f) => t == AgentTask::Load(f),
            Message::LoadHere(_, f) => t == AgentTask::LoadHere(f),
            Message::ReadStatus => t is ReadStatus,
            _ => t is Unsupported,
        },
{
    match msg {
        Message::RequireSpace(n) => AgentTask::FindSpace(n),
        Message::RequireSpaceHere(n) => AgentTask::CheckSpaceHere(n),
        Message::Load(f) => AgentTask::Load(f),
        Message::LoadHere(_, f) => AgentTask::LoadHere(f),
        Message::ReadStatus => AgentTask::ReadStatus,
        _ => AgentTask::Unsupported,
    }
}

/// The answer on free space here: the host and the free space of the first disk with more than
/// `n` bytes free, or an empty message where there is none.
pub fn space_reply(hostname: &str, available: &Vec<u64>, n: usize) -> (m: Message)
    ensures
        match m {
            Message::HasSpace(h, s) => h@ == hostname@ && exists|i: int|
                0 <= i < available@.len() && available@[i] > n && s == available@[i] as usize
                    && forall|j: int| 0 <= j < i ==> (#[trigger] available@[j]) <= n,
            Message::Empty => forall|j: int|
                0 <= j < available@.len() ==> (#[trigger] available@[j]) <= n,
            _ => false,
        },
{
    let mut i: usize = 0;
    while i < available.len()
        invariant
            i <= available@.len(),
            forall|j: int| 0 <= j < i ==> (#[trigger] available@[j]) <= n,
        decreases available.len() - i,
    {
        if available[i] > n as u64 {
            return Message::HasSpace(hostname.to_owned(), available[i] as usize);
        }
        i = i + 1;
    }
    Message::Empty
}

} // verus!
