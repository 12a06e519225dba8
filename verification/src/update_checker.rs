//! Release information and the decisions of the update check: which of two
//! versions is newer, whether cached information may still be used, and what
//! to do next. Fetching and storing are the caller's part.

use crate::chars::{from_chars, push_all, sub_chars, to_chars};
use crate::number::{decimal, decimal_text, parse_decimal, parse_number};
use crate::split::{lemma_deep_view_push, split_on, split_on_char};
use crate::width::{display_width, lemma_buffer_width, str_display_width};
use vstd::prelude::*;

verus! {

/// One downloadable file of a release.
#[derive(Debug, Clone, Default)]
pub struct Asset {
    pub name: String,
    pub size: u64,
    pub download_url: String,
    pub content_type: String,
    pub updated_at: String,
}

/// How long release information may be used.
#[derive(Debug, Clone)]
pub struct Cache {
    pub fetched_at: String,
    pub expires_at: String,
    pub swr_expiry: String,
    pub stale: bool,
}

/// What is known of the newest release.
#[derive(Debug, Clone)]
pub struct UpdateInfo {
    pub name: String,
    pub repo: String,
    pub version: String,
    pub tag: String,
    pub title: String,
    pub published_at: String,
    pub body_markdown: String,
    pub body_excerpt: String,
    pub url: String,
    pub assets: Vec<Asset>,
    pub cache: Cache,
    pub upstream_status: String,
    pub commit_hash: String,
}

/// What `chrono::DateTime::parse_from_rfc3339` followed by
/// `DateTime::timestamp` gives for a text: the seconds since the Unix epoch
/// of the instant it writes, or nothing when it is no RFC 3339 date and time.
pub uninterp spec fn rfc3339_timestamp(text: Seq<char>) -> Option<i64>;

/// Reads an RFC 3339 date and time with `chrono::DateTime::parse_from_rfc3339`
/// and converts the instant to seconds since the Unix epoch with
/// `DateTime::timestamp`. Taken on trust: the result depends on the text
/// alone. It is given the name [`rfc3339_timestamp`], and nothing more is
/// claimed of it.
#[verifier::external_body]
fn rfc3339_seconds(text: &str) -> (seconds: Option<i64>)
    ensures
        seconds == rfc3339_timestamp(text@),
{
    match chrono::DateTime::parse_from_rfc3339(text) {
        Ok(instant) => Some(instant.timestamp()),
        Err(_) => None,
    }
}

/// A signed count of seconds taken as an unsigned one: a negative count
/// wraps around, as an integer cast does.
pub open spec fn unsigned_seconds(seconds: i64) -> u64 {
    if seconds >= 0 {
        seconds as u64
    } else {
        (seconds + 0x1_0000_0000_0000_0000) as u64
    }
}

/// Computes [`unsigned_seconds`].
pub fn to_unsigned_seconds(seconds: i64) -> (out: u64)
    ensures
        out == unsigned_seconds(seconds),
{
    if seconds >= 0 {
        seconds as u64
    } else {
        let wide: i128 = seconds as i128 + 0x1_0000_0000_0000_0000;
        wide as u64
    }
}

/// The time that a text gives, in seconds since the Unix epoch: the number
/// it writes, or else the instant it writes in RFC 3339 form.
pub open spec fn time_of(text: Seq<char>) -> Option<u64> {
    match parse_number(text, u64::MAX as nat) {
        Some(n) => Some(n as u64),
        None => match rfc3339_timestamp(text) {
            Some(seconds) => Some(unsigned_seconds(seconds)),
            None => None,
        },
    }
}

/// Reads a time: a count of seconds, or an RFC 3339 date and time.
pub fn parse_time(time_str: &str) -> (time: Option<u64>)
    ensures
        time == time_of(time_str@),
{
    match parse_decimal(to_chars(time_str).as_slice(), u64::MAX) {
        Some(n) => Some(n),
        None => match rfc3339_seconds(time_str) {
            Some(seconds) => Some(to_unsigned_seconds(seconds)),
            None => None,
        },
    }
}

/// Whether a cache that expires at `expires` may be used at `now`: its
/// expiry can be read and lies in the future.
pub open spec fn valid_until(expires: Option<u64>, now: u64) -> bool {
    match expires {
        Some(t) => now < t,
        None => false,
    }
}

/// Decides [`valid_until`].
pub fn is_valid_until(expires: Option<u64>, now: u64) -> (valid: bool)
    ensures
        valid == valid_until(expires, now),
{
    match expires {
        Some(t) => now < t,
        None => false,
    }
}

/// Whether cached release information may still be used at `now`, given in
/// seconds since the Unix epoch.
pub fn is_cache_valid(info: &UpdateInfo, now: u64) -> (valid: bool)
    ensures
        valid == valid_until(time_of(info.cache.expires_at@), now),
{
    is_valid_until(parse_time(info.cache.expires_at.as_str()), now)
}

/// The release information that stands in when the server knows of no
/// release: the running version, marked as an upstream error, fetched at
/// `fetched_at` and with no expiry.
pub fn create_default_update_info(current_version: &str, fetched_at: u64) -> (info: UpdateInfo)
    ensures
        info.name@ == "fastcommit"@,
        info.repo@ == "https://github.com/fslongjin/fastcommit"@,
        info.version@ == current_version@,
        info.tag@.len() == 0,
        info.title@.len() == 0,
        info.published_at@.len() == 0,
        info.body_markdown@.len() == 0,
        info.body_excerpt@.len() == 0,
        info.url@.len() == 0,
        info.assets@.len() == 0,
        info.cache.fetched_at@ == decimal(fetched_at as nat),
        info.cache.expires_at@.len() == 0,
        info.cache.swr_expiry@.len() == 0,
        !info.cache.stale,
        info.upstream_status@ == "error"@,
        info.commit_hash@.len() == 0,
{
    UpdateInfo {
        name: "fastcommit".to_owned(),
        repo: "https://github.com/fslongjin/fastcommit".to_owned(),
        version: current_version.to_owned(),
        tag: String::new(),
        title: String::new(),
        published_at: String::new(),
        body_markdown: String::new(),
        body_excerpt: String::new(),
        url: String::new(),
        assets: Vec::new(),
        cache: Cache {
            fetched_at: from_chars(decimal_text(fetched_at).as_slice()),
            expires_at: String::new(),
            swr_expiry: String::new(),
            stale: false,
        },
        upstream_status: "error".to_owned(),
        commit_hash: String::new(),
    }
}

/// Whether `a` comes before `b` in dictionary order by code point, looking
/// from index `i` on.
pub open spec fn lex_less_from(a: Seq<char>, b: Seq<char>, i: int) -> bool
    decreases a.len() - i,
{
    if i < 0 || i >= a.len() {
        i < b.len()
    } else if i >= b.len() {
        false
    } else if a[i] != b[i] {
        (a[i] as u32) < (b[i] as u32)
    } else {
        lex_less_from(a, b, i + 1)
    }
}

/// Whether `a` comes before `b` in dictionary order by code point.
pub open spec fn lex_less(a: Seq<char>, b: Seq<char>) -> bool {
    lex_less_from(a, b, 0)
}

/// Decides [`lex_less`].
pub fn is_lex_less(a: &[char], b: &[char]) -> (less: bool)
    ensures
        less == lex_less(a@, b@),
{
    let mut i: usize = 0;
    while i < a.len() && i < b.len()
        invariant
            i <= a.len(),
            i <= b.len(),
            lex_less(a@, b@) == lex_less_from(a@, b@, i as int),
        decreases a.len() - i,
    {
        if a[i] != b[i] {
            return (a[i] as u32) < (b[i] as u32);
        }
        i = i + 1;
    }
    i < b.len()
}

/// A version without the `v` it may start with.
pub open spec fn without_v(version: Seq<char>) -> Seq<char> {
    if version.len() > 0 && version[0] == 'v' {
        version.subrange(1, version.len() as int)
    } else {
        version
    }
}

/// The parts of a version: what stands between its dots.
pub open spec fn version_parts(version: Seq<char>) -> Seq<Seq<char>> {
    split_on(without_v(version), '.')
}

/// Whether the parts `r` are newer than the parts `c`, looking from part `i`
/// on. Two parts that both write a number are compared as numbers, any other
/// two in dictionary order; the first pair that differs decides. When one
/// version runs out first, the longer one is the newer.
pub open spec fn parts_newer(r: Seq<Seq<char>>, c: Seq<Seq<char>>, i: int) -> bool
    decreases r.len() - i,
{
    if i < 0 || i >= r.len() || i >= c.len() {
        r.len() > c.len()
    } else {
        match (parse_number(r[i], u32::MAX as nat), parse_number(c[i], u32::MAX as nat)) {
            (Some(x), Some(y)) => if x > y {
                true
            } else if x < y {
                false
            } else {
                parts_newer(r, c, i + 1)
            },
            _ => if lex_less(c[i], r[i]) {
                true
            } else if lex_less(r[i], c[i]) {
                false
            } else {
                parts_newer(r, c, i + 1)
            },
        }
    }
}

/// Whether `remote` is a newer version than `current`.
pub open spec fn newer_version(remote: Seq<char>, current: Seq<char>) -> bool {
    parts_newer(version_parts(remote), version_parts(current), 0)
}

/// The parts of a version.
fn parts_of(version: &str) -> (parts: Vec<Vec<char>>)
    ensures
        parts.deep_view() == version_parts(version@),
{
    let chars = to_chars(version);
    if chars.len() > 0 && chars[0] == 'v' {
        split_on_char(sub_chars(chars.as_slice(), 1, chars.len()).as_slice(), '.')
    } else {
        split_on_char(chars.as_slice(), '.')
    }
}

/// Whether `remote_version` is newer than `current_version`.
pub fn is_newer_version(remote_version: &str, current_version: &str) -> (newer: bool)
    ensures
        newer == newer_version(remote_version@, current_version@),
{
    let remote = parts_of(remote_version);
    let current = parts_of(current_version);
    let mut i: usize = 0;
    while i < remote.len() && i < current.len()
        invariant
            i <= remote.len(),
            i <= current.len(),
            remote.deep_view() == version_parts(remote_version@),
            current.deep_view() == version_parts(current_version@),
            parts_newer(remote.deep_view(), current.deep_view(), i as int) == parts_newer(
                remote.deep_view(),
                current.deep_view(),
                0,
            ),
        decreases remote.len() - i,
    {
        let r = remote[i].as_slice();
        let c = current[i].as_slice();
        proof {
            assert(remote.deep_view()[i as int] == r@);
            assert(current.deep_view()[i as int] == c@);
        }
        match (parse_decimal(r, 0xffff_ffff), parse_decimal(c, 0xffff_ffff)) {
            (Some(x), Some(y)) => {
                if x > y {
                    return true;
                } else if x < y {
                    return false;
                }
            },
            _ => {
                if is_lex_less(c, r) {
                    return true;
                } else if is_lex_less(r, c) {
                    return false;
                }
            },
        }
        i = i + 1;
    }
    remote.len() > current.len()
}

/// What the update check does next.
#[derive(Debug, Clone, Copy, PartialEq, Eq, Structural)]
pub enum UpdateStep {
    /// The cache is valid and names a newer version: report it.
    ReportCached,
    /// The cache is valid and names no newer version: nothing to do.
    UpToDate,
    /// There is no cache, or it has expired: ask the server.
    Fetch,
}

/// What the update check does with the cache: when there is one whose expiry
/// `expires` lies after `now`, it decides; otherwise the server is asked.
pub fn next_step(cached: Option<&UpdateInfo>, now: u64, current_version: &str) -> (step: UpdateStep)
    ensures
        step == (match cached {
            Some(info) => if valid_until(time_of(info.cache.expires_at@), now) {
                if newer_version(info.version@, current_version@) {
                    UpdateStep::ReportCached
                } else {
                    UpdateStep::UpToDate
                }
            } else {
                UpdateStep::Fetch
            },
            None => UpdateStep::Fetch,
        }),
{
    match cached {
        Some(info) => {
            if is_cache_valid(info, now) {
                if is_newer_version(info.version.as_str(), current_version) {
                    UpdateStep::ReportCached
                } else {
                    UpdateStep::UpToDate
                }
            } else {
                UpdateStep::Fetch
            }
        },
        None => UpdateStep::Fetch,
    }
}

/// What to make of the server's answer.
#[derive(Debug, Clone, Copy, PartialEq, Eq, Structural)]
pub enum ResponseKind {
    /// A success status: the body holds the release information.
    Release,
    /// Not found: there is no release, and the default information stands in.
    NoRelease,
    /// Any other status: a failure.
    Failure,
}

/// Classifies an HTTP status: 200 to 299 is a success, 404 means that no
/// release exists, anything else is a failure.
pub fn classify_status(status: u16) -> (kind: ResponseKind)
    ensures
        kind == (if 200 <= status < 300 {
            ResponseKind::Release
        } else if status == 404 {
            ResponseKind::NoRelease
        } else {
            ResponseKind::Failure
        }),
{
    if 200 <= status && status < 300 {
        ResponseKind::Release
    } else if status == 404 {
        ResponseKind::NoRelease
    } else {
        ResponseKind::Failure
    }
}

/// What `char::is_alphanumeric` gives for a character: whether it is
/// alphabetic or numeric in the sense of the Unicode character database.
pub uninterp spec fn is_alphanumeric(c: char) -> bool;

/// Taken on trust of the standard library's `char::is_alphanumeric`: the
/// result depends on the character alone. It is given the name
/// [`is_alphanumeric`], and nothing more is claimed of it.
pub assume_specification[ char::is_alphanumeric ](c: char) -> (b: bool)
    ensures
        b == is_alphanumeric(c),
;

/// Whether a character may stand in a tag that is shown as part of a
/// command: letters, digits, dots, dashes and underscores may.
pub open spec fn is_tag_char(c: char) -> bool {
    is_alphanumeric(c) || c == '.' || c == '-' || c == '_'
}

/// A tag reduced to the characters that may stand in a command.
pub open spec fn safe_tag(tag: Seq<char>) -> Seq<char>
    decreases tag.len(),
{
    if tag.len() == 0 {
        Seq::empty()
    } else if is_tag_char(tag.last()) {
        safe_tag(tag.drop_last()).push(tag.last())
    } else {
        safe_tag(tag.drop_last())
    }
}

/// Computes [`safe_tag`].
pub fn sanitize_tag(tag: &[char]) -> (out: Vec<char>)
    ensures
        out@ == safe_tag(tag@),
{
    let mut out: Vec<char> = Vec::new();
    let mut i: usize = 0;
    while i < tag.len()
        invariant
            i <= tag.len(),
            out@ == safe_tag(tag@.take(i as int)),
        decreases tag.len() - i,
    {
        let c = tag[i];
        proof {
            assert(tag@.take(i + 1).drop_last() =~= tag@.take(i as int));
            assert(tag@.take(i + 1).last() == c);
        }
        if c.is_alphanumeric() || c == '.' || c == '-' || c == '_' {
            out.push(c);
        }
        i = i + 1;
    }
    proof {
        assert(tag@.take(i as int) =~= tag@);
    }
    out
}

/// The message that announces a release: what is new, and how to get it.
pub open spec fn notice_content(info: UpdateInfo) -> Seq<Seq<char>> {
    seq![
        "✨ fastcommit has a new version available!"@,
        Seq::empty(),
        "📦 New version: "@ + info.version@,
        "📅 Release date: "@ + info.published_at@,
        Seq::empty(),
        "🚀 Install the new version with the following command:"@,
        "  cargo install --git https://github.com/fslongjin/fastcommit --tag "@ + safe_tag(
            info.tag@,
        ),
    ]
}

/// The width of the widest of the lines; 0 when there are none.
pub open spec fn widest(lines: Seq<Seq<char>>) -> nat
    decreases lines.len(),
{
    if lines.len() == 0 {
        0
    } else if display_width(lines.last()) > widest(lines.drop_last()) {
        display_width(lines.last())
    } else {
        widest(lines.drop_last())
    }
}

/// The character `c`, `n` times.
pub open spec fn repeated(c: char, n: nat) -> Seq<char> {
    Seq::new(n, |i: int| c)
}

/// The upper edge of a box whose inside is `inner` columns wide.
pub open spec fn top_edge(inner: nat) -> Seq<char> {
    seq!['╭'] + repeated('─', inner) + seq!['╮']
}

/// The lower edge of a box whose inside is `inner` columns wide.
pub open spec fn bottom_edge(inner: nat) -> Seq<char> {
    seq!['╰'] + repeated('─', inner) + seq!['╯']
}

/// A line of the message between the sides of a box: two spaces of padding
/// on each side, and spaces behind the line up to `width` columns.
pub open spec fn boxed_line(line: Seq<char>, width: nat) -> Seq<char> {
    seq!['│', ' ', ' '] + line + repeated(' ', (width - display_width(line)) as nat) + seq![
        ' ',
        ' ',
        '│',
    ]
}

/// Each of the lines between the sides of a box.
pub open spec fn boxed_lines(lines: Seq<Seq<char>>, width: nat) -> Seq<Seq<char>>
    decreases lines.len(),
{
    if lines.len() == 0 {
        Seq::empty()
    } else {
        boxed_lines(lines.drop_last(), width).push(boxed_line(lines.last(), width))
    }
}

/// The lines of the notice: the message in a box that is as wide as its
/// widest line needs, followed by an empty line.
pub open spec fn notice(info: UpdateInfo) -> Seq<Seq<char>> {
    let content = notice_content(info);
    let width = widest(content);
    seq![top_edge(width + 4)] + boxed_lines(content, width) + seq![
        bottom_edge(width + 4),
        Seq::empty(),
    ]
}

/// Appends `c` to `out`, `n` times.
fn push_repeated(out: &mut Vec<char>, c: char, n: u128)
    ensures
        final(out)@ == old(out)@ + repeated(c, n as nat),
{
    let mut i: u128 = 0;
    while i < n
        invariant
            i <= n,
            out@ == old(out)@ + repeated(c, i as nat),
        decreases n - i,
    {
        out.push(c);
        proof {
            assert(out@ =~= old(out)@ + repeated(c, (i + 1) as nat));
        }
        i = i + 1;
    }
}

/// Appends one line to the lines.
fn push_line(lines: &mut Vec<Vec<char>>, line: Vec<char>)
    ensures
        final(lines).deep_view() == old(lines).deep_view().push(line@),
{
    proof {
        lemma_deep_view_push(*lines, line);
    }
    lines.push(line);
}

/// The line that `text` followed by `value` makes.
fn labelled(text: &str, value: &[char]) -> (out: Vec<char>)
    ensures
        out@ == text@ + value@,
{
    let mut out = to_chars(text);
    push_all(&mut out, value);
    out
}

/// The lines that announce the release `update_info`, ready to be printed
/// one after the other.
pub fn update_notice(update_info: &UpdateInfo) -> (lines: Vec<String>)
    ensures
        lines@.len() == notice(*update_info).len(),
        forall|k: int| 0 <= k < lines@.len() ==> (#[trigger] lines@[k])@ == notice(*update_info)[k],
{
    let tag = sanitize_tag(to_chars(update_info.tag.as_str()).as_slice());
    let mut content: Vec<Vec<char>> = Vec::new();
    push_line(&mut content, to_chars("✨ fastcommit has a new version available!"));
    push_line(&mut content, Vec::new());
    push_line(
        &mut content,
        labelled("📦 New version: ", to_chars(update_info.version.as_str()).as_slice()),
    );
    push_line(
        &mut content,
        labelled("📅 Release date: ", to_chars(update_info.published_at.as_str()).as_slice()),
    );
    push_line(&mut content, Vec::new());
    push_line(&mut content, to_chars("🚀 Install the new version with the following command:"));
    push_line(
        &mut content,
        labelled(
            "  cargo install --git https://github.com/fslongjin/fastcommit --tag ",
            tag.as_slice(),
        ),
    );
    proof {
        assert(content.deep_view() =~= notice_content(*update_info));
    }
    let mut width: u128 = 0;
    let mut i: usize = 0;
    while i < content.len()
        invariant
            i <= content.len(),
            width == widest(content.deep_view().take(i as int)),
            width <= 2 * usize::MAX,
        decreases content.len() - i,
    {
        proof {
            assert(content.deep_view().take(i + 1).drop_last() =~= content.deep_view().take(i as int));
            assert(content.deep_view().take(i + 1).last() == content@[i as int]@);
            lemma_buffer_width(&content@[i as int]);
        }
        let w = str_display_width(content[i].as_slice());
        if w > width {
            width = w;
        }
        i = i + 1;
    }
    proof {
        assert(content.deep_view().take(i as int) =~= content.deep_view());
    }
    let ghost expected = notice(*update_info);
    let mut lines: Vec<String> = Vec::new();
    let mut top: Vec<char> = Vec::new();
    top.push('╭');
    push_repeated(&mut top, '─', width + 4);
    top.push('╮');
    lines.push(from_chars(top.as_slice()));
    let mut k: usize = 0;
    while k < content.len()
        invariant
            k <= content.len(),
            width == widest(content.deep_view()),
            lines@.len() == k + 1,
            lines@[0]@ == top_edge(width as nat + 4),
            forall|j: int|
                0 <= j < k ==> (#[trigger] lines@[j + 1])@ == boxed_line(
                    content.deep_view()[j],
                    width as nat,
                ),
        decreases content.len() - k,
    {
        let w = str_display_width(content[k].as_slice());
        proof {
            lemma_widest_bounds(content.deep_view(), k as int);
            assert(content.deep_view()[k as int] == content@[k as int]@);
        }
        let mut line: Vec<char> = Vec::new();
        line.push('│');
        line.push(' ');
        line.push(' ');
        push_all(&mut line, content[k].as_slice());
        push_repeated(&mut line, ' ', width - w);
        line.push(' ');
        line.push(' ');
        line.push('│');
        proof {
            assert(line@ =~= boxed_line(content.deep_view()[k as int], width as nat));
        }
        lines.push(from_chars(line.as_slice()));
        k = k + 1;
    }
    let mut bottom: Vec<char> = Vec::new();
    bottom.push('╰');
    push_repeated(&mut bottom, '─', width + 4);
    bottom.push('╯');
    lines.push(from_chars(bottom.as_slice()));
    lines.push(String::new());
    proof {
        assert(top@ =~= top_edge(width as nat + 4));
        assert(bottom@ =~= bottom_edge(width as nat + 4));
        let boxed = boxed_lines(content.deep_view(), width as nat);
        lemma_boxed_lines(content.deep_view(), width as nat);
        assert(expected.len() == content.len() + 3);
        assert forall|j: int| 0 <= j < lines@.len() implies (#[trigger] lines@[j])@ == expected[j] by {
            if 1 <= j <= content.len() {
                assert(lines@[(j - 1) + 1]@ == boxed_line(content.deep_view()[j - 1], width as nat));
                assert(expected[j] == boxed[j - 1]);
            }
        }
    }
    lines
}

/// No line is wider than the widest.
pub proof fn lemma_widest_bounds(lines: Seq<Seq<char>>, k: int)
    requires
        0 <= k < lines.len(),
    ensures
        display_width(lines[k]) <= widest(lines),
    decreases lines.len(),
{
    if k < lines.len() - 1 {
        lemma_widest_bounds(lines.drop_last(), k);
    }
}

/// The boxed lines, index by index.
pub proof fn lemma_boxed_lines(lines: Seq<Seq<char>>, width: nat)
    ensures
        boxed_lines(lines, width).len() == lines.len(),
        forall|k: int|
            0 <= k < lines.len() ==> #[trigger] boxed_lines(lines, width)[k] == boxed_line(
                lines[k],
                width,
            ),
    decreases lines.len(),
{
    if lines.len() > 0 {
        lemma_boxed_lines(lines.drop_last(), width);
        assert forall|k: int| 0 <= k < lines.len() implies #[trigger] boxed_lines(lines, width)[k]
            == boxed_line(lines[k], width) by {
            if k < lines.len() - 1 {
                assert(boxed_lines(lines, width)[k] == boxed_lines(lines.drop_last(), width)[k]);
                assert(lines.drop_last()[k] == lines[k]);
            }
        }
    }
}

} // verus!
