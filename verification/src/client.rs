//! Rules of the command-line client: release versions, outbox timing and
//! retry, the identifiers of direct conversations and mailbox routes,
//! fingerprints, group timelines and mailbox endpoints.
use vstd::prelude::*;
use vstd::string::*;
use crate::digest::{blake3_digest, blake3_hash, extend_bytes, hex_lower, hex_encode};
use crate::ids::{ConversationId, DeviceId, IdentityId};
use crate::ordered::{key_order, lex_lt, KeyOrder, SortKey};
use crate::protocol::{BlobManifest, ConversationEvent, EventBody, same_bytes32};
use std::collections::BTreeMap;

verus! {

// ---------------------------------------------------------------------------
// Release versions
// ---------------------------------------------------------------------------

/// Whether a character is white space in Unicode's sense, as `str::trim`
/// takes it.
pub open spec fn is_white_space(c: char) -> bool {
    ||| '\u{9}' <= c <= '\u{d}'
    ||| c == ' '
    ||| c == '\u{85}'
    ||| c == '\u{a0}'
    ||| c == '\u{1680}'
    ||| '\u{2000}' <= c <= '\u{200a}'
    ||| c == '\u{2028}'
    ||| c == '\u{2029}'
    ||| c == '\u{202f}'
    ||| c == '\u{205f}'
    ||| c == '\u{3000}'
}

/// The text without its leading white space.
pub open spec fn trim_start(s: Seq<char>) -> Seq<char>
    decreases s.len(),
{
    if s.len() > 0 && is_white_space(s[0]) {
        trim_start(s.drop_first())
    } else {
        s
    }
}

/// The text without its trailing white space.
pub open spec fn trim_end(s: Seq<char>) -> Seq<char>
    decreases s.len(),
{
    if s.len() > 0 && is_white_space(s.last()) {
        trim_end(s.drop_last())
    } else {
        s
    }
}

/// The text without its leading `v`s.
pub open spec fn strip_v(s: Seq<char>) -> Seq<char>
    decreases s.len(),
{
    if s.len() > 0 && s[0] == 'v' {
        strip_v(s.drop_first())
    } else {
        s
    }
}

/// The text before the first `-` or `+`: a version without its
/// pre-release and build suffixes.
pub open spec fn before_suffix(s: Seq<char>) -> Seq<char>
    decreases s.len(),
{
    if s.len() == 0 || s[0] == '-' || s[0] == '+' {
        Seq::empty()
    } else {
        seq![s[0]] + before_suffix(s.drop_first())
    }
}

/// The pieces of the text between dots; one empty piece for empty text.
pub open spec fn split_dots(s: Seq<char>) -> Seq<Seq<char>>
    decreases s.len(),
{
    if s.len() == 0 {
        seq![Seq::empty()]
    } else {
        let rest = split_dots(s.drop_first());
        if s[0] == '.' {
            seq![Seq::<char>::empty()] + rest
        } else {
            rest.update(0, seq![s[0]] + rest[0])
        }
    }
}

/// Whether a character is an ASCII digit.
pub open spec fn is_digit(c: char) -> bool {
    '0' <= c <= '9'
}

/// The value of a string of digits.
pub open spec fn digits_value(s: Seq<char>) -> nat
    decreases s.len(),
{
    if s.len() == 0 {
        0
    } else {
        digits_value(s.drop_last()) * 10 + ((s.last() as int) - ('0' as int)) as nat
    }
}

/// What `u64::from_str` gives for a piece that holds no `+`: the value of
/// a non-empty string of digits that fits.
pub open spec fn parsed_u64(s: Seq<char>) -> Option<u64> {
    if s.len() > 0 && (forall|i: int| 0 <= i < s.len() ==> is_digit(#[trigger] s[i])) && digits_value(s)
        <= u64::MAX {
        Some(digits_value(s) as u64)
    } else {
        None
    }
}

/// The numeric release a version tag names: `major.minor.patch` after
/// trimming, leading `v`s dropped and any `-` or `+` suffix cut.
pub open spec fn version_of(s: Seq<char>) -> Option<(u64, u64, u64)> {
    release_of(split_dots(before_suffix(strip_v(trim_end(trim_start(s))))))
}

/// The characters of a text.
fn chars_of(s: &str) -> (r: Vec<char>)
    ensures
        r@ == s@,
{
    let n = s.unicode_len();
    let mut out: Vec<char> = Vec::new();
    let mut i: usize = 0;
    while i < n
        invariant
            n == s@.len(),
            i <= n,
            out@ == s@.take(i as int),
        decreases n - i,
    {
        out.push(s.get_char(i));
        i = i + 1;
        assert(out@ =~= s@.take(i as int));
    }
    assert(s@.take(n as int) =~= s@);
    out
}

pub(crate) fn is_white_space_char(c: char) -> (r: bool)
    ensures
        r == is_white_space(c),
{
    ('\u{9}' <= c && c <= '\u{d}') || c == ' ' || c == '\u{85}' || c == '\u{a0}' || c == '\u{1680}' || (
    '\u{2000}' <= c && c <= '\u{200a}') || c == '\u{2028}' || c == '\u{2029}' || c == '\u{202f}' || c
        == '\u{205f}' || c == '\u{3000}'
}

pub(crate) proof fn lemma_trim_start_skip(s: Seq<char>, i: int)
    requires
        0 <= i <= s.len(),
        forall|j: int| 0 <= j < i ==> is_white_space(#[trigger] s[j]),
        i == s.len() || !is_white_space(s[i]),
    ensures
        trim_start(s) == s.skip(i),
    decreases i,
{
    if i > 0 {
        lemma_trim_start_skip(s.drop_first(), i - 1);
        assert(s.drop_first().skip(i - 1) =~= s.skip(i));
    } else {
        assert(s.skip(0) =~= s);
    }
}

pub(crate) proof fn lemma_trim_end_take(s: Seq<char>, i: int)
    requires
        0 <= i <= s.len(),
        forall|j: int| i <= j < s.len() ==> is_white_space(#[trigger] s[j]),
        i == 0 || !is_white_space(s[i - 1]),
    ensures
        trim_end(s) == s.take(i),
    decreases s.len() - i,
{
    if i < s.len() {
        lemma_trim_end_take(s.drop_last(), i);
        assert(s.drop_last().take(i) =~= s.take(i));
    } else {
        assert(s.take(i) =~= s);
    }
}

proof fn lemma_strip_v_skip(s: Seq<char>, i: int)
    requires
        0 <= i <= s.len(),
        forall|j: int| 0 <= j < i ==> #[trigger] s[j] == 'v',
        i == s.len() || s[i] != 'v',
    ensures
        strip_v(s) == s.skip(i),
    decreases i,
{
    if i > 0 {
        lemma_strip_v_skip(s.drop_first(), i - 1);
        assert(s.drop_first().skip(i - 1) =~= s.skip(i));
    } else {
        assert(s.skip(0) =~= s);
    }
}

proof fn lemma_before_suffix_take(s: Seq<char>, i: int)
    requires
        0 <= i <= s.len(),
        forall|j: int| 0 <= j < i ==> #[trigger] s[j] != '-' && s[j] != '+',
        i == s.len() || s[i] == '-' || s[i] == '+',
    ensures
        before_suffix(s) == s.take(i),
    decreases i,
{
    if i > 0 {
        lemma_before_suffix_take(s.drop_first(), i - 1);
        assert(seq![s[0]] + s.drop_first().take(i - 1) =~= s.take(i));
    } else {
        assert(s.take(0) =~= Seq::<char>::empty());
    }
}

/// Splitting gives at least one piece.
proof fn lemma_split_nonempty(s: Seq<char>)
    ensures
        split_dots(s).len() >= 1,
    decreases s.len(),
{
    if s.len() > 0 {
        lemma_split_nonempty(s.drop_first());
    }
}

/// Splitting text that holds no dot gives the text itself.
proof fn lemma_split_no_dot(s: Seq<char>)
    requires
        forall|j: int| 0 <= j < s.len() ==> #[trigger] s[j] != '.',
    ensures
        split_dots(s) == seq![s],
    decreases s.len(),
{
    if s.len() > 0 {
        lemma_split_no_dot(s.drop_first());
        assert(seq![s[0]] + s.drop_first() =~= s);
        assert(split_dots(s) =~= seq![s]);
    } else {
        assert(s =~= Seq::<char>::empty());
    }
}

/// Text up to its first dot, then the rest, split.
proof fn lemma_split_first_dot(s: Seq<char>, i: int)
    requires
        0 <= i < s.len(),
        s[i] == '.',
        forall|j: int| 0 <= j < i ==> #[trigger] s[j] != '.',
    ensures
        split_dots(s) == seq![s.take(i)] + split_dots(s.skip(i + 1)),
    decreases i,
{
    if i == 0 {
        assert(s.drop_first() =~= s.skip(1));
        assert(s.take(0) =~= Seq::<char>::empty());
    } else {
        lemma_split_first_dot(s.drop_first(), i - 1);
        assert(s.drop_first().skip(i) =~= s.skip(i + 1));
        assert(seq![s[0]] + s.drop_first().take(i - 1) =~= s.take(i));
        assert(split_dots(s) =~= seq![s.take(i)] + split_dots(s.skip(i + 1)));
    }
}

/// Parses the digits `s[lo..hi]` as a `u64`.
fn parse_piece(s: &Vec<char>, lo: usize, hi: usize) -> (r: Option<u64>)
    requires
        lo <= hi <= s@.len(),
    ensures
        r == parsed_u64(s@.subrange(lo as int, hi as int)),
{
    let ghost piece = s@.subrange(lo as int, hi as int);
    if lo == hi {
        return None;
    }
    let mut value: u64 = 0;
    let mut i: usize = lo;
    while i < hi
        invariant
            lo <= i <= hi <= s@.len(),
            piece == s@.subrange(lo as int, hi as int),
            forall|j: int| lo <= j < i ==> is_digit(#[trigger] s@[j]),
            value == digits_value(s@.subrange(lo as int, i as int)),
        decreases hi - i,
    {
        let c = s[i];
        if !('0' <= c && c <= '9') {
            assert(piece[i - lo] == c);
            return None;
        }
        let d = (c as u32 - '0' as u32) as u64;
        assert(s@.subrange(lo as int, i + 1).drop_last() =~= s@.subrange(lo as int, i as int));
        if value > (u64::MAX - d) / 10 {
            proof {
                assert(digits_value(s@.subrange(lo as int, i + 1)) == value * 10 + d);
                assert(value * 10 + d > u64::MAX) by (nonlinear_arith)
                    requires
                        value > (u64::MAX - d) / 10,
                        d <= 9,
                ;
                lemma_digits_prefix(piece, i + 1 - lo);
                assert(piece.take(i + 1 - lo) =~= s@.subrange(lo as int, i + 1));
            }
            return None;
        }
        assert(value * 10 + d <= u64::MAX) by (nonlinear_arith)
            requires
                value <= (u64::MAX - d) / 10,
                d <= 9,
        ;
        value = value * 10 + d;
        i = i + 1;
    }
    assert(s@.subrange(lo as int, i as int) =~= piece);
    Some(value)
}

/// A string of digits is worth at least any of its prefixes.
proof fn lemma_digits_prefix(s: Seq<char>, k: int)
    requires
        0 <= k <= s.len(),
    ensures
        digits_value(s) >= digits_value(s.take(k)),
    decreases s.len(),
{
    if k < s.len() {
        lemma_digits_prefix(s.drop_last(), k);
        assert(s.drop_last().take(k) =~= s.take(k));
    } else {
        assert(s.take(k) =~= s);
    }
}

/// The release that three numeric pieces give.
pub open spec fn release_of(parts: Seq<Seq<char>>) -> Option<(u64, u64, u64)> {
    if parts.len() == 3 && parsed_u64(parts[0]) is Some && parsed_u64(parts[1]) is Some && parsed_u64(
        parts[2],
    ) is Some {
        Some((parsed_u64(parts[0]).unwrap(), parsed_u64(parts[1]).unwrap(), parsed_u64(parts[2]).unwrap()))
    } else {
        None
    }
}

/// The bounds of the numeric part of a version tag: trimmed, leading `v`s
/// dropped, cut at the first `-` or `+`.
fn stable_range(s: &Vec<char>) -> (r: (usize, usize))
    ensures
        r.0 <= r.1 <= s@.len(),
        s@.subrange(r.0 as int, r.1 as int) == before_suffix(strip_v(trim_end(trim_start(s@)))),
{
    let n = s.len();
    let mut lo: usize = 0;
    while lo < n && is_white_space_char(s[lo])
        invariant
            n == s@.len(),
            lo <= n,
            forall|j: int| 0 <= j < lo ==> is_white_space(#[trigger] s@[j]),
        decreases n - lo,
    {
        lo = lo + 1;
    }
    proof {
        lemma_trim_start_skip(s@, lo as int);
    }
    let mut hi: usize = n;
    while hi > lo && is_white_space_char(s[hi - 1])
        invariant
            n == s@.len(),
            lo <= hi <= n,
            forall|j: int| hi <= j < n ==> is_white_space(#[trigger] s@[j]),
        decreases hi - lo,
    {
        hi = hi - 1;
    }
    let ghost started = s@.skip(lo as int);
    proof {
        if hi > lo {
            assert(!is_white_space(started[hi - lo - 1]));
        }
        assert forall|j: int| hi - lo <= j < started.len() implies is_white_space(#[trigger] started[j]) by {
            assert(started[j] == s@[lo + j]);
        }
        lemma_trim_end_take(started, hi - lo);
        assert(started.take(hi - lo) =~= s@.subrange(lo as int, hi as int));
    }
    let mut start = lo;
    while start < hi && s[start] == 'v'
        invariant
            lo <= start <= hi <= n,
            n == s@.len(),
            forall|j: int| lo <= j < start ==> #[trigger] s@[j] == 'v',
        decreases hi - start,
    {
        start = start + 1;
    }
    let ghost trimmed = s@.subrange(lo as int, hi as int);
    proof {
        assert forall|j: int| 0 <= j < start - lo implies #[trigger] trimmed[j] == 'v' by {
            assert(trimmed[j] == s@[lo + j]);
        }
        lemma_strip_v_skip(trimmed, start - lo);
        assert(trimmed.skip(start - lo) =~= s@.subrange(start as int, hi as int));
    }
    let mut end = start;
    while end < hi && s[end] != '-' && s[end] != '+'
        invariant
            start <= end <= hi <= n,
            n == s@.len(),
            forall|j: int| start <= j < end ==> #[trigger] s@[j] != '-' && s@[j] != '+',
        decreases hi - end,
    {
        end = end + 1;
    }
    let ghost stripped = s@.subrange(start as int, hi as int);
    proof {
        assert forall|j: int| 0 <= j < end - start implies #[trigger] stripped[j] != '-' && stripped[j] != '+' by {
            assert(stripped[j] == s@[start + j]);
        }
        lemma_before_suffix_take(stripped, end - start);
        assert(stripped.take(end - start) =~= s@.subrange(start as int, end as int));
    }
    (start, end)
}

/// The first dot of `s[from..end]`, or `end` where there is none.
fn find_dot(s: &Vec<char>, from: usize, end: usize) -> (r: usize)
    requires
        from <= end <= s@.len(),
    ensures
        from <= r <= end,
        forall|j: int| from <= j < r ==> #[trigger] s@[j] != '.',
        r < end ==> s@[r as int] == '.',
{
    let mut i = from;
    while i < end && s[i] != '.'
        invariant
            from <= i <= end <= s@.len(),
            forall|j: int| from <= j < i ==> #[trigger] s@[j] != '.',
        decreases end - i,
    {
        i = i + 1;
    }
    i
}

/// Splitting `s[from..end]` at a first dot found at `dot`.
proof fn lemma_split_at(s: Seq<char>, from: int, dot: int, end: int)
    requires
        0 <= from <= dot <= end <= s.len(),
        forall|j: int| from <= j < dot ==> #[trigger] s[j] != '.',
        dot < end ==> s[dot] == '.',
    ensures
        dot == end ==> split_dots(s.subrange(from, end)) == seq![s.subrange(from, end)],
        dot < end ==> split_dots(s.subrange(from, end)) == seq![s.subrange(from, dot)] + split_dots(
            s.subrange(dot + 1, end),
        ),
{
    let piece = s.subrange(from, end);
    assert forall|j: int| 0 <= j < dot - from implies #[trigger] piece[j] != '.' by {
        assert(piece[j] == s[from + j]);
    }
    if dot == end {
        lemma_split_no_dot(piece);
    } else {
        assert(piece[dot - from] == '.');
        lemma_split_first_dot(piece, dot - from);
        assert(piece.take(dot - from) =~= s.subrange(from, dot));
        assert(piece.skip(dot - from + 1) =~= s.subrange(dot + 1, end));
    }
}

/// The release the pieces of `s[start..end]` give.
fn parse_release(s: &Vec<char>, start: usize, end: usize) -> (r: Option<(u64, u64, u64)>)
    requires
        start <= end <= s@.len(),
    ensures
        r == release_of(split_dots(s@.subrange(start as int, end as int))),
{
    let first = find_dot(s, start, end);
    proof {
        lemma_split_at(s@, start as int, first as int, end as int);
    }
    if first == end {
        return None;
    }
    let second = find_dot(s, first + 1, end);
    proof {
        lemma_split_at(s@, first + 1, second as int, end as int);
    }
    if second == end {
        assert(split_dots(s@.subrange(start as int, end as int)).len() == 2);
        return None;
    }
    let third = find_dot(s, second + 1, end);
    proof {
        lemma_split_at(s@, second + 1, third as int, end as int);
    }
    if third < end {
        proof {
            lemma_split_nonempty(s@.subrange(third + 1, end as int));
        }
        assert(split_dots(s@.subrange(start as int, end as int)).len() > 3);
        return None;
    }
    assert(split_dots(s@.subrange(start as int, end as int)) =~= seq![
        s@.subrange(start as int, first as int),
        s@.subrange(first + 1, second as int),
        s@.subrange(second + 1, end as int),
    ]);
    let major = parse_piece(s, start, first);
    let minor = parse_piece(s, first + 1, second);
    let patch = parse_piece(s, second + 1, end);
    match (major, minor, patch) {
        (Some(a), Some(b), Some(c)) => Some((a, b, c)),
        _ => None,
    }
}

/// The numeric release a version tag names, as `(major, minor, patch)`:
/// leading and trailing white space, leading `v`s and any `-` or `+` suffix
/// are ignored, and exactly three dot-separated numbers must remain.
pub fn release_version(value: &str) -> (r: Option<(u64, u64, u64)>)
    ensures
        r == version_of(value@),
{
    let s = chars_of(value);
    let (start, end) = stable_range(&s);
    parse_release(&s, start, end)
}

/// Whether release `a` comes after release `b`: by major, then minor, then
/// patch number.
pub open spec fn release_after(a: (u64, u64, u64), b: (u64, u64, u64)) -> bool {
    a.0 > b.0 || (a.0 == b.0 && (a.1 > b.1 || (a.1 == b.1 && a.2 > b.2)))
}

/// Whether the text ends with the suffix.
pub open spec fn ends_with(s: Seq<char>, suffix: Seq<char>) -> bool {
    suffix.len() <= s.len() && s.skip(s.len() - suffix.len()) == suffix
}

/// The download address of a release: that of the first asset whose name
/// ends with the suffix, or empty where there is none or it has none.
pub open spec fn asset_url(assets: Seq<(String, Option<String>)>, suffix: Seq<char>) -> Seq<char>
    decreases assets.len(),
{
    if assets.len() == 0 {
        Seq::empty()
    } else if ends_with(assets[0].0@, suffix) {
        match assets[0].1 {
            Some(u) => u@,
            None => Seq::empty(),
        }
    } else {
        asset_url(assets.drop_first(), suffix)
    }
}

fn text_ends_with(s: &str, suffix: &str) -> (r: bool)
    ensures
        r == ends_with(s@, suffix@),
{
    let n = s.unicode_len();
    let m = suffix.unicode_len();
    if m > n {
        return false;
    }
    let mut i: usize = 0;
    while i < m
        invariant
            n == s@.len(),
            m == suffix@.len(),
            m <= n,
            i <= m,
            forall|j: int| 0 <= j < i ==> s@[n - m + j] == suffix@[j],
        decreases m - i,
    {
        if s.get_char(n - m + i) != suffix.get_char(i) {
            assert(s@.skip(n - m)[i as int] == s@[n - m + i]);
            return false;
        }
        i = i + 1;
    }
    assert(s@.skip(n - m) =~= suffix@);
    true
}

/// The download address of the release asset whose name ends with the
/// suffix that fits this machine.
pub fn release_asset_url(assets: &[(String, Option<String>)], suffix: &str) -> (r: String)
    ensures
        r@ == asset_url(assets@, suffix@),
{
    let mut i: usize = 0;
    assert(assets@.skip(0) =~= assets@);
    while i < assets.len()
        invariant
            i <= assets@.len(),
            asset_url(assets@, suffix@) == asset_url(assets@.skip(i as int), suffix@),
        decreases assets@.len() - i,
    {
        assert(assets@.skip(i as int).drop_first() =~= assets@.skip(i + 1));
        assert(assets@.skip(i as int)[0] == assets@[i as int]);
        if text_ends_with(assets[i].0.as_str(), suffix) {
            return match &assets[i].1 {
                Some(u) => u.clone(),
                None => String::new(),
            };
        }
        i = i + 1;
    }
    assert(assets@.skip(i as int) =~= Seq::<(String, Option<String>)>::empty());
    String::new()
}

/// Whether an update is offered: the latest release's tag names a release
/// after the running one, and there is an asset to download.
pub open spec fn update_offered(latest: Seq<char>, current: Seq<char>, url: Seq<char>) -> bool {
    &&& version_of(latest) matches Some(l)
    &&& version_of(current) matches Some(c)
    &&& release_after(l, c)
    &&& url.len() > 0
}

/// Whether an update is offered for the running version `current`, given
/// the latest release's tag and the download address found for it.
pub fn update_available(latest: &str, current: &str, url: &str) -> (r: bool)
    ensures
        r == update_offered(latest@, current@, url@),
{
    let newer = match (release_version(latest), release_version(current)) {
        (Some(l), Some(c)) => l.0 > c.0 || (l.0 == c.0 && (l.1 > c.1 || (l.1 == c.1 && l.2 > c.2))),
        _ => false,
    };
    newer && url.unicode_len() > 0
}

// ---------------------------------------------------------------------------
// Outbox timing
// ---------------------------------------------------------------------------

/// Two to the power `n`.
pub open spec fn doubling(n: nat) -> nat
    decreases n,
{
    if n == 0 {
        1
    } else {
        2 * doubling((n - 1) as nat)
    }
}

/// How long after a failed delivery the next attempt comes: two seconds
/// doubled per failed attempt, at most five minutes.
pub open spec fn retry_delay(attempts: u32) -> int {
    let d = 2000 * doubling(if attempts < 8 { attempts as nat } else { 8 });
    if d > 300000 { 300000 } else { d as int }
}

/// The delay before the next delivery attempt of an envelope that already
/// failed `attempts` times.
pub fn retry_delay_ms(attempts: u32) -> (r: i64)
    ensures
        r == retry_delay(attempts),
{
    proof {
        reveal_with_fuel(doubling, 9);
    }
    match attempts {
        0 => 2000,
        1 => 4000,
        2 => 8000,
        3 => 16000,
        4 => 32000,
        5 => 64000,
        6 => 128000,
        7 => 256000,
        _ => 300000,
    }
}

/// Adds with saturation at the ends of `i64`.
pub open spec fn saturating(v: int) -> i64 {
    if v > i64::MAX {
        i64::MAX
    } else if v < i64::MIN {
        i64::MIN
    } else {
        v as i64
    }
}

fn saturating_add(a: i64, b: i64) -> (r: i64)
    ensures
        r == saturating(a + b),
{
    if b > 0 && a > i64::MAX - b {
        i64::MAX
    } else if b < 0 && a < i64::MIN - b {
        i64::MIN
    } else {
        a + b
    }
}

/// When an envelope that failed `attempts` times is tried again.
pub fn retry_time_ms(now_ms: i64, attempts: u32) -> (r: i64)
    ensures
        r == saturating(now_ms + retry_delay(attempts)),
{
    saturating_add(now_ms, retry_delay_ms(attempts))
}

/// The time of the next outbox entry: two seconds from now, and always
/// after the `previous` one, so that entries keep the order they were made
/// in.
pub fn next_outbox_time(now_ms: i64, previous: i64) -> (r: i64)
    ensures
        r == if saturating(now_ms + 2000) >= saturating(previous + 1) {
            saturating(now_ms + 2000)
        } else {
            saturating(previous + 1)
        },
{
    let candidate = saturating_add(now_ms, 2000);
    let after = saturating_add(previous, 1);
    if candidate >= after {
        candidate
    } else {
        after
    }
}

/// Outbox times only grow: each is after the one before, up to `i64::MAX`.
pub proof fn law_outbox_times_increase(now_ms: i64, previous: i64, r: i64)
    requires
        previous < i64::MAX,
        r == if saturating(now_ms + 2000) >= saturating(previous + 1) {
            saturating(now_ms + 2000)
        } else {
            saturating(previous + 1)
        },
    ensures
        r > previous,
{
}

/// Calls `OffsetDateTime::now_utc().unix_timestamp_nanos()`. Nothing is
/// promised of the value: it is the time.
#[verifier::external_body]
fn utc_now_nanos() -> (r: i128) {
    time::OffsetDateTime::now_utc().unix_timestamp_nanos()
}

/// Milliseconds from nanoseconds, rounded toward zero; `i64::MAX` where
/// they do not fit.
pub open spec fn millis_of(nanos: i128) -> i64 {
    let m = if nanos >= 0 { nanos / 1000000 } else { -((-nanos) / 1000000) };
    if i64::MIN <= m <= i64::MAX {
        m as i64
    } else {
        i64::MAX
    }
}

/// Milliseconds from nanoseconds since the epoch.
pub fn millis_from_nanos(nanos: i128) -> (r: i64)
    ensures
        r == millis_of(nanos),
{
    let m: i128 = if nanos >= 0 {
        nanos / 1000000
    } else if nanos == i128::MIN {
        -(170141183460469231731687303715884i128)
    } else {
        -((-nanos) / 1000000)
    };
    if m >= i64::MIN as i128 && m <= i64::MAX as i128 {
        m as i64
    } else {
        i64::MAX
    }
}

/// The current time in milliseconds since the epoch.
pub fn now_millis() -> (r: i64) {
    millis_from_nanos(utc_now_nanos())
}

// ---------------------------------------------------------------------------
// Identifiers
// ---------------------------------------------------------------------------

/// The bytes of `pptalk-direct-v1`.
pub open spec fn direct_domain() -> Seq<u8> {
    seq![
        0x70u8, 0x70u8, 0x74u8, 0x61u8, 0x6cu8, 0x6bu8, 0x2du8, 0x64u8, 0x69u8, 0x72u8,
        0x65u8, 0x63u8, 0x74u8, 0x2du8, 0x76u8, 0x31u8,
    ]
}

/// The bytes of `pptalk-route-v1`.
pub open spec fn route_domain() -> Seq<u8> {
    seq![
        0x70u8, 0x70u8, 0x74u8, 0x61u8, 0x6cu8, 0x6bu8, 0x2du8, 0x72u8, 0x6fu8, 0x75u8,
        0x74u8, 0x65u8, 0x2du8, 0x76u8, 0x31u8,
    ]
}

/// The identifier of the direct conversation of two identities: the
/// digest of the domain and both identities, the smaller first.
pub open spec fn direct_conversation(a: Seq<u8>, b: Seq<u8>) -> Seq<u8> {
    if lex_lt(b, a) {
        blake3_digest(direct_domain() + b + a)
    } else {
        blake3_digest(direct_domain() + a + b)
    }
}

/// The conversation two identities hold directly with each other.
pub fn direct_conversation_id(local: IdentityId, remote: IdentityId) -> (r: ConversationId)
    ensures
        r@ == direct_conversation(local@, remote@),
{
    let (first, second) = match local.compare_key(&remote) {
        KeyOrder::Greater => (remote, local),
        _ => (local, remote),
    };
    proof {
        if lex_lt(remote@, local@) {
            crate::ordered::lemma_lex_asymmetric(remote@, local@);
        }
        if local@ != remote@ && !lex_lt(local@, remote@) {
            crate::ordered::lemma_lex_total(local@, remote@);
        }
    }
    let domain: [u8; 16] = [
        0x70, 0x70, 0x74, 0x61, 0x6c, 0x6b, 0x2d, 0x64, 0x69, 0x72,
        0x65, 0x63, 0x74, 0x2d, 0x76, 0x31,
    ];
    let mut material: Vec<u8> = Vec::new();
    extend_bytes(&mut material, domain.as_slice());
    extend_bytes(&mut material, first.as_bytes().as_slice());
    extend_bytes(&mut material, second.as_bytes().as_slice());
    assert(domain@ =~= direct_domain());
    assert(material@ == direct_domain() + first@ + second@);
    ConversationId::from_bytes(blake3_hash(material.as_slice()))
}

/// Both sides of a direct conversation name it alike.
pub proof fn law_direct_conversation_symmetric(a: Seq<u8>, b: Seq<u8>)
    requires
        a.len() == 32,
        b.len() == 32,
    ensures
        direct_conversation(a, b) == direct_conversation(b, a),
{
    if a != b {
        crate::ordered::lemma_lex_total(a, b);
        if lex_lt(a, b) {
            crate::ordered::lemma_lex_asymmetric(a, b);
        } else {
            crate::ordered::lemma_lex_asymmetric(b, a);
        }
    }
}

/// The mailbox route of a recipient device under a contact's shared
/// secret: the digest of the domain, the secret and the device.
pub open spec fn route_of(secret: Seq<u8>, device: Seq<u8>) -> Seq<u8> {
    blake3_digest(route_domain() + secret + device)
}

/// The capability that routes envelopes to a device's mailbox.
pub fn routing_capability(secret: &[u8; 32], recipient_device: DeviceId) -> (r: [u8; 32])
    ensures
        r@ == route_of(secret@, recipient_device@),
{
    let domain: [u8; 15] = [
        0x70, 0x70, 0x74, 0x61, 0x6c, 0x6b, 0x2d, 0x72, 0x6f, 0x75,
        0x74, 0x65, 0x2d, 0x76, 0x31,
    ];
    let mut input: Vec<u8> = Vec::new();
    extend_bytes(&mut input, domain.as_slice());
    extend_bytes(&mut input, secret.as_slice());
    extend_bytes(&mut input, recipient_device.as_bytes().as_slice());
    assert(domain@ =~= route_domain());
    assert(input@ == route_domain() + secret@ + recipient_device@);
    blake3_hash(input.as_slice())
}

// ---------------------------------------------------------------------------
// Fingerprints
// ---------------------------------------------------------------------------

/// The uppercase hexadecimal digit of a value below 16.
pub open spec fn upper_digit(v: int) -> char {
    if v < 10 {
        (v + ('0' as int)) as char
    } else {
        (v - 10 + ('A' as int)) as char
    }
}

/// Uppercase hexadecimal digit `k` of bytes: the high half of a byte first.
pub open spec fn nibble_char(bytes: Seq<u8>, k: int) -> char {
    if k % 2 == 0 {
        upper_digit((bytes[k / 2] / 16) as int)
    } else {
        upper_digit((bytes[k / 2] % 16) as int)
    }
}

/// The fingerprint of an identity: its 64 uppercase hexadecimal digits in
/// blocks of four, separated by single spaces.
pub open spec fn fingerprint_of(id: Seq<u8>) -> Seq<char> {
    Seq::new(79, |p: int| if p % 5 == 4 { ' ' } else { nibble_char(id, (p / 5) * 4 + p % 5) })
}

fn upper_digit_text(v: u8) -> (r: &'static str)
    requires
        v < 16,
    ensures
        r@ == seq![upper_digit(v as int)],
{
    proof {
        reveal_strlit("0");
        reveal_strlit("1");
        reveal_strlit("2");
        reveal_strlit("3");
        reveal_strlit("4");
        reveal_strlit("5");
        reveal_strlit("6");
        reveal_strlit("7");
        reveal_strlit("8");
        reveal_strlit("9");
        reveal_strlit("A");
        reveal_strlit("B");
        reveal_strlit("C");
        reveal_strlit("D");
        reveal_strlit("E");
        reveal_strlit("F");
    }
    match v {
        0 => "0",
        1 => "1",
        2 => "2",
        3 => "3",
        4 => "4",
        5 => "5",
        6 => "6",
        7 => "7",
        8 => "8",
        9 => "9",
        10 => "A",
        11 => "B",
        12 => "C",
        13 => "D",
        14 => "E",
        _ => "F",
    }
}

/// The fingerprint people compare to check an identity: its hexadecimal
/// digits, uppercase, in blocks of four.
pub fn identity_fingerprint(identity: IdentityId) -> (r: String)
    ensures
        r@ == fingerprint_of(identity@),
{
    let bytes = identity.as_bytes();
    let mut out = String::new();
    let mut q: usize = 0;
    while q < 16
        invariant
            q <= 16,
            bytes@ == identity@,
            bytes@.len() == 32,
            out@.len() == if q == 0 { 0 } else { q * 5 - 1 },
            forall|p: int| 0 <= p < out@.len() ==> #[trigger] out@[p] == fingerprint_of(identity@)[p],
        decreases 16 - q,
    {
        proof {
            reveal_strlit(" ");
        }
        let ghost before = out@;
        let b = 2 * q;
        let ghost sep: Seq<char> = if q > 0 { seq![' '] } else { Seq::empty() };
        if q > 0 {
            out.append(" ");
        }
        assert(out@ =~= before + sep);
        let d0 = upper_digit_text(bytes[b] / 16);
        let d1 = upper_digit_text(bytes[b] % 16);
        let d2 = upper_digit_text(bytes[b + 1] / 16);
        let d3 = upper_digit_text(bytes[b + 1] % 16);
        out.append(d0);
        out.append(d1);
        out.append(d2);
        out.append(d3);
        proof {
            let block = d0@ + d1@ + d2@ + d3@;
            assert(out@ =~= before + sep + block);
            assert forall|p: int| 0 <= p < out@.len() implies #[trigger] out@[p] == fingerprint_of(identity@)[p] by {
                if p < before.len() {
                    assert(out@[p] == before[p]);
                } else if p < before.len() + sep.len() {
                    lemma_fingerprint_place(identity@, q - 1, 4);
                } else {
                    let o = p - before.len() - sep.len();
                    assert(p == 5 * q + o);
                    lemma_fingerprint_place(identity@, q as int, o);
                }
            }
        }
        q = q + 1;
    }
    assert(out@ =~= fingerprint_of(identity@));
    out
}

/// Place `o` of block `q` of a fingerprint: a digit of byte `2q` or `2q + 1`
/// for `o` below 4, the separating space for `o` equal to 4.
proof fn lemma_fingerprint_place(id: Seq<u8>, q: int, o: int)
    requires
        0 <= q < 16,
        0 <= o <= 4,
        5 * q + o < 79,
    ensures
        o == 4 ==> fingerprint_of(id)[5 * q + o] == ' ',
        o == 0 ==> fingerprint_of(id)[5 * q + o] == upper_digit((id[2 * q] / 16) as int),
        o == 1 ==> fingerprint_of(id)[5 * q + o] == upper_digit((id[2 * q] % 16) as int),
        o == 2 ==> fingerprint_of(id)[5 * q + o] == upper_digit((id[2 * q + 1] / 16) as int),
        o == 3 ==> fingerprint_of(id)[5 * q + o] == upper_digit((id[2 * q + 1] % 16) as int),
{
    let p = 5 * q + o;
    assert(p / 5 == q && p % 5 == o) by (nonlinear_arith)
        requires
            p == 5 * q + o,
            0 <= o < 5,
    ;
    let k = q * 4 + o;
    assert(q * 4 == 4 * q) by (nonlinear_arith);
}

// ---------------------------------------------------------------------------
// Group timelines
// ---------------------------------------------------------------------------

/// The latest logical time among events, if any.
pub open spec fn latest_time(events: Seq<ConversationEvent>) -> Option<i64>
    decreases events.len(),
{
    if events.len() == 0 {
        None
    } else {
        let t = events.last().logical_time_ms;
        match latest_time(events.drop_last()) {
            None => Some(t),
            Some(m) => Some(if m >= t { m } else { t }),
        }
    }
}

/// The logical time of a new group event: now, but always after the
/// latest event already in the group.
pub open spec fn next_logical_time(events: Seq<ConversationEvent>, now_ms: i64) -> i64 {
    match latest_time(events) {
        None => now_ms,
        Some(latest) => {
            let after = saturating(latest + 1);
            if now_ms >= after { now_ms } else { after }
        },
    }
}

/// The logical time a new event of a group gets.
pub fn next_group_logical_time(events: &[ConversationEvent], now_ms: i64) -> (r: i64)
    ensures
        r == next_logical_time(events@, now_ms),
{
    let mut latest: Option<i64> = None;
    let mut i: usize = 0;
    while i < events.len()
        invariant
            i <= events@.len(),
            latest == latest_time(events@.take(i as int)),
        decreases events@.len() - i,
    {
        let t = events[i].logical_time_ms;
        assert(events@.take(i as int + 1).drop_last() =~= events@.take(i as int));
        latest = match latest {
            None => Some(t),
            Some(m) => Some(if m >= t { m } else { t }),
        };
        i = i + 1;
    }
    assert(events@.take(i as int) =~= events@);
    match latest {
        None => now_ms,
        Some(l) => {
            let after = saturating_add(l, 1);
            if now_ms >= after {
                now_ms
            } else {
                after
            }
        },
    }
}

/// A new group event comes after every event already in the group, up to
/// `i64::MAX`.
pub proof fn law_new_event_comes_last(events: Seq<ConversationEvent>, now_ms: i64, i: int)
    requires
        0 <= i < events.len(),
        events[i].logical_time_ms < i64::MAX,
    ensures
        next_logical_time(events, now_ms) > events[i].logical_time_ms,
    decreases events.len(),
{
    lemma_latest_bounds(events, i);
}

proof fn lemma_latest_bounds(events: Seq<ConversationEvent>, i: int)
    requires
        0 <= i < events.len(),
    ensures
        latest_time(events) matches Some(m) && m >= events[i].logical_time_ms,
    decreases events.len(),
{
    if i < events.len() - 1 {
        lemma_latest_bounds(events.drop_last(), i);
        assert(events.drop_last()[i] == events[i]);
    } else {
        if events.len() > 1 {
            lemma_latest_some(events.drop_last());
        }
    }
}

proof fn lemma_latest_some(events: Seq<ConversationEvent>)
    requires
        events.len() > 0,
    ensures
        latest_time(events) is Some,
    decreases events.len(),
{
}

/// Whether one of the identifiers is `id`.
pub open spec fn ids_contain(ids: Seq<[u8; 32]>, id: Seq<u8>) -> bool {
    exists|i: int| 0 <= i < ids.len() && (#[trigger] ids[i])@ == id
}

/// Whether a group event creates a message that carries an attachment.
pub open spec fn references_attachment(body: EventBody, transfer_id: Seq<u8>) -> bool {
    match body {
        EventBody::MessageCreate { content } => ids_contain(content.attachment_ids@, transfer_id),
        _ => false,
    }
}

/// Whether `event` creates a message with the attachment `transfer_id`.
pub fn event_references_attachment(event: &ConversationEvent, transfer_id: &[u8; 32]) -> (r: bool)
    ensures
        r == references_attachment(event.body, transfer_id@),
{
    match &event.body {
        EventBody::MessageCreate { content } => {
            let mut i: usize = 0;
            while i < content.attachment_ids.len()
                invariant
                    event.body == (EventBody::MessageCreate { content: *content }),
                    i <= content.attachment_ids@.len(),
                    forall|j: int| 0 <= j < i ==> (#[trigger] content.attachment_ids@[j])@ != transfer_id@,
                decreases content.attachment_ids@.len() - i,
            {
                if same_bytes32(&content.attachment_ids[i], transfer_id) {
                    assert((content.attachment_ids@[i as int])@ == transfer_id@);
                    assert(ids_contain(content.attachment_ids@, transfer_id@));
                    return true;
                }
                i = i + 1;
            }
            false
        },
        _ => false,
    }
}

// ---------------------------------------------------------------------------
// Deliveries
// ---------------------------------------------------------------------------

/// The largest attachment the client sends: 512 MiB.
pub const MAX_ATTACHMENT_BYTES: u64 = 536870912;

/// The chunk size of direct attachments: 256 KiB.
pub const ATTACHMENT_CHUNK_BYTES: u32 = 262144;

/// How a packet reached its recipient, from best to worst.
#[derive(Debug, Clone, Copy, PartialEq, Eq)]
pub enum Delivery {
    /// Over a direct connection.
    Direct,
    /// Into one of the recipient's mailboxes.
    Mailbox,
    /// Into the local outbox, to be retried.
    Queued,
}

/// The rank of a delivery: the worse, the higher.
pub open spec fn delivery_rank(d: Delivery) -> int {
    match d {
        Delivery::Direct => 0,
        Delivery::Mailbox => 1,
        Delivery::Queued => 2,
    }
}

impl Delivery {
    /// The name the desktop shows.
    pub fn name(&self) -> (r: &'static str)
        ensures
            r@ == match *self {
                Delivery::Direct => "direct"@,
                Delivery::Mailbox => "mailbox"@,
                Delivery::Queued => "queued"@,
            },
    {
        match self {
            Delivery::Direct => "direct",
            Delivery::Mailbox => "mailbox",
            Delivery::Queued => "queued",
        }
    }
}

/// How a transfer was delivered once one more of its packets was: the worse
/// of the two.
pub fn combine_delivery(so_far: Delivery, packet: Delivery) -> (r: Delivery)
    ensures
        delivery_rank(r) == if delivery_rank(packet) > delivery_rank(so_far) {
            delivery_rank(packet)
        } else {
            delivery_rank(so_far)
        },
{
    match (so_far, packet) {
        (_, Delivery::Queued) => Delivery::Queued,
        (Delivery::Direct, Delivery::Mailbox) => Delivery::Mailbox,
        _ => so_far,
    }
}

/// Whether an attachment of `len` bytes may be sent.
pub fn attachment_size_ok(len: u64) -> (r: bool)
    ensures
        r == (len <= MAX_ATTACHMENT_BYTES),
{
    len <= MAX_ATTACHMENT_BYTES
}

/// A product of sizes, held at `usize::MAX` where it would pass it.
pub open spec fn saturating_product(a: usize, b: usize) -> int {
    if a * b > usize::MAX {
        usize::MAX as int
    } else {
        a * b
    }
}

/// The progress of a file sent to several devices of a contact, one after
/// the other: after `sent` of the `chunks` chunks to device `device_index`
/// of `device_count`, how many chunks have gone out of how many.
pub fn transfer_progress(device_index: usize, device_count: usize, chunks: usize, sent: usize) -> (r: (usize, usize))
    requires
        saturating_product(device_index, chunks) + sent <= usize::MAX,
    ensures
        r.0 == saturating_product(device_index, chunks) + sent,
        r.1 == saturating_product(chunks, device_count),
{
    let done = match device_index.checked_mul(chunks) {
        Some(v) => v,
        None => usize::MAX,
    };
    let total = match chunks.checked_mul(device_count) {
        Some(v) => v,
        None => usize::MAX,
    };
    (done + sent, total)
}

/// The largest text message, in bytes: 64 KiB.
pub const MAX_MESSAGE_BYTES: usize = 65536;

/// Whether a text message of `len` bytes may be sent: it is not empty and
/// at most `MAX_MESSAGE_BYTES` long.
pub fn message_size_ok(len: usize) -> (r: bool)
    ensures
        r == (1 <= len <= MAX_MESSAGE_BYTES),
{
    len >= 1 && len <= MAX_MESSAGE_BYTES
}

/// The shortest lifetime of an invite, in seconds: one minute.
pub const MIN_INVITE_SECONDS: i64 = 60;

/// The longest lifetime of an invite, in seconds: seven days.
pub const MAX_INVITE_SECONDS: i64 = 604800;

/// Whether an invite may live for `seconds`.
pub fn invite_lifetime_ok(seconds: i64) -> (r: bool)
    ensures
        r == (MIN_INVITE_SECONDS <= seconds <= MAX_INVITE_SECONDS),
{
    MIN_INVITE_SECONDS <= seconds && seconds <= MAX_INVITE_SECONDS
}

/// Whether a sender's device is the one its public key names, in a packet
/// of this protocol version.
pub fn sender_device_proof(version: u16, public_key: &[u8; 32], device: DeviceId) -> (r: bool)
    ensures
        r == (version == crate::protocol::PROTOCOL_VERSION && device@ == blake3_digest(public_key@)),
{
    let derived = DeviceId::from_bytes(blake3_hash(public_key.as_slice()));
    version == crate::protocol::PROTOCOL_VERSION && derived.same(&device)
}

/// The most chunks an attachment may have.
pub const MAX_ATTACHMENT_CHUNKS: usize = 65536;

/// The largest sealed attachment chunk: 4 MiB.
pub const MAX_ATTACHMENT_CHUNK_BYTES: usize = 4194304;

/// The identifier of a received direct message: the one it carries, or,
/// where it carries none (all zeros), the digest of its packet's encoding.
pub fn direct_message_id(message_id: [u8; 32], packet_encoding: &[u8]) -> (r: [u8; 32])
    ensures
        r@ == if message_id@ == Seq::new(32, |i: int| 0u8) {
            blake3_digest(packet_encoding@)
        } else {
            message_id@
        },
{
    let zero = [0u8; 32];
    assert(zero@ =~= Seq::new(32, |i: int| 0u8));
    if same_bytes32(&message_id, &zero) {
        blake3_hash(packet_encoding)
    } else {
        message_id
    }
}

/// Whether an attachment manifest is named by its ciphertext digest and has
/// at most `MAX_ATTACHMENT_CHUNKS` chunks.
pub fn attachment_manifest_ok(manifest: &BlobManifest, transfer_id: &[u8; 32]) -> (r: bool)
    ensures
        r == (manifest.ciphertext_hash@ == transfer_id@ && manifest.chunk_hashes@.len() <= MAX_ATTACHMENT_CHUNKS),
{
    same_bytes32(&manifest.ciphertext_hash, transfer_id) && manifest.chunk_hashes.len() <= MAX_ATTACHMENT_CHUNKS
}

/// Whether an attachment chunk is within the protocol's size.
pub fn attachment_chunk_ok(len: usize) -> (r: bool)
    ensures
        r == (len <= MAX_ATTACHMENT_CHUNK_BYTES),
{
    len <= MAX_ATTACHMENT_CHUNK_BYTES
}

/// The chunks of an attachment in index order, once all `count` have
/// arrived and no other: nothing before then, nor for a count beyond the
/// `u32` indices.
pub fn ordered_chunks(chunks: &BTreeMap<u32, Vec<u8>>, count: usize) -> (r: Option<Vec<Vec<u8>>>)
    ensures
        r is Some <==> chunks@.len() == count && count <= u32::MAX + 1 && forall|k: u32|
            k < count ==> #[trigger] chunks@.contains_key(k),
        r matches Some(v) ==> v@.len() == count && forall|k: u32| k < count ==> (#[trigger] v@[k as int])@ == chunks@[k]@,
{
    if chunks.len() != count {
        return None;
    }
    let mut out: Vec<Vec<u8>> = Vec::new();
    let mut i: usize = 0;
    while i < count
        invariant
            i <= count,
            chunks@.len() == count,
            out@.len() == i,
            i <= u32::MAX + 1,
            forall|k: u32| k < i ==> #[trigger] chunks@.contains_key(k),
            forall|k: u32| k < i ==> (#[trigger] out@[k as int])@ == chunks@[k]@,
        decreases count - i,
    {
        if i > u32::MAX as usize {
            return None;
        }
        let index = i as u32;
        let ghost before = out@;
        match chunks.get(&index) {
            None => {
                return None;
            },
            Some(chunk) => {
                let mut copy: Vec<u8> = Vec::new();
                extend_bytes(&mut copy, chunk.as_slice());
                assert(copy@ =~= chunks@[index]@);
                out.push(copy);
                assert forall|k: u32| k < i + 1 implies (#[trigger] out@[k as int])@ == chunks@[k]@ by {
                    if k < i {
                        assert(out@[k as int] == before[k as int]);
                    }
                }
            },
        }
        i = i + 1;
    }
    Some(out)
}

// ---------------------------------------------------------------------------
// Mailbox endpoints
// ---------------------------------------------------------------------------

/// What a mailbox base URL holds that the endpoint rule reads.
#[derive(Debug, Clone, PartialEq, Eq)]
pub struct MailboxBase {
    pub scheme: String,
    pub username: String,
    pub has_password: bool,
    pub host: Option<String>,
    pub path: String,
}

/// Why a mailbox URL is refused.
#[derive(Debug, Clone, Copy, PartialEq, Eq)]
pub enum EndpointError {
    /// The URL carries a user name or a password.
    Credentials,
    /// The URL is neither HTTPS nor HTTP on a loopback host.
    Insecure,
}

/// The text without its trailing slashes.
pub open spec fn trim_slashes(s: Seq<char>) -> Seq<char>
    decreases s.len(),
{
    if s.len() > 0 && s.last() == '/' {
        trim_slashes(s.drop_last())
    } else {
        s
    }
}

/// Whether a host is the loopback name or address.
pub open spec fn is_loopback(host: Option<String>) -> bool {
    match host {
        Some(h) => h@ == "localhost"@ || h@ == "127.0.0.1"@ || h@ == "::1"@,
        None => false,
    }
}

/// The endpoint path of a mailbox route, or why the base is refused:
/// credentials are never sent, and only HTTPS, or HTTP to the loopback
/// host, is used.
pub open spec fn endpoint_path(base: MailboxBase, route: Seq<u8>) -> Result<Seq<char>, EndpointError> {
    if base.username@.len() > 0 || base.has_password {
        Err(EndpointError::Credentials)
    } else if !(base.scheme@ == "https"@ || (base.scheme@ == "http"@ && is_loopback(base.host))) {
        Err(EndpointError::Insecure)
    } else {
        Ok(trim_slashes(base.path@) + "/v1/mailboxes/"@ + hex_lower(route) + "/messages"@)
    }
}

/// The path of the mailbox endpoint for `route` under `base`; the query
/// and fragment are dropped by the caller.
pub fn mailbox_endpoint_path(base: &MailboxBase, route: &[u8; 32]) -> (r: Result<String, EndpointError>)
    ensures
        match r {
            Ok(p) => endpoint_path(*base, route@) == Ok::<Seq<char>, EndpointError>(p@),
            Err(e) => endpoint_path(*base, route@) == Err::<Seq<char>, EndpointError>(e),
        },
{
    if base.username.as_str().unicode_len() > 0 || base.has_password {
        return Err(EndpointError::Credentials);
    }
    let secure = crate::text::same_text(base.scheme.as_str(), "https");
    let local_http = crate::text::same_text(base.scheme.as_str(), "http") && match &base.host {
        Some(h) => crate::text::same_text(h.as_str(), "localhost") || crate::text::same_text(h.as_str(), "127.0.0.1")
            || crate::text::same_text(h.as_str(), "::1"),
        None => false,
    };
    if !secure && !local_http {
        return Err(EndpointError::Insecure);
    }
    let path = base.path.as_str();
    let mut end = path.unicode_len();
    assert(path@.take(end as int) =~= path@);
    while end > 0 && path.get_char(end - 1) == '/'
        invariant
            end <= path@.len(),
            trim_slashes(path@) == trim_slashes(path@.take(end as int)),
        decreases end,
    {
        assert(path@.take(end as int).drop_last() =~= path@.take(end - 1));
        end = end - 1;
    }
    proof {
        if end > 0 {
            assert(path@.take(end as int).last() == path@[end - 1]);
        }
    }
    let prefix = path.substring_char(0, end);
    assert(prefix@ =~= path@.take(end as int));
    let mut out = String::from_str(prefix);
    out.append("/v1/mailboxes/");
    let hex = hex_encode(route.as_slice());
    out.append(hex.as_str());
    out.append("/messages");
    Ok(out)
}

} // verus!
