//! Local-snapshot enumeration: parsing what `tmutil listlocalsnapshots`
//! and `diskutil apfs listSnapshots` print, and classifying the result.
//! Snapshots named `com.apple.os.update-*` pin the sealed system volume
//! and are not user-visible.
//!
//! Running the tools is the caller's work; this module decides on their
//! output.

use vstd::prelude::*;

use crate::text::{chars_of, decimal, digit_char, owned, push_char, starts_with_text};

verus! {

/// Name prefix of the sealed-system OS-update snapshots.
pub const SEALED_SYSTEM_PREFIX: &'static str = "com.apple.os.update-";

/// One snapshot, from either tool.
#[derive(Debug, Clone, PartialEq, Eq)]
pub struct SnapshotEntry {
    pub name: String,
    pub user_visible: bool,
    /// Present for `diskutil` entries.
    pub uuid: Option<String>,
    /// Present for `diskutil` entries whose `XID:` parses.
    pub xid: Option<u64>,
}

/// The verdict on a host's snapshot state.
#[derive(Debug, Clone, PartialEq, Eq)]
pub enum SnapshotVerdict {
    Enumerated { user_visible_count: u32, sealed_system_excluded_count: u32 },
    NoUserSnapshots { sealed_system_excluded_count: u32 },
    ToolingUnavailable { reason: String },
}

/// Both tools' entries for one mount point.
#[derive(Debug, Clone, PartialEq, Eq)]
pub struct SnapshotEnumeration {
    pub mount_point: String,
    pub tmutil_entries: Vec<SnapshotEntry>,
    pub diskutil_entries: Vec<SnapshotEntry>,
}

// ---- text -------------------------------------------------------------------- //

/// The characters Rust counts as whitespace (Unicode `White_Space`).
pub open spec fn is_ws(c: char) -> bool {
    ||| '\u{9}' <= c <= '\u{d}'
    ||| c == ' '
    ||| c == '\u{85}'
    ||| c == '\u{a0}'
    ||| c == '\u{1680}'
    ||| '\u{2000}' <= c <= '\u{200a}'
    ||| c == '\u{2028}'
    ||| c == '\u{2029}'
    ||| c == '\u{202f}'
    ||| c == '\u{205f}'
    ||| c == '\u{3000}'
}

fn is_ws_exec(c: char) -> (r: bool)
    ensures
        r == is_ws(c),
{
    ('\u{9}' <= c && c <= '\u{d}') || c == ' ' || c == '\u{85}' || c == '\u{a0}' || c == '\u{1680}' || ('\u{2000}'
        <= c && c <= '\u{200a}') || c == '\u{2028}' || c == '\u{2029}' || c == '\u{202f}' || c == '\u{205f}' || c
        == '\u{3000}'
}

/// Index of the first non-whitespace character of `s[i..]`, or `s.len()`.
pub open spec fn first_non_ws(s: Seq<char>, i: int) -> int
    decreases s.len() - i,
{
    if i < 0 || i >= s.len() {
        s.len() as int
    } else if is_ws(s[i]) {
        first_non_ws(s, i + 1)
    } else {
        i
    }
}

/// One past the last non-whitespace character of `s[lo..j]`, or `lo`.
pub open spec fn last_non_ws(s: Seq<char>, lo: int, j: int) -> int
    decreases j - lo,
{
    if j <= lo {
        lo
    } else if is_ws(s[j - 1]) {
        last_non_ws(s, lo, j - 1)
    } else {
        j
    }
}

/// `s` without leading and trailing whitespace.
pub open spec fn trimmed(s: Seq<char>) -> Seq<char> {
    let a = first_non_ws(s, 0);
    s.subrange(a, last_non_ws(s, a, s.len() as int))
}

/// The `\n`-separated pieces of `s`.
pub open spec fn pieces(s: Seq<char>) -> Seq<Seq<char>>
    decreases s.len(),
{
    pieces_from(s, 0, 0)
}

pub open spec fn pieces_from(s: Seq<char>, start: int, i: int) -> Seq<Seq<char>>
    decreases s.len() + 1 - i,
{
    if i < 0 || start < 0 || start > i || i > s.len() {
        Seq::empty()
    } else if i == s.len() {
        seq![s.subrange(start, i)]
    } else if s[i] == '\n' {
        seq![s.subrange(start, i)] + pieces_from(s, i + 1, i + 1)
    } else {
        pieces_from(s, start, i + 1)
    }
}

/// The trimmed lines of `s`. Splitting at `\n` and trimming gives what
/// `str::lines` then `str::trim` give: a `\r` before `\n` is whitespace,
/// and the empty piece after a final newline trims to nothing.
pub open spec fn trimmed_lines(s: Seq<char>) -> Seq<Seq<char>> {
    pieces(s).map_values(|p: Seq<char>| trimmed(p))
}

/// Trims `chars[a..b]` into a string.
fn trim_range(chars: &Vec<char>, a: usize, b: usize) -> (r: String)
    requires
        a <= b <= chars@.len(),
    ensures
        r@ == trimmed(chars@.subrange(a as int, b as int)),
{
    let ghost p = chars@.subrange(a as int, b as int);
    let mut lo = a;
    while lo < b && is_ws_exec(chars[lo])
        invariant
            a <= lo <= b <= chars@.len(),
            p == chars@.subrange(a as int, b as int),
            first_non_ws(p, 0) == first_non_ws(p, lo - a),
        decreases b - lo,
    {
        lo = lo + 1;
    }
    let mut hi = b;
    while hi > lo && is_ws_exec(chars[hi - 1])
        invariant
            a <= lo <= hi <= b <= chars@.len(),
            p == chars@.subrange(a as int, b as int),
            first_non_ws(p, 0) == lo - a,
            last_non_ws(p, lo - a, p.len() as int) == last_non_ws(p, lo - a, hi - a),
        decreases hi - lo,
    {
        hi = hi - 1;
    }
    let mut out = String::new();
    let mut k = lo;
    while k < hi
        invariant
            lo <= k <= hi <= chars@.len(),
            out@ == chars@.subrange(lo as int, k as int),
        decreases hi - k,
    {
        push_char(&mut out, chars[k]);
        k = k + 1;
        assert(out@ =~= chars@.subrange(lo as int, k as int));
    }
    assert(chars@.subrange(lo as int, hi as int) =~= p.subrange(lo - a, hi - a));
    out
}

/// The trimmed lines of `text`.
pub fn lines_trimmed(text: &str) -> (r: Vec<String>)
    ensures
        r@.map_values(|s: String| s@) == trimmed_lines(text@),
{
    let chars = chars_of(text);
    let n = chars.len();
    let mut out: Vec<String> = Vec::new();
    let mut start: usize = 0;
    let mut i: usize = 0;
    while i < n
        invariant
            n == chars@.len(),
            chars@ == text@,
            start <= i <= n,
            out@.map_values(|s: String| s@) + pieces_from(chars@, start as int, i as int).map_values(
                |p: Seq<char>| trimmed(p),
            ) == trimmed_lines(text@),
        decreases n - i,
    {
        if chars[i] == '\n' {
            let line = trim_range(&chars, start, i);
            let ghost before = out@;
            out.push(line);
            proof {
                let rest = pieces_from(chars@, i + 1, i + 1);
                assert(pieces_from(chars@, start as int, i as int) == seq![chars@.subrange(start as int, i as int)]
                    + rest);
                assert((seq![chars@.subrange(start as int, i as int)] + rest).map_values(|p: Seq<char>| trimmed(p))
                    =~= seq![line@] + rest.map_values(|p: Seq<char>| trimmed(p)));
                assert(out@.map_values(|s: String| s@) =~= before.map_values(|s: String| s@).push(line@));
                assert(out@.map_values(|s: String| s@) + rest.map_values(|p: Seq<char>| trimmed(p)) =~= before.map_values(
                    |s: String| s@,
                ) + (seq![line@] + rest.map_values(|p: Seq<char>| trimmed(p))));
            }
            start = i + 1;
        }
        i = i + 1;
    }
    let line = trim_range(&chars, start, n);
    let ghost before = out@;
    out.push(line);
    proof {
        assert(pieces_from(chars@, start as int, n as int) == seq![chars@.subrange(start as int, n as int)]);
        assert(seq![chars@.subrange(start as int, n as int)].map_values(|p: Seq<char>| trimmed(p)) =~= seq![line@]);
        assert(out@.map_values(|s: String| s@) =~= before.map_values(|s: String| s@) + seq![line@]);
    }
    out
}

// ---- visibility ---------------------------------------------------------------- //

/// A snapshot is user-visible unless it is a sealed-system OS-update one.
pub open spec fn user_visible(name: Seq<char>) -> bool {
    !SEALED_SYSTEM_PREFIX@.is_prefix_of(name)
}

impl SnapshotEntry {
    /// Whether a snapshot named `name` is user-visible.
    pub fn classify_user_visibility(name: &str) -> (r: bool)
        ensures
            r == user_visible(name@),
    {
        !starts_with_text(name, SEALED_SYSTEM_PREFIX)
    }
}

// ---- tmutil ------------------------------------------------------------------- //

/// A `tmutil` line names a snapshot unless it is empty, the
/// `Snapshots for disk` header, or a `NOTE:`.
pub open spec fn tmutil_snapshot_line(t: Seq<char>) -> bool {
    t.len() > 0 && !"Snapshots for disk"@.is_prefix_of(t) && !"NOTE:"@.is_prefix_of(t)
}

pub open spec fn entry_view(e: SnapshotEntry) -> (Seq<char>, bool, Option<Seq<char>>, Option<u64>) {
    (
        e.name@,
        e.user_visible,
        match e.uuid {
            Some(u) => Some(u@),
            None => None,
        },
        e.xid,
    )
}

/// The snapshots `tmutil` lists in `lines[0..n]`.
pub open spec fn tmutil_entries(lines: Seq<Seq<char>>, n: int) -> Seq<(Seq<char>, bool, Option<Seq<char>>, Option<u64>)>
    decreases n,
{
    if n <= 0 {
        Seq::empty()
    } else if tmutil_snapshot_line(lines[n - 1]) {
        tmutil_entries(lines, n - 1).push((lines[n - 1], user_visible(lines[n - 1]), None, None))
    } else {
        tmutil_entries(lines, n - 1)
    }
}

/// Parses `tmutil listlocalsnapshots` output: one snapshot per line that
/// names one, in order.
pub fn parse_tmutil_output(stdout: &str) -> (r: Vec<SnapshotEntry>)
    ensures
        ({
            let ls = trimmed_lines(stdout@);
            r@.map_values(|e: SnapshotEntry| entry_view(e)) == tmutil_entries(ls, ls.len() as int)
        }),
{
    let lines = lines_trimmed(stdout);
    let ghost ls = lines@.map_values(|s: String| s@);
    let mut out: Vec<SnapshotEntry> = Vec::new();
    let mut k: usize = 0;
    while k < lines.len()
        invariant
            ls == lines@.map_values(|s: String| s@),
            k <= lines@.len(),
            out@.map_values(|e: SnapshotEntry| entry_view(e)) == tmutil_entries(ls, k as int),
        decreases lines@.len() - k,
    {
        let t = lines[k].as_str();
        assert(t@ == ls[k as int]);
        let keep = t.unicode_len() > 0 && !starts_with_text(t, "Snapshots for disk") && !starts_with_text(t, "NOTE:");
        if keep {
            let ghost before = out@;
            let entry = SnapshotEntry {
                user_visible: SnapshotEntry::classify_user_visibility(t),
                name: owned(t),
                uuid: None,
                xid: None,
            };
            out.push(entry);
            assert(out@.map_values(|e: SnapshotEntry| entry_view(e)) =~= before.map_values(
                |e: SnapshotEntry| entry_view(e),
            ).push(entry_view(entry)));
        }
        k = k + 1;
    }
    out
}

// ---- diskutil ------------------------------------------------------------------ //

/// The value of a decimal `u64` as `str::parse` reads it: an optional
/// `+`, then one or more ASCII digits, within range.
pub open spec fn parse_u64_text(t: Seq<char>) -> Option<u64> {
    let d = unsigned_digits(t);
    if d.len() == 0 || !(forall|i: int| 0 <= i < d.len() ==> is_digit(#[trigger] d[i])) {
        None
    } else if digits_value(d, d.len() as int) > u64::MAX {
        None
    } else {
        Some(digits_value(d, d.len() as int) as u64)
    }
}

/// `t` without one leading `+`.
pub open spec fn unsigned_digits(t: Seq<char>) -> Seq<char> {
    if t.len() > 0 && t[0] == '+' {
        t.drop_first()
    } else {
        t
    }
}

pub open spec fn is_digit(c: char) -> bool {
    '0' <= c && c <= '9'
}

/// The value of the decimal digits `d[0..n]`.
pub open spec fn digits_value(d: Seq<char>, n: int) -> int
    decreases n,
{
    if n <= 0 {
        0
    } else {
        digits_value(d, n - 1) * 10 + (d[n - 1] as int - '0' as int)
    }
}

proof fn lemma_digits_value_mono(d: Seq<char>, n: int, m: int)
    requires
        0 <= n <= m <= d.len(),
        forall|i: int| 0 <= i < d.len() ==> is_digit(#[trigger] d[i]),
    ensures
        digits_value(d, n) <= digits_value(d, m),
        digits_value(d, n) >= 0,
    decreases m - n,
{
    if n < m {
        lemma_digits_value_mono(d, n, m - 1);
        assert(digits_value(d, m) == digits_value(d, m - 1) * 10 + (d[m - 1] as int - '0' as int));
    } else {
        lemma_digits_nonneg(d, n);
    }
}

proof fn lemma_digits_nonneg(d: Seq<char>, n: int)
    requires
        0 <= n <= d.len(),
        forall|i: int| 0 <= i < d.len() ==> is_digit(#[trigger] d[i]),
    ensures
        digits_value(d, n) >= 0,
    decreases n,
{
    if n > 0 {
        lemma_digits_nonneg(d, n - 1);
    }
}

proof fn lemma_digits_value_push(d: Seq<char>, c: char, n: int)
    requires
        0 <= n <= d.len(),
    ensures
        digits_value(d.push(c), n) == digits_value(d, n),
    decreases n,
{
    if n > 0 {
        lemma_digits_value_push(d, c, n - 1);
        assert(d.push(c)[n - 1] == d[n - 1]);
    }
}

/// The decimal digits of `v` are digits and spell `v`.
proof fn lemma_decimal_digits_value(v: nat)
    ensures
        decimal(v).len() > 0,
        forall|i: int| 0 <= i < decimal(v).len() ==> is_digit(#[trigger] decimal(v)[i]),
        digits_value(decimal(v), decimal(v).len() as int) == v,
    decreases v,
{
    if v >= 10 {
        lemma_decimal_digits_value(v / 10);
        let p = decimal(v / 10);
        let c = digit_char((v % 10) as int);
        assert(decimal(v) == p.push(c));
        assert(c as int == '0' as int + v % 10);
        lemma_digits_value_push(p, c, p.len() as int);
        assert(forall|i: int| 0 <= i < p.len() ==> p.push(c)[i] == p[i]);
        let n = p.len() as int;
        assert(digits_value(p.push(c), n + 1) == digits_value(p.push(c), n) * 10 + (c as int - '0' as int));
        assert(digits_value(p, n) == v / 10);
        assert((v / 10) * 10 + v % 10 == v);
    } else {
        let c = digit_char(v as int);
        assert(decimal(v) == seq![c]);
        assert(c as int == '0' as int + v);
        assert(digits_value(seq![c], 1) == digits_value(seq![c], 0) * 10 + (c as int - '0' as int));
    }
}

/// Parsing reads back what printing writes: the decimal rendering of any
/// `u64` parses to that number.
pub proof fn lemma_parse_of_decimal(v: u64)
    ensures
        parse_u64_text(decimal(v as nat)) == Some(v),
{
    lemma_decimal_digits_value(v as nat);
    let d = decimal(v as nat);
    assert(is_digit(d[0]));
    assert(unsigned_digits(d) == d);
}

/// Parses a decimal `u64` (see [`parse_u64_text`]).
pub fn parse_u64(text: &str) -> (r: Option<u64>)
    ensures
        r == parse_u64_text(text@),
{
    let chars = chars_of(text);
    let n = chars.len();
    let start: usize = if n > 0 && chars[0] == '+' { 1 } else { 0 };
    let mut digits: Vec<char> = Vec::new();
    let mut k = start;
    while k < n
        invariant
            start <= k <= n,
            n == chars@.len(),
            digits@ == chars@.subrange(start as int, k as int),
        decreases n - k,
    {
        digits.push(chars[k]);
        k = k + 1;
        assert(digits@ =~= chars@.subrange(start as int, k as int));
    }
    let ghost d = digits@;
    assert(d =~= unsigned_digits(text@));
    let m = digits.len();
    if m == 0 {
        return None;
    }
    let mut value: u64 = 0;
    let mut i: usize = 0;
    while i < m
        invariant
            i <= m,
            m == d.len(),
            m > 0,
            d == digits@,
            d == unsigned_digits(text@),
            forall|j: int| 0 <= j < i ==> is_digit(#[trigger] d[j]),
            value == digits_value(d, i as int),
        decreases m - i,
    {
        let c = digits[i];
        if !('0' <= c && c <= '9') {
            assert(!is_digit(d[i as int]));
            return None;
        }
        let digit = (c as u32 - '0' as u32) as u64;
        if value > (u64::MAX - digit) / 10 {
            proof {
                if forall|j: int| 0 <= j < d.len() ==> is_digit(#[trigger] d[j]) {
                    assert(digits_value(d, i + 1) == value * 10 + digit);
                    assert(value * 10 + digit > u64::MAX) by (nonlinear_arith)
                        requires
                            value > (u64::MAX - digit) / 10,
                            digit <= 9,
                    ;
                    lemma_digits_value_mono(d, i + 1, d.len() as int);
                }
            }
            return None;
        }
        assert(value * 10 + digit <= u64::MAX) by (nonlinear_arith)
            requires
                value <= (u64::MAX - digit) / 10,
                digit <= 9,
        ;
        value = value * 10 + digit;
        i = i + 1;
    }
    Some(value)
}

/// Where the `diskutil` parse stands: the block being read, if any, and
/// the entries finished so far.
pub struct DiskutilState {
    pub uuid: Option<Seq<char>>,
    pub name: Option<Seq<char>>,
    pub xid: Option<u64>,
    pub done: Seq<(Seq<char>, bool, Option<Seq<char>>, Option<u64>)>,
}

/// The entries with the current block closed: a block yields an entry
/// only when it has a name.
pub open spec fn flushed(st: DiskutilState) -> Seq<(Seq<char>, bool, Option<Seq<char>>, Option<u64>)> {
    match st.name {
        Some(n) => st.done.push((n, user_visible(n), st.uuid, st.xid)),
        None => st.done,
    }
}

/// The parse after one trimmed line: `+--` starts a new block carrying the
/// rest as its UUID, `Name:` and `XID:` set the current block's fields.
pub open spec fn diskutil_step(st: DiskutilState, t: Seq<char>) -> DiskutilState {
    if "+--"@.is_prefix_of(t) {
        DiskutilState { uuid: Some(trimmed(t.subrange(3, t.len() as int))), name: None, xid: None, done: flushed(st) }
    } else if "Name:"@.is_prefix_of(t) {
        DiskutilState { name: Some(trimmed(t.subrange(5, t.len() as int))), ..st }
    } else if "XID:"@.is_prefix_of(t) {
        DiskutilState { xid: parse_u64_text(trimmed(t.subrange(4, t.len() as int))), ..st }
    } else {
        st
    }
}

pub open spec fn diskutil_state(lines: Seq<Seq<char>>, n: int) -> DiskutilState
    decreases n,
{
    if n <= 0 {
        DiskutilState { uuid: None, name: None, xid: None, done: Seq::empty() }
    } else {
        diskutil_step(diskutil_state(lines, n - 1), lines[n - 1])
    }
}

/// The snapshots `diskutil` lists, in order.
pub open spec fn diskutil_entries(lines: Seq<Seq<char>>) -> Seq<(Seq<char>, bool, Option<Seq<char>>, Option<u64>)> {
    flushed(diskutil_state(lines, lines.len() as int))
}

pub open spec fn opt_text_view(o: Option<String>) -> Option<Seq<char>> {
    match o {
        Some(s) => Some(s@),
        None => None,
    }
}

/// The characters `t[a..]` trimmed, as a string.
fn trimmed_tail(t: &str, a: usize) -> (r: String)
    requires
        a <= t@.len(),
    ensures
        r@ == trimmed(t@.subrange(a as int, t@.len() as int)),
{
    let chars = chars_of(t);
    trim_range(&chars, a, chars.len())
}

fn flush_block(out: &mut Vec<SnapshotEntry>, uuid: Option<String>, name: Option<String>, xid: Option<u64>)
    ensures
        final(out)@.map_values(|e: SnapshotEntry| entry_view(e)) == flushed(
            DiskutilState {
                uuid: opt_text_view(uuid),
                name: opt_text_view(name),
                xid,
                done: old(out)@.map_values(|e: SnapshotEntry| entry_view(e)),
            },
        ),
{
    if let Some(n) = name {
        let ghost before = out@;
        let entry = SnapshotEntry { user_visible: SnapshotEntry::classify_user_visibility(n.as_str()), name: n, uuid, xid };
        out.push(entry);
        assert(out@.map_values(|e: SnapshotEntry| entry_view(e)) =~= before.map_values(|e: SnapshotEntry| entry_view(e)).push(
            entry_view(entry),
        ));
    }
}

/// Parses `diskutil apfs listSnapshots` output: each `+--` line opens a
/// snapshot block; blocks with a `Name:` become entries, in order.
pub fn parse_diskutil_output(stdout: &str) -> (r: Vec<SnapshotEntry>)
    ensures
        r@.map_values(|e: SnapshotEntry| entry_view(e)) == diskutil_entries(trimmed_lines(stdout@)),
{
    proof {
        reveal_strlit("+--");
        reveal_strlit("Name:");
        reveal_strlit("XID:");
    }
    let lines = lines_trimmed(stdout);
    let ghost ls = lines@.map_values(|s: String| s@);
    let mut out: Vec<SnapshotEntry> = Vec::new();
    let mut uuid: Option<String> = None;
    let mut name: Option<String> = None;
    let mut xid: Option<u64> = None;
    let mut k: usize = 0;
    assert(out@.map_values(|e: SnapshotEntry| entry_view(e)) =~= Seq::<(Seq<char>, bool, Option<Seq<char>>, Option<u64>)>::empty());
    while k < lines.len()
        invariant
            ls == lines@.map_values(|s: String| s@),
            ls == trimmed_lines(stdout@),
            k <= lines@.len(),
            diskutil_state(ls, k as int) == (DiskutilState {
                uuid: opt_text_view(uuid),
                name: opt_text_view(name),
                xid,
                done: out@.map_values(|e: SnapshotEntry| entry_view(e)),
            }),
        decreases lines@.len() - k,
    {
        proof {
            reveal_strlit("+--");
            reveal_strlit("Name:");
            reveal_strlit("XID:");
        }
        let t = lines[k].as_str();
        assert(t@ == ls[k as int]);
        if starts_with_text(t, "+--") {
            let (u, nm, x) = (uuid, name, xid);
            flush_block(&mut out, u, nm, x);
            uuid = Some(trimmed_tail(t, 3));
            name = None;
            xid = None;
        } else if starts_with_text(t, "Name:") {
            name = Some(trimmed_tail(t, 5));
        } else if starts_with_text(t, "XID:") {
            let v = trimmed_tail(t, 4);
            xid = parse_u64(v.as_str());
        }
        k = k + 1;
    }
    flush_block(&mut out, uuid, name, xid);
    out
}

// ---- enumeration and verdict ------------------------------------------------------- //

/// The enumeration of `mount_point` from the tools' outputs; a tool that
/// failed (`None`) contributes no entries.
pub fn enumerate_mount(mount_point: &str, tmutil_stdout: Option<&str>, diskutil_stdout: Option<&str>) -> (r: SnapshotEnumeration)
    ensures
        r.mount_point@ == mount_point@,
        match tmutil_stdout {
            Some(s) => {
                let ls = trimmed_lines(s@);
                r.tmutil_entries@.map_values(|e: SnapshotEntry| entry_view(e)) == tmutil_entries(ls, ls.len() as int)
            },
            None => r.tmutil_entries@.len() == 0,
        },
        match diskutil_stdout {
            Some(s) => r.diskutil_entries@.map_values(|e: SnapshotEntry| entry_view(e)) == diskutil_entries(trimmed_lines(s@)),
            None => r.diskutil_entries@.len() == 0,
        },
{
    let tmutil_entries = match tmutil_stdout {
        Some(s) => parse_tmutil_output(s),
        None => Vec::new(),
    };
    let diskutil_entries = match diskutil_stdout {
        Some(s) => parse_diskutil_output(s),
        None => Vec::new(),
    };
    SnapshotEnumeration { mount_point: owned(mount_point), tmutil_entries, diskutil_entries }
}

/// How many of `es[0..n]` are (`visible`) or are not user-visible.
pub open spec fn count_visible(es: Seq<SnapshotEntry>, n: int, visible: bool) -> int
    decreases n,
{
    if n <= 0 {
        0
    } else {
        count_visible(es, n - 1, visible) + if es[n - 1].user_visible == visible { 1int } else { 0int }
    }
}

/// All entries of the enumerations `en[0..n]`, tmutil's before diskutil's
/// for each.
pub open spec fn all_entries(en: Seq<SnapshotEnumeration>, n: int) -> Seq<SnapshotEntry>
    decreases n,
{
    if n <= 0 {
        Seq::empty()
    } else {
        all_entries(en, n - 1) + en[n - 1].tmutil_entries@ + en[n - 1].diskutil_entries@
    }
}

proof fn lemma_count_visible_append(a: Seq<SnapshotEntry>, b: Seq<SnapshotEntry>, visible: bool)
    ensures
        count_visible(a + b, (a + b).len() as int, visible) == count_visible(a, a.len() as int, visible) + count_visible(
            b,
            b.len() as int,
            visible,
        ),
    decreases b.len(),
{
    if b.len() > 0 {
        lemma_count_visible_append(a, b.drop_last(), visible);
        assert((a + b).drop_last() =~= a + b.drop_last());
        lemma_count_prefix(a + b, (a + b).len() as int, visible);
        lemma_count_prefix(b, b.len() as int, visible);
    }
}

proof fn lemma_count_prefix(s: Seq<SnapshotEntry>, n: int, visible: bool)
    requires
        0 < n <= s.len(),
    ensures
        count_visible(s, n, visible) == count_visible(s.subrange(0, n - 1), n - 1, visible) + if s[n - 1].user_visible
            == visible {
            1int
        } else {
            0int
        },
{
    lemma_count_same(s, s.subrange(0, n - 1), n - 1, visible);
}

proof fn lemma_count_same(s: Seq<SnapshotEntry>, t: Seq<SnapshotEntry>, n: int, visible: bool)
    requires
        0 <= n <= s.len(),
        n <= t.len(),
        forall|i: int| 0 <= i < n ==> s[i] == t[i],
    ensures
        count_visible(s, n, visible) == count_visible(t, n, visible),
    decreases n,
{
    if n > 0 {
        lemma_count_same(s, t, n - 1, visible);
    }
}

/// `Enumerated` when some entry is user-visible, else `NoUserSnapshots`,
/// with the counts of user-visible and sealed-system entries.
pub open spec fn verdict_of(en: Seq<SnapshotEnumeration>) -> SnapshotVerdict {
    let all = all_entries(en, en.len() as int);
    let visible = count_visible(all, all.len() as int, true);
    let sealed = count_visible(all, all.len() as int, false);
    if visible > 0 {
        SnapshotVerdict::Enumerated { user_visible_count: visible as u32, sealed_system_excluded_count: sealed as u32 }
    } else {
        SnapshotVerdict::NoUserSnapshots { sealed_system_excluded_count: sealed as u32 }
    }
}

/// Classifies the host's snapshot state from its enumerations.
///
/// Requires that the entries can be counted in `u32`.
pub fn classify(enumerations: &[SnapshotEnumeration]) -> (r: SnapshotVerdict)
    requires
        all_entries(enumerations@, enumerations@.len() as int).len() <= u32::MAX,
    ensures
        r == verdict_of(enumerations@),
{
    let ghost en = enumerations@;
    let mut user_visible: u32 = 0;
    let mut sealed_excluded: u32 = 0;
    let mut k: usize = 0;
    while k < enumerations.len()
        invariant
            en == enumerations@,
            all_entries(en, en.len() as int).len() <= u32::MAX,
            k <= en.len(),
            user_visible == count_visible(all_entries(en, k as int), all_entries(en, k as int).len() as int, true),
            sealed_excluded == count_visible(all_entries(en, k as int), all_entries(en, k as int).len() as int, false),
        decreases en.len() - k,
    {
        let e = &enumerations[k];
        let ghost prefix = all_entries(en, k as int);
        proof {
            lemma_all_entries_len_mono(en, k + 1, en.len() as int);
        }
        let lists: [&Vec<SnapshotEntry>; 2] = [&e.tmutil_entries, &e.diskutil_entries];
        let mut li: usize = 0;
        let ghost mut seen = prefix;
        while li < 2
            invariant
                en == enumerations@,
                k < en.len(),
                *e == en[k as int],
                lists@ == seq![&e.tmutil_entries, &e.diskutil_entries],
                li <= 2,
                seen == prefix + if li >= 1 { e.tmutil_entries@ } else { Seq::empty() } + if li >= 2 {
                    e.diskutil_entries@
                } else {
                    Seq::empty()
                },
                prefix == all_entries(en, k as int),
                all_entries(en, en.len() as int).len() <= u32::MAX,
                prefix.len() + e.tmutil_entries@.len() + e.diskutil_entries@.len() <= u32::MAX,
                user_visible == count_visible(seen, seen.len() as int, true),
                sealed_excluded == count_visible(seen, seen.len() as int, false),
            decreases 2 - li,
        {
            let list = lists[li];
            let mut j: usize = 0;
            let ghost start = seen;
            while j < list.len()
                invariant
                    j <= list@.len(),
                    seen == start + list@.subrange(0, j as int),
                    start.len() + list@.len() <= u32::MAX,
                    user_visible == count_visible(seen, seen.len() as int, true),
                    sealed_excluded == count_visible(seen, seen.len() as int, false),
                decreases list@.len() - j,
            {
                proof {
                    assert(start + list@.subrange(0, j + 1) =~= seen.push(list@[j as int]));
                    lemma_count_same(seen.push(list@[j as int]), seen, seen.len() as int, true);
                    lemma_count_same(seen.push(list@[j as int]), seen, seen.len() as int, false);
                    lemma_count_bound(seen, true);
                    lemma_count_bound(seen, false);
                }
                if list[j].user_visible {
                    user_visible = user_visible + 1;
                } else {
                    sealed_excluded = sealed_excluded + 1;
                }
                proof {
                    seen = seen.push(list@[j as int]);
                }
                j = j + 1;
            }
            assert(list@.subrange(0, list@.len() as int) =~= list@);
            li = li + 1;
        }
        assert(all_entries(en, k + 1) =~= seen);
        k = k + 1;
    }
    if user_visible > 0 {
        SnapshotVerdict::Enumerated { user_visible_count: user_visible, sealed_system_excluded_count: sealed_excluded }
    } else {
        SnapshotVerdict::NoUserSnapshots { sealed_system_excluded_count: sealed_excluded }
    }
}

proof fn lemma_all_entries_len_mono(en: Seq<SnapshotEnumeration>, k: int, n: int)
    requires
        0 <= k <= n,
    ensures
        all_entries(en, k).len() <= all_entries(en, n).len(),
    decreases n - k,
{
    if k < n {
        lemma_all_entries_len_mono(en, k, n - 1);
    }
}

proof fn lemma_count_bound(s: Seq<SnapshotEntry>, visible: bool)
    ensures
        0 <= count_visible(s, s.len() as int, visible) <= s.len(),
    decreases s.len(),
{
    if s.len() > 0 {
        lemma_count_bound(s.drop_last(), visible);
        lemma_count_same(s, s.drop_last(), s.len() - 1, visible);
    }
}

} // verus!
