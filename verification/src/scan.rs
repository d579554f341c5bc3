//! Byte-level helpers for the shell-integration marker scanner: marker
//! definitions, substring matching, ASCII trimming, and the exit-code
//! and git-payload parsers.

use crate::events::{EventV, GitStatus, ParserEvent};
use crate::text::{lossy_of, lossy_string};
use vstd::prelude::*;

verus! {

/// The escape byte that starts every marker.
pub open spec fn esc() -> u8 {
    0x1b
}

/// The bell byte, one of the two accepted sequence terminators.
pub open spec fn bel() -> u8 {
    0x07
}

/// Control sequence that enters the alternate screen buffer.
pub open spec fn alt_enter_m() -> Seq<u8> {
    seq![0x1b, 0x5b, 0x3f, 0x31, 0x30, 0x34, 0x39, 0x68]
}

/// Control sequence that leaves the alternate screen buffer.
pub open spec fn alt_exit_m() -> Seq<u8> {
    seq![0x1b, 0x5b, 0x3f, 0x31, 0x30, 0x34, 0x39, 0x6c]
}

/// Marker announcing that a prompt was displayed.
pub open spec fn prompt_m() -> Seq<u8> {
    seq![0x1b, 0x5d, 0x31, 0x33, 0x33, 0x3b, 0x41]
}

/// Marker announcing that command execution started.
pub open spec fn cmd_start_m() -> Seq<u8> {
    seq![0x1b, 0x5d, 0x31, 0x33, 0x33, 0x3b, 0x43]
}

/// Head of the marker that announces command completion; an exit code
/// payload and a terminator follow.
pub open spec fn cmd_end_m() -> Seq<u8> {
    seq![0x1b, 0x5d, 0x31, 0x33, 0x33, 0x3b, 0x44]
}

/// Head of the git-state marker; a `key=value` payload follows.
pub open spec fn git_m() -> Seq<u8> {
    seq![0x1b, 0x5d, 0x31, 0x33, 0x33, 0x3b, 0x47, 0x3b]
}

/// Head of the working-directory marker; the path payload follows.
pub open spec fn dir_m() -> Seq<u8> {
    seq![0x1b, 0x5d, 0x31, 0x33, 0x33, 0x37, 0x3b, 0x43, 0x75, 0x72, 0x72, 0x65, 0x6e, 0x74,
        0x44, 0x69, 0x72, 0x3d]
}

/// Whether the pattern occurs in full at position `i` of the buffer.
pub open spec fn bytes_at(h: Seq<u8>, n: Seq<u8>, i: int) -> bool {
    0 <= i && i + n.len() <= h.len() && forall|j: int|
        0 <= j < n.len() ==> h[i + j] == #[trigger] n[j]
}

/// Whether the buffer ends with a proper, still-unfinished prefix of the
/// pattern starting at `i`.
pub open spec fn partial_at(h: Seq<u8>, n: Seq<u8>, i: int) -> bool {
    0 <= i < h.len() && h.len() - i < n.len() && forall|j: int|
        0 <= j < h.len() - i ==> h[i + j] == #[trigger] n[j]
}

/// Whether any marker head could still be completed by more bytes at `i`.
pub open spec fn any_partial_at(h: Seq<u8>, i: int) -> bool {
    partial_at(h, alt_enter_m(), i) || partial_at(h, alt_exit_m(), i) || partial_at(
        h,
        prompt_m(),
        i,
    ) || partial_at(h, cmd_start_m(), i) || partial_at(h, cmd_end_m(), i) || partial_at(
        h,
        git_m(),
        i,
    ) || partial_at(h, dir_m(), i)
}

/// Index of the first occurrence of `b` at or after `from`, or the length.
pub open spec fn find_byte(h: Seq<u8>, b: u8, from: int) -> int
    decreases h.len() - from,
{
    if from < 0 || from >= h.len() { h.len() as int }
    else if h[from] == b { from }
    else { find_byte(h, b, from + 1) }
}

proof fn lemma_find_byte(h: Seq<u8>, b: u8, from: int)
    requires
        0 <= from <= h.len(),
    ensures
        from <= find_byte(h, b, from) <= h.len(),
        find_byte(h, b, from) < h.len() ==> h[find_byte(h, b, from)] == b,
        forall|k: int| from <= k < find_byte(h, b, from) ==> h[k] != b,
    decreases h.len() - from,
{
    if from < h.len() && h[from] != b {
        lemma_find_byte(h, b, from + 1);
    }
}

/// Index of the first terminator candidate (bell or escape) at or after
/// `from`, or the length.
pub open spec fn find_term(h: Seq<u8>, from: int) -> int
    decreases h.len() - from,
{
    if from < 0 || from >= h.len() { h.len() as int }
    else if h[from] == bel() || h[from] == esc() { from }
    else { find_term(h, from + 1) }
}

proof fn lemma_find_term(h: Seq<u8>, from: int)
    requires
        0 <= from <= h.len(),
    ensures
        from <= find_term(h, from) <= h.len(),
        find_term(h, from) < h.len() ==> (h[find_term(h, from)] == bel() || h[find_term(h, from)]
            == esc()),
        forall|k: int| from <= k < find_term(h, from) ==> (h[k] != bel() && h[k] != esc()),
    decreases h.len() - from,
{
    if from < h.len() && h[from] != bel() && h[from] != esc() {
        lemma_find_term(h, from + 1);
    }
}

/// Whether the byte is an ASCII decimal digit.
pub open spec fn is_digit(b: u8) -> bool {
    0x30 <= b <= 0x39
}

/// Whether every byte of the sequence is an ASCII decimal digit.
pub open spec fn all_digits(s: Seq<u8>) -> bool {
    forall|i: int| 0 <= i < s.len() ==> is_digit(#[trigger] s[i])
}

/// The value of a sequence of ASCII digits, most significant first.
pub open spec fn digits_val(s: Seq<u8>) -> int
    decreases s.len(),
{
    if s.len() == 0 { 0 } else { digits_val(s.drop_last()) * 10 + (s.last() - 0x30) }
}

/// Whether the byte is ASCII whitespace.
pub open spec fn is_ws_byte(b: u8) -> bool {
    b == 0x20 || b == 0x09 || b == 0x0a || b == 0x0d || b == 0x0b || b == 0x0c
}

/// The byte sequence with leading ASCII whitespace removed.
pub open spec fn trim_front_b(s: Seq<u8>) -> Seq<u8>
    decreases s.len(),
{
    if s.len() > 0 && is_ws_byte(s[0]) { trim_front_b(s.drop_first()) } else { s }
}

/// The byte sequence with trailing ASCII whitespace removed.
pub open spec fn trim_back_b(s: Seq<u8>) -> Seq<u8>
    decreases s.len(),
{
    if s.len() > 0 && is_ws_byte(s[s.len() - 1]) { trim_back_b(s.drop_last()) } else { s }
}

/// The byte sequence with ASCII whitespace removed from both ends.
pub open spec fn trim_b(s: Seq<u8>) -> Seq<u8> {
    trim_back_b(trim_front_b(s))
}

/// The signed decimal integer denoted by the (already trimmed) bytes,
/// following the grammar of Rust's integer parsing: an optional sign,
/// then one or more digits, with the value bounded to 32 bits.
pub open spec fn parse_i32_digits(s: Seq<u8>) -> Option<int> {
    if s.len() == 0 {
        None
    } else {
        let neg = s[0] == 0x2d;
        let ds = if s[0] == 0x2d || s[0] == 0x2b { s.drop_first() } else { s };
        if ds.len() == 0 || !all_digits(ds) {
            None
        } else {
            let v = if neg { -digits_val(ds) } else { digits_val(ds) };
            if -2147483648 <= v <= 2147483647 { Some(v) } else { None }
        }
    }
}

/// The exit code denoted by the payload bytes: ASCII whitespace is
/// trimmed, then the bytes must form a bounded signed decimal integer.
pub open spec fn parse_exit_code(raw: Seq<u8>) -> Option<int> {
    parse_i32_digits(trim_b(raw))
}

proof fn lemma_digits_val_nonneg(s: Seq<u8>)
    requires
        all_digits(s),
    ensures
        digits_val(s) >= 0,
    decreases s.len(),
{
    if s.len() > 0 {
        assert(all_digits(s.drop_last()));
        lemma_digits_val_nonneg(s.drop_last());
    }
}

proof fn lemma_digits_val_take_step(s: Seq<u8>, i: int)
    requires
        0 <= i < s.len(),
    ensures
        digits_val(s.take(i + 1)) == digits_val(s.take(i)) * 10 + (s[i] - 0x30),
{
    assert(s.take(i + 1).drop_last() =~= s.take(i));
    assert(s.take(i + 1).last() == s[i]);
}

proof fn lemma_digits_val_grows(s: Seq<u8>, i: int)
    requires
        all_digits(s),
        0 <= i <= s.len(),
    ensures
        digits_val(s) >= digits_val(s.take(i)),
    decreases s.len() - i,
{
    assert(forall|k: int| 0 <= k < i ==> s.take(i)[k] == s[k]);
    assert(all_digits(s.take(i)));
    if i == s.len() {
        assert(s.take(i) =~= s);
    } else {
        lemma_digits_val_take_step(s, i);
        lemma_digits_val_nonneg(s.take(i));
        assert(digits_val(s.take(i + 1)) >= digits_val(s.take(i)));
        lemma_digits_val_grows(s, i + 1);
    }
}

/// The `branch` key of the git payload.
pub open spec fn branch_key() -> Seq<u8> {
    seq![0x62, 0x72, 0x61, 0x6e, 0x63, 0x68]
}

/// The `status` key of the git payload.
pub open spec fn status_key() -> Seq<u8> {
    seq![0x73, 0x74, 0x61, 0x74, 0x75, 0x73]
}

/// The git status named by a payload value, if any.
pub open spec fn status_of_value(v: Seq<u8>) -> Option<GitStatus> {
    if v =~= seq![0x63u8, 0x6c, 0x65, 0x61, 0x6e] { Some(GitStatus::Clean) }
    else if v =~= seq![0x64u8, 0x69, 0x72, 0x74, 0x79] { Some(GitStatus::Dirty) }
    else if v =~= seq![0x63u8, 0x6f, 0x6e, 0x66, 0x6c, 0x69, 0x63, 0x74, 0x73] {
        Some(GitStatus::Conflicts)
    } else { None }
}

/// The outcome of parsing a git payload: the branch bytes and the
/// reported status.
pub ghost struct GitPayloadV {
    pub branch: Seq<u8>,
    pub status: Option<GitStatus>,
}

/// Folds the `;`-separated `key=value` parts of a git payload over the
/// branch and status accumulators; a part without `=` voids the whole
/// payload.
pub open spec fn git_fold(
    s: Seq<u8>,
    branch: Option<Seq<u8>>,
    status: Option<GitStatus>,
) -> Option<(Option<Seq<u8>>, Option<GitStatus>)>
    decreases s.len(),
    via git_fold_dec
{
    let e = find_byte(s, 0x3b, 0);
    let part = s.take(e);
    let eq = find_byte(part, 0x3d, 0);
    if eq == part.len() {
        None
    } else {
        let key = part.take(eq);
        let value = part.skip(eq + 1);
        let branch2 = if key == branch_key() && value.len() > 0 { Some(value) } else { branch };
        let status2 = if key == status_key() { status_of_value(value) } else { status };
        if e == s.len() {
            Some((branch2, status2))
        } else {
            git_fold(s.skip(e + 1), branch2, status2)
        }
    }
}

#[via_fn]
proof fn git_fold_dec(s: Seq<u8>, branch: Option<Seq<u8>>, status: Option<GitStatus>) {
    lemma_find_byte(s, 0x3b, 0);
}

/// The parsed git payload: present only when a non-empty branch was
/// named and every part was well-formed.
pub open spec fn git_parse(s: Seq<u8>) -> Option<GitPayloadV> {
    match git_fold(s, None, None) {
        None => None,
        Some((b, st)) => match b {
            None => None,
            Some(bytes) => Some(GitPayloadV { branch: bytes, status: st }),
        },
    }
}

/// Where the payload of a sequence ends: at a terminator (`end` is the
/// first byte past the payload, `next` the first byte past the
/// terminator), at a stray escape that starts something new, or nowhere
/// yet because the buffer ran out.
pub ghost enum PayloadEndV {
    Term { end: int, next: int },
    Bad { at: int },
    More,
}

/// Classifies the end of a payload that starts at `from`: the payload
/// runs to the first bell or escape byte; a bell terminates it, an
/// escape followed by backslash terminates it, any other escape voids
/// it, and a missing terminator leaves it unfinished.
pub open spec fn payload_end(h: Seq<u8>, from: int) -> PayloadEndV {
    let t = find_term(h, from);
    if t >= h.len() {
        PayloadEndV::More
    } else if h[t] == bel() {
        PayloadEndV::Term { end: t, next: t + 1 }
    } else if t + 1 < h.len() {
        if h[t + 1] == 0x5c {
            PayloadEndV::Term { end: t, next: t + 2 }
        } else {
            PayloadEndV::Bad { at: t }
        }
    } else {
        PayloadEndV::More
    }
}

/// What one scan pass over the buffer yields: the events emitted in
/// order (git aside), the last complete git payload seen, the position
/// where the next pass must resume, and the alternate-screen flag.
pub ghost struct ScanOut {
    pub events: Seq<EventV>,
    pub git: Option<GitPayloadV>,
    pub pos: int,
    pub alt: bool,
}

/// Prepends an event to the output of the rest of the scan.
pub open spec fn scan_cons(e: EventV, sub: ScanOut) -> ScanOut {
    ScanOut { events: seq![e] + sub.events, git: sub.git, pos: sub.pos, alt: sub.alt }
}

/// Records a parsed git payload, unless a later one supersedes it.
pub open spec fn scan_git(g: GitPayloadV, sub: ScanOut) -> ScanOut {
    ScanOut {
        events: sub.events,
        git: if sub.git is Some { sub.git } else { Some(g) },
        pos: sub.pos,
        alt: sub.alt,
    }
}

/// The scan of the buffer from `pos` on: emits one event per completed
/// marker, in order; remembers the last complete git payload; stops at
/// the buffer's end or at a marker head that still awaits bytes, and
/// reports where scanning must resume.
pub open spec fn scan_spec(h: Seq<u8>, pos: int, alt: bool) -> ScanOut
    decreases h.len() - pos,
    when 0 <= pos
    via scan_spec_dec
{
    if pos >= h.len() {
        ScanOut { events: Seq::empty(), git: None, pos: h.len() as int, alt }
    } else if h[pos] != esc() {
        scan_spec(h, pos + 1, alt)
    } else if bytes_at(h, alt_enter_m(), pos) {
        scan_spec(h, pos + 8, true)
    } else if bytes_at(h, alt_exit_m(), pos) {
        scan_spec(h, pos + 8, false)
    } else if bytes_at(h, prompt_m(), pos) {
        scan_cons(EventV::PromptShown, scan_spec(h, pos + 7, alt))
    } else if bytes_at(h, cmd_start_m(), pos) {
        scan_cons(EventV::CommandStart, scan_spec(h, pos + 7, alt))
    } else if bytes_at(h, cmd_end_m(), pos) {
        match payload_end(h, pos + 7) {
            PayloadEndV::Term { end, next } => {
                let params = h.subrange(pos + 7, end);
                if params.len() > 0 && params[0] == 0x3b && parse_exit_code(
                    params.drop_first(),
                ) is Some {
                    scan_cons(
                        EventV::CommandEnd(parse_exit_code(params.drop_first()).unwrap()),
                        scan_spec(h, next, alt),
                    )
                } else {
                    scan_spec(h, next, alt)
                }
            },
            PayloadEndV::Bad { at } => scan_spec(h, at, alt),
            PayloadEndV::More => ScanOut { events: Seq::empty(), git: None, pos, alt },
        }
    } else if bytes_at(h, git_m(), pos) {
        match payload_end(h, pos + 8) {
            PayloadEndV::Term { end, next } => {
                match git_parse(h.subrange(pos + 8, end)) {
                    Some(g) => scan_git(g, scan_spec(h, next, alt)),
                    None => scan_spec(h, next, alt),
                }
            },
            PayloadEndV::Bad { at } => scan_spec(h, at, alt),
            PayloadEndV::More => ScanOut { events: Seq::empty(), git: None, pos, alt },
        }
    } else if bytes_at(h, dir_m(), pos) {
        match payload_end(h, pos + 18) {
            PayloadEndV::Term { end, next } => {
                let pay = h.subrange(pos + 18, end);
                if pay.len() > 0 {
                    scan_cons(EventV::Directory(lossy_of(pay)), scan_spec(h, next, alt))
                } else {
                    scan_spec(h, next, alt)
                }
            },
            PayloadEndV::Bad { at } => scan_spec(h, at, alt),
            PayloadEndV::More => ScanOut { events: Seq::empty(), git: None, pos, alt },
        }
    } else if any_partial_at(h, pos) {
        ScanOut { events: Seq::empty(), git: None, pos, alt }
    } else {
        scan_spec(h, pos + 1, alt)
    }
}

#[via_fn]
proof fn scan_spec_dec(h: Seq<u8>, pos: int, alt: bool) {
    if 0 <= pos && pos < h.len() {
        if pos + 7 <= h.len() {
            lemma_find_term(h, pos + 7);
        }
        if pos + 8 <= h.len() {
            lemma_find_term(h, pos + 8);
        }
        if pos + 18 <= h.len() {
            lemma_find_term(h, pos + 18);
        }
    }
}

/// Copies the byte range `[lo, hi)` of the vector.
pub fn copy_range(buf: &Vec<u8>, lo: usize, hi: usize) -> (r: Vec<u8>)
    requires
        lo <= hi <= buf@.len(),
    ensures
        r@ == buf@.subrange(lo as int, hi as int),
{
    let mut r: Vec<u8> = Vec::new();
    let mut i = lo;
    while i < hi
        invariant
            lo <= i <= hi <= buf@.len(),
            r@ =~= buf@.subrange(lo as int, i as int),
        decreases hi - i,
    {
        r.push(buf[i]);
        assert(r@ =~= buf@.subrange(lo as int, i + 1));
        i += 1;
    }
    assert(r@ =~= buf@.subrange(lo as int, hi as int));
    r
}

fn bytes_at_exec(buf: &Vec<u8>, pat: &Vec<u8>, i: usize) -> (b: bool)
    ensures
        b == bytes_at(buf@, pat@, i as int),
{
    if i > buf.len() || buf.len() - i < pat.len() {
        return false;
    }
    let n = buf.len();
    let mut j: usize = 0;
    while j < pat.len()
        invariant
            0 <= j <= pat@.len(),
            n == buf@.len(),
            i + pat@.len() <= n,
            forall|k: int| 0 <= k < j ==> buf@[i + k] == #[trigger] pat@[k],
        decreases pat@.len() - j,
    {
        if buf[i + j] != pat[j] {
            return false;
        }
        j += 1;
    }
    true
}

fn partial_at_exec(buf: &Vec<u8>, pat: &Vec<u8>, i: usize) -> (b: bool)
    ensures
        b == partial_at(buf@, pat@, i as int),
{
    if i >= buf.len() || buf.len() - i >= pat.len() {
        return false;
    }
    let n = buf.len();
    let avail = n - i;
    let mut j: usize = 0;
    while j < avail
        invariant
            0 <= j <= avail,
            n == buf@.len(),
            avail == n - i,
            i < n,
            avail < pat@.len(),
            forall|k: int| 0 <= k < j ==> buf@[i + k] == #[trigger] pat@[k],
        decreases avail - j,
    {
        if buf[i + j] != pat[j] {
            return false;
        }
        j += 1;
    }
    true
}

fn m_alt_enter() -> (v: Vec<u8>)
    ensures
        v@ == alt_enter_m(),
{
    let mut v: Vec<u8> = Vec::new();
    v.push(0x1b);
    v.push(0x5b);
    v.push(0x3f);
    v.push(0x31);
    v.push(0x30);
    v.push(0x34);
    v.push(0x39);
    v.push(0x68);
    assert(v@ =~= alt_enter_m());
    v
}

fn m_alt_exit() -> (v: Vec<u8>)
    ensures
        v@ == alt_exit_m(),
{
    let mut v: Vec<u8> = Vec::new();
    v.push(0x1b);
    v.push(0x5b);
    v.push(0x3f);
    v.push(0x31);
    v.push(0x30);
    v.push(0x34);
    v.push(0x39);
    v.push(0x6c);
    assert(v@ =~= alt_exit_m());
    v
}

fn m_osc_letter(letter: u8) -> (v: Vec<u8>)
    ensures
        v@ == seq![0x1bu8, 0x5d, 0x31, 0x33, 0x33, 0x3b, letter],
{
    let mut v: Vec<u8> = Vec::new();
    v.push(0x1b);
    v.push(0x5d);
    v.push(0x31);
    v.push(0x33);
    v.push(0x33);
    v.push(0x3b);
    v.push(letter);
    assert(v@ =~= seq![0x1bu8, 0x5d, 0x31, 0x33, 0x33, 0x3b, letter]);
    v
}

fn m_git() -> (v: Vec<u8>)
    ensures
        v@ == git_m(),
{
    let mut v = m_osc_letter(0x47);
    v.push(0x3b);
    assert(v@ =~= git_m());
    v
}

fn m_dir() -> (v: Vec<u8>)
    ensures
        v@ == dir_m(),
{
    let mut v: Vec<u8> = Vec::new();
    v.push(0x1b);
    v.push(0x5d);
    v.push(0x31);
    v.push(0x33);
    v.push(0x33);
    v.push(0x37);
    v.push(0x3b);
    v.push(0x43);
    v.push(0x75);
    v.push(0x72);
    v.push(0x72);
    v.push(0x65);
    v.push(0x6e);
    v.push(0x74);
    v.push(0x44);
    v.push(0x69);
    v.push(0x72);
    v.push(0x3d);
    assert(v@ =~= dir_m());
    v
}

/// Executable counterpart of `payload_end`.
pub enum PayloadEnd {
    Term { end: usize, next: usize },
    Bad { at: usize },
    More,
}

impl View for PayloadEnd {
    type V = PayloadEndV;

    open spec fn view(&self) -> PayloadEndV {
        match self {
            PayloadEnd::Term { end, next } => PayloadEndV::Term {
                end: *end as int,
                next: *next as int,
            },
            PayloadEnd::Bad { at } => PayloadEndV::Bad { at: *at as int },
            PayloadEnd::More => PayloadEndV::More,
        }
    }
}

fn payload_end_exec(buf: &Vec<u8>, from: usize) -> (r: PayloadEnd)
    requires
        from <= buf@.len(),
    ensures
        r@ == payload_end(buf@, from as int),
        match r {
            PayloadEnd::Term { end, next } => from <= end < next <= buf@.len(),
            PayloadEnd::Bad { at } => from <= at < buf@.len(),
            PayloadEnd::More => true,
        },
{
    proof {
        lemma_find_term(buf@, from as int);
    }
    let mut t = from;
    while t < buf.len() && buf[t] != 0x07 && buf[t] != 0x1b
        invariant
            from <= t <= buf@.len(),
            forall|k: int| from <= k < t ==> (buf@[k] != bel() && buf@[k] != esc()),
        decreases buf@.len() - t,
    {
        t += 1;
    }
    proof {
        let f = find_term(buf@, from as int);
        if t < buf@.len() {
            assert(f == t);
        } else {
            assert(f == buf@.len());
        }
    }
    if t >= buf.len() {
        PayloadEnd::More
    } else if buf[t] == 0x07 {
        PayloadEnd::Term { end: t, next: t + 1 }
    } else if t + 1 < buf.len() {
        if buf[t + 1] == 0x5c {
            PayloadEnd::Term { end: t, next: t + 2 }
        } else {
            PayloadEnd::Bad { at: t }
        }
    } else {
        PayloadEnd::More
    }
}

proof fn lemma_trim_front_b_skip(s: Seq<u8>, k: int)
    requires
        0 <= k <= s.len(),
        forall|i: int| 0 <= i < k ==> is_ws_byte(#[trigger] s[i]),
    ensures
        trim_front_b(s) == trim_front_b(s.skip(k)),
    decreases k,
{
    if k > 0 {
        assert(s.drop_first() =~= s.skip(1));
        lemma_trim_front_b_skip(s.skip(1), k - 1);
        assert(s.skip(1).skip(k - 1) =~= s.skip(k));
    } else {
        assert(s.skip(0) =~= s);
    }
}

proof fn lemma_trim_back_b_take(s: Seq<u8>, k: int)
    requires
        0 <= k <= s.len(),
        forall|i: int| k <= i < s.len() ==> is_ws_byte(#[trigger] s[i]),
    ensures
        trim_back_b(s) == trim_back_b(s.take(k)),
    decreases s.len() - k,
{
    if k < s.len() {
        assert(s.drop_last() =~= s.take(s.len() - 1));
        lemma_trim_back_b_take(s.take(s.len() - 1), k);
        assert(s.take(s.len() - 1).take(k) =~= s.take(k));
    } else {
        assert(s.take(s.len() as int) =~= s);
    }
}

fn is_ws_byte_exec(b: u8) -> (r: bool)
    ensures
        r == is_ws_byte(b),
{
    b == 0x20 || b == 0x09 || b == 0x0a || b == 0x0d || b == 0x0b || b == 0x0c
}

/// Parses the exit-code payload found in `buf[lo..hi]`.
#[verifier::rlimit(30)]
#[verifier::loop_isolation(false)]
pub fn parse_exit_exec(buf: &Vec<u8>, lo: usize, hi: usize) -> (r: Option<i32>)
    requires
        lo <= hi <= buf@.len(),
    ensures
        match r {
            Some(v) => parse_exit_code(buf@.subrange(lo as int, hi as int)) == Some(v as int),
            None => parse_exit_code(buf@.subrange(lo as int, hi as int)) is None,
        },
{
    let ghost s = buf@.subrange(lo as int, hi as int);
    let mut a = lo;
    while a < hi && is_ws_byte_exec(buf[a])
        invariant
            lo <= a <= hi <= buf@.len(),
            forall|k: int| lo <= k < a ==> is_ws_byte(#[trigger] buf@[k]),
        decreases hi - a,
    {
        a += 1;
    }
    proof {
        assert(forall|k: int| 0 <= k < a - lo ==> is_ws_byte(#[trigger] s[k]));
        lemma_trim_front_b_skip(s, a - lo);
        assert(s.skip(a - lo) =~= buf@.subrange(a as int, hi as int));
    }
    let ghost u = buf@.subrange(a as int, hi as int);
    let mut b = hi;
    while b > a && is_ws_byte_exec(buf[b - 1])
        invariant
            a <= b <= hi,
            hi <= buf@.len(),
            forall|k: int| b <= k < hi ==> is_ws_byte(#[trigger] buf@[k]),
        decreases b,
    {
        b -= 1;
    }
    proof {
        assert(forall|k: int| b - a <= k < u.len() ==> is_ws_byte(#[trigger] u[k]));
        lemma_trim_back_b_take(u, b - a);
        assert(u.take(b - a) =~= buf@.subrange(a as int, b as int));
        // the remaining range is clean on both ends
        assert(trim_b(s) == buf@.subrange(a as int, b as int));
    }
    let ghost t = buf@.subrange(a as int, b as int);
    if a == b {
        assert(t =~= Seq::<u8>::empty());
        return None;
    }
    let b0 = buf[a];
    let neg = b0 == 0x2d;
    let d0: usize = if b0 == 0x2d || b0 == 0x2b { a + 1 } else { a };
    let ghost ds = buf@.subrange(d0 as int, b as int);
    proof {
        if b0 == 0x2d || b0 == 0x2b {
            assert(t.drop_first() =~= ds);
        } else {
            assert(t =~= ds);
        }
    }
    if d0 == b {
        assert(ds.len() == 0);
        return None;
    }
    let mut acc: u64 = 0;
    let mut i = d0;
    while i < b
        invariant
            d0 <= i <= b <= buf@.len(),
            ds == buf@.subrange(d0 as int, b as int),
            ds.len() == b - d0,
            all_digits(buf@.subrange(d0 as int, i as int)),
            acc == digits_val(buf@.subrange(d0 as int, i as int)),
            acc <= 0x80000000,
        decreases b - i,
    {
        let c = buf[i];
        if c < 0x30 || c > 0x39 {
            assert(ds[i - d0] == c);
            assert(!all_digits(ds));
            return None;
        }
        proof {
            lemma_digits_val_take_step(ds, i - d0);
            assert(ds.take(i - d0) =~= buf@.subrange(d0 as int, i as int));
            assert(ds.take(i - d0 + 1) =~= buf@.subrange(d0 as int, i + 1));
        }
        acc = acc * 10 + ((c - 0x30) as u64);
        i += 1;
        if acc > 0x80000000 {
            proof {
                let pre = buf@.subrange(d0 as int, i as int);
                assert(pre =~= ds.take(i - d0));
                assert(forall|k: int| 0 <= k < i - d0 ==> is_digit(#[trigger] ds[k]));
                if all_digits(ds) {
                    lemma_digits_val_grows(ds, i - d0);
                    assert(digits_val(ds) > 0x80000000);
                }
            }
            return None;
        }
    }
    proof {
        assert(buf@.subrange(d0 as int, b as int) =~= ds);
    }
    if neg {
        let v: i64 = -(acc as i64);
        assert(-2147483648 <= v <= 2147483647);
        Some(v as i32)
    } else {
        if acc > 0x7fffffff {
            assert(digits_val(ds) == 0x80000000);
            return None;
        }
        Some(acc as i32)
    }
}

proof fn lemma_find_byte_shift(h: Seq<u8>, b: u8, p: int, j: int)
    requires
        0 <= p <= h.len(),
        0 <= j <= h.len() - p,
    ensures
        find_byte(h.skip(p), b, j) == find_byte(h, b, p + j) - p,
    decreases h.len() - p - j,
{
    let s = h.skip(p);
    if p + j < h.len() {
        assert(s[j] == h[p + j]);
        if h[p + j] != b {
            lemma_find_byte_shift(h, b, p, j + 1);
        }
    }
}

fn find_byte_from(v: &Vec<u8>, b: u8, from: usize) -> (r: usize)
    requires
        from <= v@.len(),
    ensures
        r == find_byte(v@, b, from as int),
        from <= r <= v@.len(),
        r < v@.len() ==> v@[r as int] == b,
        forall|k: int| from <= k < r ==> v@[k] != b,
{
    proof {
        lemma_find_byte(v@, b, from as int);
    }
    let mut t = from;
    while t < v.len() && v[t] != b
        invariant
            from <= t <= v@.len(),
            forall|k: int| from <= k < t ==> v@[k] != b,
        decreases v@.len() - t,
    {
        t += 1;
    }
    proof {
        let f = find_byte(v@, b, from as int);
        if t < v@.len() {
            assert(f == t);
        } else {
            assert(f == v@.len());
        }
    }
    t
}

fn range_eq(a: &Vec<u8>, lo: usize, hi: usize, pat: &Vec<u8>) -> (r: bool)
    requires
        lo <= hi <= a@.len(),
    ensures
        r == (a@.subrange(lo as int, hi as int) == pat@),
{
    if hi - lo != pat.len() {
        assert(a@.subrange(lo as int, hi as int).len() != pat@.len());
        return false;
    }
    let n = pat.len();
    let mut j: usize = 0;
    while j < n
        invariant
            0 <= j <= n,
            n == pat@.len(),
            lo + n <= a@.len(),
            hi == lo + n,
            forall|k: int| 0 <= k < j ==> a@[lo + k] == #[trigger] pat@[k],
        decreases n - j,
    {
        if a[lo + j] != pat[j] {
            assert(a@.subrange(lo as int, hi as int)[j as int] != pat@[j as int]);
            return false;
        }
        j += 1;
    }
    assert(a@.subrange(lo as int, hi as int) =~= pat@);
    true
}

fn k_branch() -> (v: Vec<u8>)
    ensures
        v@ == branch_key(),
{
    let mut v: Vec<u8> = Vec::new();
    v.push(0x62);
    v.push(0x72);
    v.push(0x61);
    v.push(0x6e);
    v.push(0x63);
    v.push(0x68);
    assert(v@ =~= branch_key());
    v
}

fn k_status() -> (v: Vec<u8>)
    ensures
        v@ == status_key(),
{
    let mut v: Vec<u8> = Vec::new();
    v.push(0x73);
    v.push(0x74);
    v.push(0x61);
    v.push(0x74);
    v.push(0x75);
    v.push(0x73);
    assert(v@ =~= status_key());
    v
}

fn v_clean() -> (v: Vec<u8>)
    ensures
        v@ == seq![0x63u8, 0x6c, 0x65, 0x61, 0x6e],
{
    let mut v: Vec<u8> = Vec::new();
    v.push(0x63);
    v.push(0x6c);
    v.push(0x65);
    v.push(0x61);
    v.push(0x6e);
    assert(v@ =~= seq![0x63u8, 0x6c, 0x65, 0x61, 0x6e]);
    v
}

fn v_dirty() -> (v: Vec<u8>)
    ensures
        v@ == seq![0x64u8, 0x69, 0x72, 0x74, 0x79],
{
    let mut v: Vec<u8> = Vec::new();
    v.push(0x64);
    v.push(0x69);
    v.push(0x72);
    v.push(0x74);
    v.push(0x79);
    assert(v@ =~= seq![0x64u8, 0x69, 0x72, 0x74, 0x79]);
    v
}

fn v_conflicts() -> (v: Vec<u8>)
    ensures
        v@ == seq![0x63u8, 0x6f, 0x6e, 0x66, 0x6c, 0x69, 0x63, 0x74, 0x73],
{
    let mut v: Vec<u8> = Vec::new();
    v.push(0x63);
    v.push(0x6f);
    v.push(0x6e);
    v.push(0x66);
    v.push(0x6c);
    v.push(0x69);
    v.push(0x63);
    v.push(0x74);
    v.push(0x73);
    assert(v@ =~= seq![0x63u8, 0x6f, 0x6e, 0x66, 0x6c, 0x69, 0x63, 0x74, 0x73]);
    v
}

/// Parses a complete git payload into branch bytes and status.
#[verifier::rlimit(30)]
#[verifier::loop_isolation(false)]
pub fn git_parse_exec(pay: &Vec<u8>) -> (r: Option<(Vec<u8>, Option<GitStatus>)>)
    ensures
        match r {
            Some(g) => git_parse(pay@) == Some(GitPayloadV { branch: g.0@, status: g.1 }),
            None => git_parse(pay@) is None,
        },
{
    let kb = k_branch();
    let ks = k_status();
    let vc = v_clean();
    let vd = v_dirty();
    let vx = v_conflicts();
    let mut branch: Option<Vec<u8>> = None;
    let mut status: Option<GitStatus> = None;
    let mut p: usize = 0;
    proof {
        assert(pay@.skip(0) =~= pay@);
    }
    loop
        invariant
            0 <= p <= pay@.len(),
            git_fold(pay@, None, None) == git_fold(
                pay@.skip(p as int),
                match branch {
                    Some(ref bv) => Some(bv@),
                    None => None,
                },
                status,
            ),
        decreases pay@.len() - p,
    {
        let ghost rem = pay@.skip(p as int);
        let ghost branch0 = match branch {
            Some(ref bv) => Some(bv@),
            None => None,
        };
        let ghost status0 = status;
        let e = find_byte_from(pay, 0x3b, p);
        proof {
            lemma_find_byte_shift(pay@, 0x3b, p as int, 0);
            assert(find_byte(rem, 0x3b, 0) == e - p);
            assert(rem.take(e - p) =~= pay@.subrange(p as int, e as int));
        }
        let ghost part_g = rem.take(e - p);
        let eq = find_byte_from(pay, 0x3d, p);
        proof {
            lemma_find_byte(part_g, 0x3d, 0);
        }
        let peq: usize = if eq > e { e } else { eq };
        proof {
            // the first '=' within the part, as the spec's find on the part
            let fe = find_byte(part_g, 0x3d, 0);
            if eq < e {
                assert(part_g[eq - p] == 0x3d);
                assert(forall|k: int| 0 <= k < eq - p ==> part_g[k] != 0x3d);
                assert(fe == eq - p);
            } else {
                assert(forall|k: int| 0 <= k < part_g.len() ==> part_g[k] != 0x3d);
                assert(fe == part_g.len());
            }
        }
        if peq == e {
            // no '=' in this part: the whole payload is void
            assert(find_byte(part_g, 0x3d, 0) == part_g.len());
            return None;
        }
        // part_g has an '=' at peq - p
        assert(find_byte(part_g, 0x3d, 0) == peq - p);
        let ghost key_g = part_g.take(peq - p);
        let ghost val_g = part_g.skip(peq - p + 1);
        proof {
            assert(key_g =~= pay@.subrange(p as int, peq as int));
            assert(val_g =~= pay@.subrange(peq + 1, e as int));
        }
        let is_branch = range_eq(pay, p, peq, &kb);
        let is_status = range_eq(pay, p, peq, &ks);
        if is_branch && peq + 1 < e {
            branch = Some(copy_range(pay, peq + 1, e));
        }
        if is_status {
            if range_eq(pay, peq + 1, e, &vc) {
                status = Some(GitStatus::Clean);
                assert(status_of_value(val_g) == Some(GitStatus::Clean));
            } else if range_eq(pay, peq + 1, e, &vd) {
                status = Some(GitStatus::Dirty);
                assert(status_of_value(val_g) == Some(GitStatus::Dirty));
            } else if range_eq(pay, peq + 1, e, &vx) {
                status = Some(GitStatus::Conflicts);
                assert(status_of_value(val_g) == Some(GitStatus::Conflicts));
            } else {
                status = None;
                assert(status_of_value(val_g) is None);
            }
        }
        proof {
            let branch1 = match branch {
                Some(ref bv) => Some(bv@),
                None => None,
            };
            if is_branch && peq + 1 < e {
                assert(key_g == branch_key() && val_g.len() > 0);
                assert(branch1 == Some(val_g));
            } else {
                if key_g == branch_key() && val_g.len() > 0 {
                    assert(peq + 1 < e);
                }
                assert(branch1 == branch0);
            }
        }
        let ghost branch1 = match branch {
            Some(ref bv) => Some(bv@),
            None => None,
        };
        if e == pay.len() {
            proof {
                assert(find_byte(rem, 0x3b, 0) == rem.len());
                assert(git_fold(rem, branch0, status0) == Some((branch1, status)));
            }
            match branch {
                Some(bv) => {
                    return Some((bv, status));
                },
                None => {
                    return None;
                },
            }
        }
        proof {
            assert(find_byte(rem, 0x3b, 0) < rem.len());
            assert(rem.skip((e - p) + 1) =~= pay@.skip(e + 1));
            assert(git_fold(rem, branch0, status0) == git_fold(pay@.skip(e + 1), branch1, status));
        }
        p = e + 1;
    }
}

/// The models of a queue of parser events, in order.
pub open spec fn events_view(s: Seq<ParserEvent>) -> Seq<EventV> {
    s.map_values(|e: ParserEvent| e@)
}

/// The seven marker byte strings, built once per scan pass.
struct Markers {
    me: Vec<u8>,
    mx: Vec<u8>,
    mp: Vec<u8>,
    mc: Vec<u8>,
    md: Vec<u8>,
    mg: Vec<u8>,
    mdir: Vec<u8>,
}

impl Markers {
    spec fn wf(&self) -> bool {
        &&& self.me@ == alt_enter_m()
        &&& self.mx@ == alt_exit_m()
        &&& self.mp@ == prompt_m()
        &&& self.mc@ == cmd_start_m()
        &&& self.md@ == cmd_end_m()
        &&& self.mg@ == git_m()
        &&& self.mdir@ == dir_m()
    }

    fn new() -> (r: Markers)
        ensures
            r.wf(),
    {
        Markers {
            me: m_alt_enter(),
            mx: m_alt_exit(),
            mp: m_osc_letter(0x41),
            mc: m_osc_letter(0x43),
            md: m_osc_letter(0x44),
            mg: m_git(),
            mdir: m_dir(),
        }
    }
}

/// What one scanner step did at an escape byte: at most one event or
/// one git payload, a new position and flag, or a stop because the
/// marker at this position still awaits bytes.
struct Step {
    event: Option<ParserEvent>,
    git: Option<(String, Option<GitStatus>)>,
    git_bytes: Ghost<Seq<u8>>,
    pos: usize,
    alt: bool,
    stop: bool,
}

/// A step that emits nothing and moves to `p`.
fn plain_step(p: usize, a: bool) -> (r: Step)
    ensures
        r.event is None,
        r.git is None,
        r.pos == p,
        r.alt == a,
        !r.stop,
{
    Step { event: None, git: None, git_bytes: Ghost(Seq::empty()), pos: p, alt: a, stop: false }
}

/// Handles the single scanner position `pos`; realizes one unfolding
/// of `scan_spec`.
#[verifier::rlimit(100)]
fn scan_step(buf: &Vec<u8>, pos: usize, alt: bool, m: &Markers) -> (r: Step)
    requires
        pos < buf@.len(),
        m.wf(),
    ensures
        ({
            let sub = scan_spec(buf@, pos as int, alt);
            let nxt = scan_spec(buf@, r.pos as int, r.alt);
            if r.stop {
                sub.events == Seq::<EventV>::empty() && sub.git is None && sub.pos == pos as int
                    && sub.alt == alt && r.pos == pos && r.alt == alt && r.event is None
                    && r.git is None
            } else {
                pos < r.pos <= buf@.len() && match (&r.event, &r.git) {
                    (Option::None, Option::None) => sub == nxt,
                    (Option::Some(e), Option::None) => sub == scan_cons(e@, nxt),
                    (Option::None, Option::Some(g)) => sub == scan_git(
                        GitPayloadV { branch: r.git_bytes@, status: g.1 },
                        nxt,
                    ) && g.0@ == lossy_of(r.git_bytes@),
                    (Option::Some(_), Option::Some(_)) => false,
                }
            }
        }),
{
    let n = buf.len();
    assert(n == buf@.len());
    if buf[pos] != 0x1b {
        return Step {
            event: None,
            git: None,
            git_bytes: Ghost(Seq::empty()),
            pos: pos + 1,
            alt,
            stop: false,
        };
    }
    if bytes_at_exec(buf, &m.me, pos) {
        Step { event: None, git: None, git_bytes: Ghost(Seq::empty()), pos: pos + 8, alt: true, stop: false }
    } else if bytes_at_exec(buf, &m.mx, pos) {
        Step { event: None, git: None, git_bytes: Ghost(Seq::empty()), pos: pos + 8, alt: false, stop: false }
    } else if bytes_at_exec(buf, &m.mp, pos) {
        Step {
            event: Some(ParserEvent::PromptShown),
            git: None,
            git_bytes: Ghost(Seq::empty()),
            pos: pos + 7,
            alt,
            stop: false,
        }
    } else if bytes_at_exec(buf, &m.mc, pos) {
        Step {
            event: Some(ParserEvent::CommandStart),
            git: None,
            git_bytes: Ghost(Seq::empty()),
            pos: pos + 7,
            alt,
            stop: false,
        }
    } else if bytes_at_exec(buf, &m.md, pos) {
        match payload_end_exec(buf, pos + 7) {
            PayloadEnd::Term { end, next } => {
                let ghost params = buf@.subrange(pos + 7, end as int);
                let mut ev: Option<ParserEvent> = None;
                if end > pos + 7 && buf[pos + 7] == 0x3b {
                    proof {
                        assert(params.drop_first() =~= buf@.subrange(pos + 8, end as int));
                    }
                    match parse_exit_exec(buf, pos + 8, end) {
                        Some(code) => {
                            ev = Some(ParserEvent::CommandEnd(code));
                        },
                        None => {},
                    }
                }
                Step { event: ev, git: None, git_bytes: Ghost(Seq::empty()), pos: next, alt, stop: false }
            },
            PayloadEnd::Bad { at } => plain_step(at, alt),
            PayloadEnd::More => {
                proof {
                    let sub = scan_spec(buf@, pos as int, alt);
                    assert(sub.events == Seq::<EventV>::empty() && sub.git is None && sub.pos
                        == pos as int && sub.alt == alt);
                }
                Step {
                    event: None,
                    git: None,
                    git_bytes: Ghost(Seq::empty()),
                    pos,
                    alt,
                    stop: true,
                }
            },
        }
    } else if bytes_at_exec(buf, &m.mg, pos) {
        match payload_end_exec(buf, pos + 8) {
            PayloadEnd::Term { end, next } => {
                let pay = copy_range(buf, pos + 8, end);
                match git_parse_exec(&pay) {
                    Some(parsed) => {
                        let ghost bb = parsed.0@;
                        let decoded = lossy_string(&parsed.0);
                        Step {
                            event: None,
                            git: Some((decoded, parsed.1)),
                            git_bytes: Ghost(bb),
                            pos: next,
                            alt,
                            stop: false,
                        }
                    },
                    None => plain_step(next, alt),
                }
            },
            PayloadEnd::Bad { at } => plain_step(at, alt),
            PayloadEnd::More => {
                proof {
                    let sub = scan_spec(buf@, pos as int, alt);
                    assert(sub.events == Seq::<EventV>::empty() && sub.git is None && sub.pos
                        == pos as int && sub.alt == alt);
                }
                Step {
                    event: None,
                    git: None,
                    git_bytes: Ghost(Seq::empty()),
                    pos,
                    alt,
                    stop: true,
                }
            },
        }
    } else if bytes_at_exec(buf, &m.mdir, pos) {
        match payload_end_exec(buf, pos + 18) {
            PayloadEnd::Term { end, next } => {
                if end > pos + 18 {
                    let pay = copy_range(buf, pos + 18, end);
                    let decoded = lossy_string(&pay);
                    Step {
                        event: Some(ParserEvent::Directory(decoded)),
                        git: None,
                        git_bytes: Ghost(Seq::empty()),
                        pos: next,
                        alt,
                        stop: false,
                    }
                } else {
                    plain_step(next, alt)
                }
            },
            PayloadEnd::Bad { at } => plain_step(at, alt),
            PayloadEnd::More => {
                proof {
                    let sub = scan_spec(buf@, pos as int, alt);
                    assert(sub.events == Seq::<EventV>::empty() && sub.git is None && sub.pos
                        == pos as int && sub.alt == alt);
                }
                Step {
                    event: None,
                    git: None,
                    git_bytes: Ghost(Seq::empty()),
                    pos,
                    alt,
                    stop: true,
                }
            },
        }
    } else {
        let partial = partial_at_exec(buf, &m.me, pos) || partial_at_exec(buf, &m.mx, pos)
            || partial_at_exec(buf, &m.mp, pos) || partial_at_exec(buf, &m.mc, pos)
            || partial_at_exec(buf, &m.md, pos) || partial_at_exec(buf, &m.mg, pos)
            || partial_at_exec(buf, &m.mdir, pos);
        if partial {
            proof {
                let sub = scan_spec(buf@, pos as int, alt);
                assert(sub.events == Seq::<EventV>::empty() && sub.git is None && sub.pos
                    == pos as int && sub.alt == alt);
            }
            Step { event: None, git: None, git_bytes: Ghost(Seq::empty()), pos, alt, stop: true }
        } else {
            plain_step(pos + 1, alt)
        }
    }
}

/// What one scan pass handed back: the events emitted in order (the
/// git event aside), the decoded git payload that won, and where the
/// next pass resumes.
pub struct ScanPass {
    pub events: Vec<ParserEvent>,
    pub git: Option<(String, Option<GitStatus>)>,
    pub pos: usize,
    pub alt: bool,
}

/// Runs one scan pass over the buffer from `start`, with the
/// alternate-screen flag starting at `alt0`; realizes `scan_spec`.
#[verifier::rlimit(100)]
#[verifier::loop_isolation(false)]
pub fn scan_pass(buf: &Vec<u8>, start: usize, alt0: bool) -> (r: ScanPass)
    requires
        start <= buf@.len(),
    ensures
        ({
            let out = scan_spec(buf@, start as int, alt0);
            &&& events_view(r.events@) == out.events
            &&& match r.git {
                Some(g) => out.git matches Some(p) && g.0@ == lossy_of(p.branch) && g.1 == p.status,
                None => out.git is None,
            }
            &&& r.pos == out.pos
            &&& r.alt == out.alt
            &&& start <= r.pos <= buf@.len()
        }),
{
    let m = Markers::new();
    let ghost out0 = scan_spec(buf@, start as int, alt0);
    let mut pos = start;
    let mut alt = alt0;
    let mut events: Vec<ParserEvent> = Vec::new();
    let mut git: Option<(String, Option<GitStatus>)> = None;
    let ghost mut git_g: Option<GitPayloadV> = None;
    let mut done = false;
    proof {
        assert(events_view(events@) =~= Seq::<EventV>::empty());
        assert(out0.events =~= events_view(events@) + out0.events);
    }
    while !done
        invariant
            start <= pos <= buf@.len(),
            out0.events == events_view(events@) + scan_spec(buf@, pos as int, alt).events,
            out0.git == (if scan_spec(buf@, pos as int, alt).git is Some {
                scan_spec(buf@, pos as int, alt).git
            } else {
                git_g
            }),
            out0.pos == scan_spec(buf@, pos as int, alt).pos,
            out0.alt == scan_spec(buf@, pos as int, alt).alt,
            match git {
                Some(g) => git_g matches Some(p) && g.0@ == lossy_of(p.branch) && g.1 == p.status,
                None => git_g is None,
            },
            done ==> (out0.events == events_view(events@) && out0.git == git_g && out0.pos == pos
                && out0.alt == alt),
        decreases buf@.len() - pos + (if done { 0int } else { 1 }),
    {
        let ghost sub = scan_spec(buf@, pos as int, alt);
        let ghost acc = events_view(events@);
        if pos >= buf.len() {
            proof {
                assert(sub.events =~= Seq::<EventV>::empty());
                assert(acc + sub.events =~= acc);
            }
            done = true;
        } else {
            let st = scan_step(buf, pos, alt, &m);
            if st.stop {
                proof {
                    assert(sub.events =~= Seq::<EventV>::empty());
                    assert(acc + sub.events =~= acc);
                }
                done = true;
            } else {
                let ghost nxt = scan_spec(buf@, st.pos as int, st.alt);
                match st.event {
                    Some(e) => {
                        let ghost ev = e@;
                        events.push(e);
                        proof {
                            assert(events_view(events@) =~= acc + seq![ev]);
                            assert(acc + (seq![ev] + nxt.events) =~= (acc + seq![ev]) + nxt.events);
                        }
                    },
                    None => {},
                }
                match st.git {
                    Some(g) => {
                        proof {
                            git_g = Some(GitPayloadV { branch: st.git_bytes@, status: g.1 });
                        }
                        git = Some(g);
                    },
                    None => {},
                }
                pos = st.pos;
                alt = st.alt;
            }
        }
    }
    ScanPass { events, git, pos, alt }
}

/// A byte region with no escape byte can hold no marker: scanning
/// steps straight across it.
pub proof fn lemma_scan_clean(h: Seq<u8>, pos: int, upto: int, alt: bool)
    requires
        0 <= pos <= upto <= h.len(),
        forall|k: int| pos <= k < upto ==> h[k] != 0x1b,
    ensures
        scan_spec(h, pos, alt) == scan_spec(h, upto, alt),
    decreases upto - pos,
{
    if pos < upto {
        assert(h[pos] != esc());
        lemma_scan_clean(h, pos + 1, upto, alt);
    }
}

/// The bytes of a complete command-end marker: the head, a semicolon,
/// the code payload, and a bell terminator.
pub open spec fn d_marker(code: Seq<u8>) -> Seq<u8> {
    cmd_end_m() + seq![0x3bu8] + code + seq![0x07u8]
}

/// Scanning at a complete command-end marker consumes exactly the
/// marker and emits one event when the code parses, none otherwise.
#[verifier::rlimit(100)]
pub proof fn lemma_scan_at_d(h: Seq<u8>, i: int, code: Seq<u8>, alt: bool)
    requires
        0 <= i,
        i + d_marker(code).len() <= h.len(),
        forall|j: int| 0 <= j < d_marker(code).len() ==> h[i + j] == #[trigger] d_marker(code)[j],
        forall|k: int| 0 <= k < code.len() ==> #[trigger] code[k] != 0x1b && code[k] != 0x07,
    ensures
        ({
            let next = i + d_marker(code).len();
            scan_spec(h, i, alt) == (match parse_exit_code(code) {
                Some(n) => scan_cons(EventV::CommandEnd(n), scan_spec(h, next, alt)),
                None => scan_spec(h, next, alt),
            })
        }),
{
    let m = d_marker(code);
    let end = i + 8 + code.len();
    let next = i + m.len();
    assert(m.len() == 9 + code.len());
    assert forall|j: int| 0 <= j < 8 implies h[i + j] == #[trigger] (cmd_end_m() + seq![
        0x3bu8,
    ])[j] by {
        assert(m[j] == (cmd_end_m() + seq![0x3bu8])[j]);
        assert(h[i + j] == m[j]);
    }
    assert(h[i] == esc()) by {
        assert(h[i + 0] == (cmd_end_m() + seq![0x3bu8])[0]);
    }
    assert(h[i + 1] == 0x5d) by {
        assert(h[i + 1] == (cmd_end_m() + seq![0x3bu8])[1]);
    }
    assert(h[i + 6] == 0x44) by {
        assert(h[i + 6] == (cmd_end_m() + seq![0x3bu8])[6]);
    }
    assert(h[i + 7] == 0x3b) by {
        assert(h[i + 7] == (cmd_end_m() + seq![0x3bu8])[7]);
    }
    assert forall|k: int| 0 <= k < code.len() implies h[i + 8 + k] == #[trigger] code[k] by {
        assert(m[8 + k] == code[k]);
        assert(h[i + (8 + k)] == m[8 + k]);
    }
    assert(h[end] == bel()) by {
        assert(m[8 + code.len() as int] == 0x07);
        assert(h[i + 8 + code.len() as int] == m[8 + code.len() as int]);
    }
    assert(!bytes_at(h, alt_enter_m(), i)) by {
        assert(alt_enter_m()[1] == 0x5b);
    }
    assert(!bytes_at(h, alt_exit_m(), i)) by {
        assert(alt_exit_m()[1] == 0x5b);
    }
    assert(!bytes_at(h, prompt_m(), i)) by {
        assert(prompt_m()[6] == 0x41);
    }
    assert(!bytes_at(h, cmd_start_m(), i)) by {
        assert(cmd_start_m()[6] == 0x43);
    }
    assert(bytes_at(h, cmd_end_m(), i)) by {
        assert forall|j: int| 0 <= j < 7 implies h[i + j] == #[trigger] cmd_end_m()[j] by {
            assert(h[i + j] == (cmd_end_m() + seq![0x3bu8])[j]);
        }
    }
    lemma_find_term(h, i + 7);
    let f = find_term(h, i + 7);
    assert forall|k: int| i + 7 <= k < end implies h[k] != bel() && h[k] != esc() by {
        if k == i + 7 {
            assert(h[k] == 0x3b);
        } else {
            assert(h[k] == code[k - (i + 8)]);
        }
    }
    if f < end {
        assert(h[f] == bel() || h[f] == esc());
        assert(false);
    }
    if f > end {
        assert(h[end] != bel() && h[end] != esc());
        assert(false);
    }
    assert(payload_end(h, i + 7) == (PayloadEndV::Term { end, next }));
    let params = h.subrange(i + 7, end);
    assert(params.len() > 0 && params[0] == 0x3b);
    assert(params.drop_first() =~= code);
}

/// Law: a byte stream holding one well-formed command-end marker
/// yields exactly one command-end event carrying its code, and one
/// holding a malformed marker yields none; the alternate-screen flag
/// and the pending git state are untouched.
#[verifier::rlimit(100)]
pub proof fn lemma_single_cmd_end(pre: Seq<u8>, code: Seq<u8>, post: Seq<u8>, alt: bool)
    requires
        forall|k: int| 0 <= k < pre.len() ==> #[trigger] pre[k] != 0x1b,
        forall|k: int| 0 <= k < code.len() ==> #[trigger] code[k] != 0x1b && code[k] != 0x07,
        forall|k: int| 0 <= k < post.len() ==> #[trigger] post[k] != 0x1b,
    ensures
        ({
            let h = pre + d_marker(code) + post;
            let out = scan_spec(h, 0, alt);
            &&& out.events == (match parse_exit_code(code) {
                Some(n) => seq![EventV::CommandEnd(n)],
                None => Seq::<EventV>::empty(),
            })
            &&& out.git is None
            &&& out.alt == alt
            &&& out.pos == h.len()
        }),
{
    let m = d_marker(code);
    let h = pre + m + post;
    let i = pre.len() as int;
    let next = i + m.len();
    assert forall|k: int| 0 <= k < i implies #[trigger] h[k] != 0x1b by {
        assert(h[k] == pre[k]);
    }
    assert forall|j: int| 0 <= j < m.len() implies h[i + j] == #[trigger] m[j] by {
        assert((pre + m)[i + j] == m[j]);
        assert(h[i + j] == (pre + m)[i + j]);
    }
    assert forall|k: int| next <= k < h.len() implies #[trigger] h[k] != 0x1b by {
        assert(h[k] == post[k - next]);
    }
    lemma_scan_clean(h, 0, i, alt);
    lemma_scan_at_d(h, i, code, alt);
    lemma_scan_clean(h, next, h.len() as int, alt);
    assert(scan_spec(h, h.len() as int, alt) == (ScanOut {
        events: Seq::<EventV>::empty(),
        git: None,
        pos: h.len() as int,
        alt,
    }));
    match parse_exit_code(code) {
        Some(n) => {
            assert(scan_spec(h, 0, alt).events =~= seq![EventV::CommandEnd(n)]);
        },
        None => {},
    }
}

/// Law: each well-formed command-end marker in a stream yields its own
/// event, in order: two occurrences give exactly the two events.
#[verifier::rlimit(100)]
pub proof fn lemma_two_cmd_ends(
    pre: Seq<u8>,
    code1: Seq<u8>,
    mid: Seq<u8>,
    code2: Seq<u8>,
    post: Seq<u8>,
    alt: bool,
)
    requires
        forall|k: int| 0 <= k < pre.len() ==> #[trigger] pre[k] != 0x1b,
        forall|k: int| 0 <= k < code1.len() ==> #[trigger] code1[k] != 0x1b && code1[k] != 0x07,
        forall|k: int| 0 <= k < mid.len() ==> #[trigger] mid[k] != 0x1b,
        forall|k: int| 0 <= k < code2.len() ==> #[trigger] code2[k] != 0x1b && code2[k] != 0x07,
        forall|k: int| 0 <= k < post.len() ==> #[trigger] post[k] != 0x1b,
        parse_exit_code(code1) is Some,
        parse_exit_code(code2) is Some,
    ensures
        ({
            let h = pre + d_marker(code1) + mid + d_marker(code2) + post;
            scan_spec(h, 0, alt).events == seq![
                EventV::CommandEnd(parse_exit_code(code1).unwrap()),
                EventV::CommandEnd(parse_exit_code(code2).unwrap()),
            ]
        }),
{
    let m1 = d_marker(code1);
    let m2 = d_marker(code2);
    let h = pre + m1 + mid + m2 + post;
    let i1 = pre.len() as int;
    let n1 = i1 + m1.len();
    let i2 = n1 + mid.len();
    let n2 = i2 + m2.len();
    assert forall|k: int| 0 <= k < i1 implies #[trigger] h[k] != 0x1b by {
        assert(h[k] == pre[k]);
    }
    assert forall|j: int| 0 <= j < m1.len() implies h[i1 + j] == #[trigger] m1[j] by {
        assert((pre + m1)[i1 + j] == m1[j]);
        assert(h[i1 + j] == (pre + m1)[i1 + j]);
    }
    assert forall|k: int| n1 <= k < i2 implies #[trigger] h[k] != 0x1b by {
        assert(((pre + m1) + mid)[k] == mid[k - n1]);
        assert(h[k] == ((pre + m1) + mid)[k]);
    }
    assert forall|j: int| 0 <= j < m2.len() implies h[i2 + j] == #[trigger] m2[j] by {
        assert((((pre + m1) + mid) + m2)[i2 + j] == m2[j]);
        assert(h[i2 + j] == (((pre + m1) + mid) + m2)[i2 + j]);
    }
    assert forall|k: int| n2 <= k < h.len() implies #[trigger] h[k] != 0x1b by {
        assert(h[k] == post[k - n2]);
    }
    lemma_scan_clean(h, 0, i1, alt);
    lemma_scan_at_d(h, i1, code1, alt);
    lemma_scan_clean(h, n1, i2, alt);
    lemma_scan_at_d(h, i2, code2, alt);
    lemma_scan_clean(h, n2, h.len() as int, alt);
    let n1v = parse_exit_code(code1).unwrap();
    let n2v = parse_exit_code(code2).unwrap();
    assert(scan_spec(h, 0, alt).events =~= seq![EventV::CommandEnd(n1v), EventV::CommandEnd(n2v)]);
}

/// Scanning at a command-start marker consumes exactly its seven bytes
/// and emits one command-start event.
#[verifier::rlimit(100)]
pub proof fn lemma_scan_at_c(h: Seq<u8>, i: int, alt: bool)
    requires
        0 <= i,
        i + 7 <= h.len(),
        forall|j: int| 0 <= j < 7 ==> h[i + j] == #[trigger] cmd_start_m()[j],
    ensures
        scan_spec(h, i, alt) == scan_cons(EventV::CommandStart, scan_spec(h, i + 7, alt)),
{
    assert(h[i] == esc()) by {
        assert(h[i + 0] == cmd_start_m()[0]);
    }
    assert(h[i + 1] == 0x5d) by {
        assert(h[i + 1] == cmd_start_m()[1]);
    }
    assert(h[i + 6] == 0x43) by {
        assert(h[i + 6] == cmd_start_m()[6]);
    }
    assert(!bytes_at(h, alt_enter_m(), i)) by {
        assert(alt_enter_m()[1] == 0x5b);
    }
    assert(!bytes_at(h, alt_exit_m(), i)) by {
        assert(alt_exit_m()[1] == 0x5b);
    }
    assert(!bytes_at(h, prompt_m(), i)) by {
        assert(prompt_m()[6] == 0x41);
    }
    assert(bytes_at(h, cmd_start_m(), i));
}

/// Law: a stream holding a command-start marker and then a well-formed
/// command-end marker yields exactly the two events, in order — the
/// stream of one whole command cycle, with any marker-free bytes
/// around and between the markers.
#[verifier::rlimit(100)]
pub proof fn lemma_command_cycle(
    pre: Seq<u8>,
    mid: Seq<u8>,
    code: Seq<u8>,
    post: Seq<u8>,
    alt: bool,
)
    requires
        forall|k: int| 0 <= k < pre.len() ==> #[trigger] pre[k] != 0x1b,
        forall|k: int| 0 <= k < mid.len() ==> #[trigger] mid[k] != 0x1b,
        forall|k: int| 0 <= k < code.len() ==> #[trigger] code[k] != 0x1b && code[k] != 0x07,
        forall|k: int| 0 <= k < post.len() ==> #[trigger] post[k] != 0x1b,
        parse_exit_code(code) is Some,
    ensures
        ({
            let h = pre + cmd_start_m() + mid + d_marker(code) + post;
            let out = scan_spec(h, 0, alt);
            &&& out.events == seq![
                EventV::CommandStart,
                EventV::CommandEnd(parse_exit_code(code).unwrap()),
            ]
            &&& out.git is None
            &&& out.alt == alt
        }),
{
    let m2 = d_marker(code);
    let h = pre + cmd_start_m() + mid + m2 + post;
    let i1 = pre.len() as int;
    let n1 = i1 + 7;
    let i2 = n1 + mid.len();
    let n2 = i2 + m2.len();
    assert forall|k: int| 0 <= k < i1 implies #[trigger] h[k] != 0x1b by {
        assert(h[k] == pre[k]);
    }
    assert forall|j: int| 0 <= j < 7 implies h[i1 + j] == #[trigger] cmd_start_m()[j] by {
        assert((pre + cmd_start_m())[i1 + j] == cmd_start_m()[j]);
        assert(h[i1 + j] == (pre + cmd_start_m())[i1 + j]);
    }
    assert forall|k: int| n1 <= k < i2 implies #[trigger] h[k] != 0x1b by {
        assert(((pre + cmd_start_m()) + mid)[k] == mid[k - n1]);
        assert(h[k] == ((pre + cmd_start_m()) + mid)[k]);
    }
    assert forall|j: int| 0 <= j < m2.len() implies h[i2 + j] == #[trigger] m2[j] by {
        assert((((pre + cmd_start_m()) + mid) + m2)[i2 + j] == m2[j]);
        assert(h[i2 + j] == (((pre + cmd_start_m()) + mid) + m2)[i2 + j]);
    }
    assert forall|k: int| n2 <= k < h.len() implies #[trigger] h[k] != 0x1b by {
        assert(h[k] == post[k - n2]);
    }
    lemma_scan_clean(h, 0, i1, alt);
    lemma_scan_at_c(h, i1, alt);
    lemma_scan_clean(h, n1, i2, alt);
    lemma_scan_at_d(h, i2, code, alt);
    lemma_scan_clean(h, n2, h.len() as int, alt);
    let n = parse_exit_code(code).unwrap();
    assert(scan_spec(h, 0, alt).events =~= seq![EventV::CommandStart, EventV::CommandEnd(n)]);
}

/// The bytes of a complete git marker with its payload and bell.
pub open spec fn g_marker(pay: Seq<u8>) -> Seq<u8> {
    git_m() + pay + seq![0x07u8]
}

/// Scanning at a complete git marker consumes exactly the marker and
/// records the parsed payload unless a later one supersedes it.
#[verifier::rlimit(100)]
pub proof fn lemma_scan_at_g(h: Seq<u8>, i: int, pay: Seq<u8>, alt: bool)
    requires
        0 <= i,
        i + g_marker(pay).len() <= h.len(),
        forall|j: int| 0 <= j < g_marker(pay).len() ==> h[i + j] == #[trigger] g_marker(pay)[j],
        forall|k: int| 0 <= k < pay.len() ==> #[trigger] pay[k] != 0x1b && pay[k] != 0x07,
    ensures
        ({
            let next = i + g_marker(pay).len();
            scan_spec(h, i, alt) == (match git_parse(pay) {
                Some(g) => scan_git(g, scan_spec(h, next, alt)),
                None => scan_spec(h, next, alt),
            })
        }),
{
    let m = g_marker(pay);
    let end = i + 8 + pay.len();
    let next = i + m.len();
    assert(m.len() == 9 + pay.len());
    assert forall|j: int| 0 <= j < 8 implies h[i + j] == #[trigger] git_m()[j] by {
        assert(m[j] == git_m()[j]);
        assert(h[i + j] == m[j]);
    }
    assert(h[i] == esc()) by {
        assert(h[i + 0] == git_m()[0]);
    }
    assert(h[i + 1] == 0x5d) by {
        assert(h[i + 1] == git_m()[1]);
    }
    assert(h[i + 6] == 0x47) by {
        assert(h[i + 6] == git_m()[6]);
    }
    assert(h[i + 7] == 0x3b) by {
        assert(h[i + 7] == git_m()[7]);
    }
    assert forall|k: int| 0 <= k < pay.len() implies h[i + 8 + k] == #[trigger] pay[k] by {
        assert(m[8 + k] == pay[k]);
        assert(h[i + (8 + k)] == m[8 + k]);
    }
    assert(h[end] == bel()) by {
        assert(m[8 + pay.len() as int] == 0x07);
        assert(h[i + 8 + pay.len() as int] == m[8 + pay.len() as int]);
    }
    assert(!bytes_at(h, alt_enter_m(), i)) by {
        assert(alt_enter_m()[1] == 0x5b);
    }
    assert(!bytes_at(h, alt_exit_m(), i)) by {
        assert(alt_exit_m()[1] == 0x5b);
    }
    assert(!bytes_at(h, prompt_m(), i)) by {
        assert(prompt_m()[6] == 0x41);
    }
    assert(!bytes_at(h, cmd_start_m(), i)) by {
        assert(cmd_start_m()[6] == 0x43);
    }
    assert(!bytes_at(h, cmd_end_m(), i)) by {
        assert(cmd_end_m()[6] == 0x44);
    }
    assert(bytes_at(h, git_m(), i));
    lemma_find_term(h, i + 8);
    let f = find_term(h, i + 8);
    assert forall|k: int| i + 8 <= k < end implies h[k] != bel() && h[k] != esc() by {
        assert(h[k] == pay[k - (i + 8)]);
    }
    if f < end {
        assert(h[f] == bel() || h[f] == esc());
        assert(false);
    }
    if f > end {
        assert(h[end] != bel() && h[end] != esc());
        assert(false);
    }
    assert(payload_end(h, i + 8) == (PayloadEndV::Term { end, next }));
    assert(h.subrange(i + 8, end) =~= pay);
}

/// Law: of two complete git payloads in the same buffer the rightmost
/// wins — the recorded git state is the second payload's when it
/// parses, and no other event is emitted.
#[verifier::rlimit(100)]
pub proof fn lemma_git_rightmost(
    pre: Seq<u8>,
    pay1: Seq<u8>,
    mid: Seq<u8>,
    pay2: Seq<u8>,
    post: Seq<u8>,
    alt: bool,
)
    requires
        forall|k: int| 0 <= k < pre.len() ==> #[trigger] pre[k] != 0x1b,
        forall|k: int| 0 <= k < pay1.len() ==> #[trigger] pay1[k] != 0x1b && pay1[k] != 0x07,
        forall|k: int| 0 <= k < mid.len() ==> #[trigger] mid[k] != 0x1b,
        forall|k: int| 0 <= k < pay2.len() ==> #[trigger] pay2[k] != 0x1b && pay2[k] != 0x07,
        forall|k: int| 0 <= k < post.len() ==> #[trigger] post[k] != 0x1b,
    ensures
        ({
            let h = pre + g_marker(pay1) + mid + g_marker(pay2) + post;
            let out = scan_spec(h, 0, alt);
            &&& out.events == Seq::<EventV>::empty()
            &&& out.git == (if git_parse(pay2) is Some {
                git_parse(pay2)
            } else {
                git_parse(pay1)
            })
            &&& out.alt == alt
        }),
{
    let m1 = g_marker(pay1);
    let m2 = g_marker(pay2);
    let h = pre + m1 + mid + m2 + post;
    let i1 = pre.len() as int;
    let n1 = i1 + m1.len();
    let i2 = n1 + mid.len();
    let n2 = i2 + m2.len();
    assert forall|k: int| 0 <= k < i1 implies #[trigger] h[k] != 0x1b by {
        assert(h[k] == pre[k]);
    }
    assert forall|j: int| 0 <= j < m1.len() implies h[i1 + j] == #[trigger] m1[j] by {
        assert((pre + m1)[i1 + j] == m1[j]);
        assert(h[i1 + j] == (pre + m1)[i1 + j]);
    }
    assert forall|k: int| n1 <= k < i2 implies #[trigger] h[k] != 0x1b by {
        assert(((pre + m1) + mid)[k] == mid[k - n1]);
        assert(h[k] == ((pre + m1) + mid)[k]);
    }
    assert forall|j: int| 0 <= j < m2.len() implies h[i2 + j] == #[trigger] m2[j] by {
        assert((((pre + m1) + mid) + m2)[i2 + j] == m2[j]);
        assert(h[i2 + j] == (((pre + m1) + mid) + m2)[i2 + j]);
    }
    assert forall|k: int| n2 <= k < h.len() implies #[trigger] h[k] != 0x1b by {
        assert(h[k] == post[k - n2]);
    }
    lemma_scan_clean(h, 0, i1, alt);
    lemma_scan_at_g(h, i1, pay1, alt);
    lemma_scan_clean(h, n1, i2, alt);
    lemma_scan_at_g(h, i2, pay2, alt);
    lemma_scan_clean(h, n2, h.len() as int, alt);
}

proof fn lemma_scan_pos_bounds(h: Seq<u8>, pos: int, alt: bool)
    requires
        0 <= pos <= h.len(),
    ensures
        pos <= scan_spec(h, pos, alt).pos <= h.len(),
    decreases h.len() - pos,
{
    if pos < h.len() {
        if h[pos] != esc() {
            lemma_scan_pos_bounds(h, pos + 1, alt);
        } else if bytes_at(h, alt_enter_m(), pos) {
            lemma_scan_pos_bounds(h, pos + 8, true);
        } else if bytes_at(h, alt_exit_m(), pos) {
            lemma_scan_pos_bounds(h, pos + 8, false);
        } else if bytes_at(h, prompt_m(), pos) {
            lemma_scan_pos_bounds(h, pos + 7, alt);
        } else if bytes_at(h, cmd_start_m(), pos) {
            lemma_scan_pos_bounds(h, pos + 7, alt);
        } else if bytes_at(h, cmd_end_m(), pos) {
            lemma_find_term(h, pos + 7);
            match payload_end(h, pos + 7) {
                PayloadEndV::Term { end, next } => {
                    lemma_scan_pos_bounds(h, next, alt);
                },
                PayloadEndV::Bad { at } => {
                    lemma_scan_pos_bounds(h, at, alt);
                },
                PayloadEndV::More => {},
            }
        } else if bytes_at(h, git_m(), pos) {
            lemma_find_term(h, pos + 8);
            match payload_end(h, pos + 8) {
                PayloadEndV::Term { end, next } => {
                    lemma_scan_pos_bounds(h, next, alt);
                },
                PayloadEndV::Bad { at } => {
                    lemma_scan_pos_bounds(h, at, alt);
                },
                PayloadEndV::More => {},
            }
        } else if bytes_at(h, dir_m(), pos) {
            lemma_find_term(h, pos + 18);
            match payload_end(h, pos + 18) {
                PayloadEndV::Term { end, next } => {
                    lemma_scan_pos_bounds(h, next, alt);
                },
                PayloadEndV::Bad { at } => {
                    lemma_scan_pos_bounds(h, at, alt);
                },
                PayloadEndV::More => {},
            }
        } else if any_partial_at(h, pos) {
        } else {
            lemma_scan_pos_bounds(h, pos + 1, alt);
        }
    }
}

proof fn lemma_find_term_extend(buf: Seq<u8>, ext: Seq<u8>, s: int)
    requires
        0 <= s <= buf.len(),
        find_term(buf, s) < buf.len(),
    ensures
        find_term(buf + ext, s) == find_term(buf, s),
{
    let w = buf + ext;
    let t = find_term(buf, s);
    lemma_find_term(buf, s);
    lemma_find_term(w, s);
    let f = find_term(w, s);
    assert(w[t] == buf[t]);
    if f < t {
        assert(w[f] == buf[f]);
        assert(false);
    }
    if f > t {
        assert(w[t] != bel() && w[t] != esc());
        assert(false);
    }
}

proof fn lemma_payload_end_extend(buf: Seq<u8>, ext: Seq<u8>, s: int)
    requires
        0 <= s <= buf.len(),
        !(payload_end(buf, s) is More),
    ensures
        payload_end(buf + ext, s) == payload_end(buf, s),
{
    let w = buf + ext;
    lemma_find_term(buf, s);
    let t = find_term(buf, s);
    lemma_find_term_extend(buf, ext, s);
    assert(forall|k: int| 0 <= k < buf.len() ==> (buf + ext)[k] == #[trigger] buf[k]);
}

proof fn lemma_plain_esc_extends(buf: Seq<u8>, ext: Seq<u8>, q: int)
    requires
        0 <= q < buf.len(),
        !bytes_at(buf, alt_enter_m(), q),
        !bytes_at(buf, alt_exit_m(), q),
        !bytes_at(buf, prompt_m(), q),
        !bytes_at(buf, cmd_start_m(), q),
        !bytes_at(buf, cmd_end_m(), q),
        !bytes_at(buf, git_m(), q),
        !bytes_at(buf, dir_m(), q),
        !any_partial_at(buf, q),
    ensures
        !bytes_at(buf + ext, alt_enter_m(), q),
        !bytes_at(buf + ext, alt_exit_m(), q),
        !bytes_at(buf + ext, prompt_m(), q),
        !bytes_at(buf + ext, cmd_start_m(), q),
        !bytes_at(buf + ext, cmd_end_m(), q),
        !bytes_at(buf + ext, git_m(), q),
        !bytes_at(buf + ext, dir_m(), q),
        !any_partial_at(buf + ext, q),
{
    let w = buf + ext;
    lemma_one_marker_extends(buf, ext, q, alt_enter_m());
    lemma_one_marker_extends(buf, ext, q, alt_exit_m());
    lemma_one_marker_extends(buf, ext, q, prompt_m());
    lemma_one_marker_extends(buf, ext, q, cmd_start_m());
    lemma_one_marker_extends(buf, ext, q, cmd_end_m());
    lemma_one_marker_extends(buf, ext, q, git_m());
    lemma_one_marker_extends(buf, ext, q, dir_m());
}

proof fn lemma_one_marker_extends(buf: Seq<u8>, ext: Seq<u8>, q: int, m: Seq<u8>)
    requires
        0 <= q < buf.len(),
        !bytes_at(buf, m, q),
        !partial_at(buf, m, q),
    ensures
        !bytes_at(buf + ext, m, q),
        !partial_at(buf + ext, m, q),
{
    let w = buf + ext;
    assert(forall|k: int| 0 <= k < buf.len() ==> w[k] == #[trigger] buf[k]);
    if bytes_at(w, m, q) {
        if q + m.len() <= buf.len() {
            assert(forall|j: int| 0 <= j < m.len() ==> buf[q + j] == #[trigger] w[q + j]);
            assert(bytes_at(buf, m, q));
        } else {
            assert(forall|j: int| 0 <= j < buf.len() - q ==> buf[q + j] == #[trigger] w[q + j]);
            assert(partial_at(buf, m, q));
        }
        assert(false);
    }
    if partial_at(w, m, q) {
        assert(w.len() - q < m.len());
        assert(forall|j: int| 0 <= j < buf.len() - q ==> buf[q + j] == #[trigger] w[q + j]);
        if buf.len() - q < m.len() {
            assert(partial_at(buf, m, q));
        } else {
            assert forall|j: int| 0 <= j < m.len() implies buf[q + j] == #[trigger] w[q
                + j] by {
                assert(0 <= j < w.len() - q);
            }
            assert(bytes_at(buf, m, q));
        }
        assert(false);
    }
}

/// The composition equation of `lemma_scan_extend`, as one predicate.
pub open spec fn extend_ok(buf: Seq<u8>, ext: Seq<u8>, cursor: int, alt: bool) -> bool {
    let o1 = scan_spec(buf, cursor, alt);
    let o2 = scan_spec(buf + ext, o1.pos, o1.alt);
    let w = scan_spec(buf + ext, cursor, alt);
    &&& w.events == o1.events + o2.events
    &&& w.git == (if o2.git is Some {
        o2.git
    } else {
        o1.git
    })
    &&& w.pos == o2.pos
    &&& w.alt == o2.alt
}

/// Law: feeding more bytes composes with the scan already done — the
/// scan of the extended buffer from the old cursor yields exactly the
/// old scan's events followed by the events of scanning the extension
/// from the old stopping point, the later git payload winning. With
/// the cursor ensures on `process`, this is why each completed marker
/// is consumed exactly once however the byte stream is chunked across
/// calls.
#[verifier::rlimit(100)]
#[verifier::spinoff_prover]
pub proof fn lemma_scan_extend(buf: Seq<u8>, ext: Seq<u8>, cursor: int, alt: bool)
    requires
        0 <= cursor <= buf.len(),
    ensures
        extend_ok(buf, ext, cursor, alt),
    decreases buf.len() - cursor, 1int,
{
    let h = buf;
    let w = buf + ext;
    let o1 = scan_spec(buf, cursor, alt);
    lemma_scan_pos_bounds(buf, cursor, alt);
    assert(forall|k: int| 0 <= k < buf.len() ==> w[k] == #[trigger] buf[k]);
    if cursor == buf.len() {
        assert(o1 == (ScanOut {
            events: Seq::<EventV>::empty(),
            git: None,
            pos: buf.len() as int,
            alt,
        }));
        assert(Seq::<EventV>::empty() + scan_spec(w, cursor, alt).events =~= scan_spec(
            w,
            cursor,
            alt,
        ).events);
        return ;
    }
    let b = buf[cursor];
    assert(w[cursor] == b);
    if b != esc() {
        lemma_scan_extend(buf, ext, cursor + 1, alt);
        return ;
    }
    if bytes_at(buf, alt_enter_m(), cursor) {
        assert(bytes_at(w, alt_enter_m(), cursor)) by {
            assert(forall|j: int|
                0 <= j < alt_enter_m().len() ==> #[trigger] w[cursor + j] == buf[cursor + j]);
        }
        lemma_scan_extend(buf, ext, cursor + 8, true);
        return ;
    }
    if bytes_at(buf, alt_exit_m(), cursor) {
        assert(bytes_at(w, alt_exit_m(), cursor)) by {
            assert(forall|j: int|
                0 <= j < alt_exit_m().len() ==> #[trigger] w[cursor + j] == buf[cursor + j]);
        }
        assert(!bytes_at(w, alt_enter_m(), cursor)) by {
            assert(w[cursor + 7] == alt_exit_m()[7]);
            assert(alt_enter_m()[7] == 0x68 && alt_exit_m()[7] == 0x6c);
        }
        lemma_scan_extend(buf, ext, cursor + 8, false);
        return ;
    }
    if bytes_at(buf, prompt_m(), cursor) {
        assert(bytes_at(w, prompt_m(), cursor)) by {
            assert(forall|j: int|
                0 <= j < prompt_m().len() ==> #[trigger] w[cursor + j] == buf[cursor + j]);
        }
        assert(w[cursor + 1] == prompt_m()[1] && prompt_m()[1] == 0x5d);
        assert(!bytes_at(w, alt_enter_m(), cursor)) by {
            assert(alt_enter_m()[1] == 0x5b);
        }
        assert(!bytes_at(w, alt_exit_m(), cursor)) by {
            assert(alt_exit_m()[1] == 0x5b);
        }
        lemma_scan_extend(buf, ext, cursor + 7, alt);
        let o1r = scan_spec(buf, cursor + 7, alt);
        let o2 = scan_spec(w, o1r.pos, o1r.alt);
        assert((seq![EventV::PromptShown] + o1r.events) + o2.events =~= seq![EventV::PromptShown]
            + (o1r.events + o2.events));
        return ;
    }
    if bytes_at(buf, cmd_start_m(), cursor) {
        assert(bytes_at(w, cmd_start_m(), cursor)) by {
            assert(forall|j: int|
                0 <= j < cmd_start_m().len() ==> #[trigger] w[cursor + j] == buf[cursor + j]);
        }
        assert(w[cursor + 1] == cmd_start_m()[1] && cmd_start_m()[1] == 0x5d);
        assert(w[cursor + 6] == cmd_start_m()[6] && cmd_start_m()[6] == 0x43);
        assert(!bytes_at(w, alt_enter_m(), cursor)) by {
            assert(alt_enter_m()[1] == 0x5b);
        }
        assert(!bytes_at(w, alt_exit_m(), cursor)) by {
            assert(alt_exit_m()[1] == 0x5b);
        }
        assert(!bytes_at(w, prompt_m(), cursor)) by {
            assert(prompt_m()[6] == 0x41);
        }
        lemma_scan_extend(buf, ext, cursor + 7, alt);
        let o1r = scan_spec(buf, cursor + 7, alt);
        let o2 = scan_spec(w, o1r.pos, o1r.alt);
        assert((seq![EventV::CommandStart] + o1r.events) + o2.events =~= seq![EventV::CommandStart]
            + (o1r.events + o2.events));
        return ;
    }
    if bytes_at(buf, cmd_end_m(), cursor) {
        lemma_scan_extend_cmd_end(buf, ext, cursor, alt);
        return ;
    }
    if bytes_at(buf, git_m(), cursor) {
        lemma_scan_extend_git(buf, ext, cursor, alt);
        return ;
    }
    if bytes_at(buf, dir_m(), cursor) {
        lemma_scan_extend_dir(buf, ext, cursor, alt);
        return ;
    }
    if any_partial_at(buf, cursor) {
        assert(o1.pos == cursor);
        assert(Seq::<EventV>::empty() + scan_spec(w, cursor, alt).events =~= scan_spec(
            w,
            cursor,
            alt,
        ).events);
        return ;
    }
    // no marker matches or could still complete at this escape byte,
    // in the buffer or in any extension of it
    lemma_plain_esc_extends(buf, ext, cursor);
    lemma_scan_extend(buf, ext, cursor + 1, alt);
}

#[verifier::rlimit(100)]
#[verifier::spinoff_prover]
proof fn lemma_scan_extend_cmd_end(buf: Seq<u8>, ext: Seq<u8>, cursor: int, alt: bool)
    requires
        0 <= cursor < buf.len(),
        buf[cursor] == 0x1b,
        !bytes_at(buf, alt_enter_m(), cursor),
        !bytes_at(buf, alt_exit_m(), cursor),
        !bytes_at(buf, prompt_m(), cursor),
        !bytes_at(buf, cmd_start_m(), cursor),
        bytes_at(buf, cmd_end_m(), cursor),
    ensures
        extend_ok(buf, ext, cursor, alt),
    decreases buf.len() - cursor, 0int,
{
    let w = buf + ext;
    let o1 = scan_spec(buf, cursor, alt);
    assert(forall|k: int| 0 <= k < buf.len() ==> w[k] == #[trigger] buf[k]);
    assert(bytes_at(w, cmd_end_m(), cursor)) by {
        assert(forall|j: int|
            0 <= j < cmd_end_m().len() ==> #[trigger] w[cursor + j] == buf[cursor + j]);
    }
    assert(w[cursor + 1] == cmd_end_m()[1] && cmd_end_m()[1] == 0x5d);
    assert(w[cursor + 6] == cmd_end_m()[6] && cmd_end_m()[6] == 0x44);
    assert(!bytes_at(w, alt_enter_m(), cursor)) by {
        assert(alt_enter_m()[1] == 0x5b);
    }
    assert(!bytes_at(w, alt_exit_m(), cursor)) by {
        assert(alt_exit_m()[1] == 0x5b);
    }
    assert(!bytes_at(w, prompt_m(), cursor)) by {
        assert(prompt_m()[6] == 0x41);
    }
    assert(!bytes_at(w, cmd_start_m(), cursor)) by {
        assert(cmd_start_m()[6] == 0x43);
    }
    lemma_find_term(buf, cursor + 7);
    match payload_end(buf, cursor + 7) {
        PayloadEndV::Term { end, next } => {
            lemma_payload_end_extend(buf, ext, cursor + 7);
            assert(w.subrange(cursor + 7, end) =~= buf.subrange(cursor + 7, end));
            lemma_scan_extend(buf, ext, next, alt);
            let params = buf.subrange(cursor + 7, end);
            if params.len() > 0 && params[0] == 0x3b && parse_exit_code(
                params.drop_first(),
            ) is Some {
                let n = parse_exit_code(params.drop_first()).unwrap();
                let o1r = scan_spec(buf, next, alt);
                let o2 = scan_spec(w, o1r.pos, o1r.alt);
                assert((seq![EventV::CommandEnd(n)] + o1r.events) + o2.events =~= seq![
                    EventV::CommandEnd(n),
                ] + (o1r.events + o2.events));
            }
        },
        PayloadEndV::Bad { at } => {
            lemma_payload_end_extend(buf, ext, cursor + 7);
            lemma_scan_extend(buf, ext, at, alt);
        },
        PayloadEndV::More => {
            assert(o1.pos == cursor);
            assert(Seq::<EventV>::empty() + scan_spec(w, cursor, alt).events =~= scan_spec(
                w,
                cursor,
                alt,
            ).events);
        },
    }
}

#[verifier::rlimit(100)]
#[verifier::spinoff_prover]
proof fn lemma_scan_extend_git(buf: Seq<u8>, ext: Seq<u8>, cursor: int, alt: bool)
    requires
        0 <= cursor < buf.len(),
        buf[cursor] == 0x1b,
        !bytes_at(buf, alt_enter_m(), cursor),
        !bytes_at(buf, alt_exit_m(), cursor),
        !bytes_at(buf, prompt_m(), cursor),
        !bytes_at(buf, cmd_start_m(), cursor),
        !bytes_at(buf, cmd_end_m(), cursor),
        bytes_at(buf, git_m(), cursor),
    ensures
        extend_ok(buf, ext, cursor, alt),
    decreases buf.len() - cursor, 0int,
{
    let w = buf + ext;
    let o1 = scan_spec(buf, cursor, alt);
    assert(forall|k: int| 0 <= k < buf.len() ==> w[k] == #[trigger] buf[k]);
    assert(bytes_at(w, git_m(), cursor)) by {
        assert(forall|j: int|
            0 <= j < git_m().len() ==> #[trigger] w[cursor + j] == buf[cursor + j]);
    }
    assert(w[cursor + 1] == git_m()[1] && git_m()[1] == 0x5d);
    assert(w[cursor + 6] == git_m()[6] && git_m()[6] == 0x47);
    assert(!bytes_at(w, alt_enter_m(), cursor)) by {
        assert(alt_enter_m()[1] == 0x5b);
    }
    assert(!bytes_at(w, alt_exit_m(), cursor)) by {
        assert(alt_exit_m()[1] == 0x5b);
    }
    assert(!bytes_at(w, prompt_m(), cursor)) by {
        assert(prompt_m()[6] == 0x41);
    }
    assert(!bytes_at(w, cmd_start_m(), cursor)) by {
        assert(cmd_start_m()[6] == 0x43);
    }
    assert(!bytes_at(w, cmd_end_m(), cursor)) by {
        assert(cmd_end_m()[6] == 0x44);
    }
    lemma_find_term(buf, cursor + 8);
    match payload_end(buf, cursor + 8) {
        PayloadEndV::Term { end, next } => {
            lemma_payload_end_extend(buf, ext, cursor + 8);
            assert(w.subrange(cursor + 8, end) =~= buf.subrange(cursor + 8, end));
            lemma_scan_extend(buf, ext, next, alt);
        },
        PayloadEndV::Bad { at } => {
            lemma_payload_end_extend(buf, ext, cursor + 8);
            lemma_scan_extend(buf, ext, at, alt);
        },
        PayloadEndV::More => {
            assert(o1.pos == cursor);
            assert(Seq::<EventV>::empty() + scan_spec(w, cursor, alt).events =~= scan_spec(
                w,
                cursor,
                alt,
            ).events);
        },
    }
}

#[verifier::rlimit(100)]
#[verifier::spinoff_prover]
proof fn lemma_scan_extend_dir(buf: Seq<u8>, ext: Seq<u8>, cursor: int, alt: bool)
    requires
        0 <= cursor < buf.len(),
        buf[cursor] == 0x1b,
        !bytes_at(buf, alt_enter_m(), cursor),
        !bytes_at(buf, alt_exit_m(), cursor),
        !bytes_at(buf, prompt_m(), cursor),
        !bytes_at(buf, cmd_start_m(), cursor),
        !bytes_at(buf, cmd_end_m(), cursor),
        !bytes_at(buf, git_m(), cursor),
        bytes_at(buf, dir_m(), cursor),
    ensures
        extend_ok(buf, ext, cursor, alt),
    decreases buf.len() - cursor, 0int,
{
    let w = buf + ext;
    let o1 = scan_spec(buf, cursor, alt);
    assert(forall|k: int| 0 <= k < buf.len() ==> w[k] == #[trigger] buf[k]);
    assert(bytes_at(w, dir_m(), cursor)) by {
        assert(forall|j: int|
            0 <= j < dir_m().len() ==> #[trigger] w[cursor + j] == buf[cursor + j]);
    }
    assert(w[cursor + 1] == dir_m()[1] && dir_m()[1] == 0x5d);
    assert(w[cursor + 5] == dir_m()[5] && dir_m()[5] == 0x37);
    assert(!bytes_at(w, alt_enter_m(), cursor)) by {
        assert(alt_enter_m()[1] == 0x5b);
    }
    assert(!bytes_at(w, alt_exit_m(), cursor)) by {
        assert(alt_exit_m()[1] == 0x5b);
    }
    assert(!bytes_at(w, prompt_m(), cursor)) by {
        assert(prompt_m()[5] == 0x3b);
    }
    assert(!bytes_at(w, cmd_start_m(), cursor)) by {
        assert(cmd_start_m()[5] == 0x3b);
    }
    assert(!bytes_at(w, cmd_end_m(), cursor)) by {
        assert(cmd_end_m()[5] == 0x3b);
    }
    assert(!bytes_at(w, git_m(), cursor)) by {
        assert(git_m()[5] == 0x3b);
    }
    lemma_find_term(buf, cursor + 18);
    match payload_end(buf, cursor + 18) {
        PayloadEndV::Term { end, next } => {
            lemma_payload_end_extend(buf, ext, cursor + 18);
            assert(w.subrange(cursor + 18, end) =~= buf.subrange(cursor + 18, end));
            lemma_scan_extend(buf, ext, next, alt);
            let pay = buf.subrange(cursor + 18, end);
            if pay.len() > 0 {
                let o1r = scan_spec(buf, next, alt);
                let o2 = scan_spec(w, o1r.pos, o1r.alt);
                assert((seq![EventV::Directory(lossy_of(pay))] + o1r.events) + o2.events =~= seq![
                    EventV::Directory(lossy_of(pay)),
                ] + (o1r.events + o2.events));
            }
        },
        PayloadEndV::Bad { at } => {
            lemma_payload_end_extend(buf, ext, cursor + 18);
            lemma_scan_extend(buf, ext, at, alt);
        },
        PayloadEndV::More => {
            assert(o1.pos == cursor);
            assert(Seq::<EventV>::empty() + scan_spec(w, cursor, alt).events =~= scan_spec(
                w,
                cursor,
                alt,
            ).events);
        },
    }
}

} // verus!
