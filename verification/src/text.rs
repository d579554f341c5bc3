//! Character and string helpers shared by the scanner, the export
//! formatters and the search filters: decimal formatting, ASCII
//! whitespace trimming, substring search, and HTML escaping.

use vstd::prelude::*;

verus! {

/// ASCII whitespace, the characters stripped around protocol payloads.
pub open spec fn is_ascii_ws(c: char) -> bool {
    c == ' ' || c == '\t' || c == '\n' || c == '\r' || c == '\u{b}' || c == '\u{c}'
}

/// The decimal digit character for a value below ten.
pub open spec fn dec_digit(d: nat) -> char {
    if d == 0 { '0' }
    else if d == 1 { '1' }
    else if d == 2 { '2' }
    else if d == 3 { '3' }
    else if d == 4 { '4' }
    else if d == 5 { '5' }
    else if d == 6 { '6' }
    else if d == 7 { '7' }
    else if d == 8 { '8' }
    else { '9' }
}

/// Decimal representation of a natural number, most significant digit first.
pub open spec fn u64_dec(n: nat) -> Seq<char>
    decreases n,
{
    if n < 10 { seq![dec_digit(n)] } else { u64_dec(n / 10).push(dec_digit(n % 10)) }
}

/// Decimal representation of an integer, with a leading minus sign when negative.
pub open spec fn i64_dec(n: int) -> Seq<char> {
    if n < 0 { seq!['-'] + u64_dec((-n) as nat) } else { u64_dec(n as nat) }
}

fn digit_str(d: u64) -> (r: &'static str)
    requires
        d < 10,
    ensures
        r@ == seq![dec_digit(d as nat)],
{
    proof {
        reveal_strlit("0");
        reveal_strlit("1");
        reveal_strlit("2");
        reveal_strlit("3");
        reveal_strlit("4");
        reveal_strlit("5");
        reveal_strlit("6");
        reveal_strlit("7");
        reveal_strlit("8");
        reveal_strlit("9");
    }
    if d == 0 { "0" }
    else if d == 1 { "1" }
    else if d == 2 { "2" }
    else if d == 3 { "3" }
    else if d == 4 { "4" }
    else if d == 5 { "5" }
    else if d == 6 { "6" }
    else if d == 7 { "7" }
    else if d == 8 { "8" }
    else { "9" }
}

/// Formats an unsigned value in decimal.
pub fn u64_to_string(n: u64) -> (s: String)
    ensures
        s@ == u64_dec(n as nat),
    decreases n,
{
    if n < 10 {
        String::from_str(digit_str(n))
    } else {
        let mut s = u64_to_string(n / 10);
        s.append(digit_str(n % 10));
        s
    }
}

/// Formats a signed value in decimal.
pub fn i64_to_string(n: i64) -> (s: String)
    ensures
        s@ == i64_dec(n as int),
{
    if n < 0 {
        let m: u64 = (-(n as i128)) as u64;
        let mut s = String::from_str("-");
        proof {
            reveal_strlit("-");
        }
        s.append(u64_to_string(m).as_str());
        s
    } else {
        u64_to_string(n as u64)
    }
}

/// Relies on String::push: appends the given character to the end of
/// the string.
#[verifier::external_body]
pub(crate) fn push_char(s: &mut String, c: char)
    ensures
        final(s)@ == old(s)@.push(c),
{
    s.push(c);
}

/// Unicode lowercasing as performed by str::to_lowercase; the result
/// depends on the characters alone.
pub uninterp spec fn lower_of(s: Seq<char>) -> Seq<char>;

/// Relies on str::to_lowercase: Unicode-lowercases every character;
/// an empty string stays empty.
#[verifier::external_body]
pub(crate) fn to_lowercase(s: &str) -> (r: String)
    ensures
        r@ == lower_of(s@),
        s@.len() == 0 ==> r@.len() == 0,
{
    s.to_lowercase()
}

/// The text that lossy UTF-8 decoding yields for a byte sequence; the
/// result depends on the bytes alone.
pub uninterp spec fn lossy_of(b: Seq<u8>) -> Seq<char>;

/// Relies on String::from_utf8_lossy: decodes UTF-8, replacing invalid
/// sequences with the replacement character; ASCII bytes decode to
/// themselves.
#[verifier::external_body]
pub(crate) fn lossy_string(bytes: &Vec<u8>) -> (r: String)
    ensures
        r@ == lossy_of(bytes@),
        (forall|i: int| 0 <= i < bytes@.len() ==> bytes@[i] < 0x80) ==> r@ == bytes@.map_values(
            |b: u8| b as char,
        ),
{
    String::from_utf8_lossy(bytes).into_owned()
}

/// Whether every character of the sequence is ASCII whitespace.
pub open spec fn all_ws(s: Seq<char>) -> bool {
    forall|i: int| 0 <= i < s.len() ==> is_ascii_ws(#[trigger] s[i])
}

/// The sequence with its leading ASCII whitespace removed.
pub open spec fn trim_front(s: Seq<char>) -> Seq<char>
    decreases s.len(),
{
    if s.len() > 0 && is_ascii_ws(s[0]) { trim_front(s.drop_first()) } else { s }
}

/// The sequence with its trailing ASCII whitespace removed.
pub open spec fn trim_back(s: Seq<char>) -> Seq<char>
    decreases s.len(),
{
    if s.len() > 0 && is_ascii_ws(s[s.len() - 1]) { trim_back(s.drop_last()) } else { s }
}

/// The sequence with ASCII whitespace removed from both ends.
pub open spec fn trim_spec(s: Seq<char>) -> Seq<char> {
    trim_back(trim_front(s))
}

proof fn lemma_trim_front_skip(s: Seq<char>, k: int)
    requires
        0 <= k <= s.len(),
        forall|i: int| 0 <= i < k ==> is_ascii_ws(#[trigger] s[i]),
    ensures
        trim_front(s) == trim_front(s.skip(k)),
    decreases k,
{
    if k > 0 {
        assert(s.drop_first() =~= s.skip(1));
        lemma_trim_front_skip(s.skip(1), k - 1);
        assert(s.skip(1).skip(k - 1) =~= s.skip(k));
    } else {
        assert(s.skip(0) =~= s);
    }
}

proof fn lemma_trim_front_clean(s: Seq<char>)
    requires
        s.len() == 0 || !is_ascii_ws(s[0]),
    ensures
        trim_front(s) == s,
{
}

proof fn lemma_trim_back_take(s: Seq<char>, k: int)
    requires
        0 <= k <= s.len(),
        forall|i: int| k <= i < s.len() ==> is_ascii_ws(#[trigger] s[i]),
    ensures
        trim_back(s) == trim_back(s.take(k)),
    decreases s.len() - k,
{
    if k < s.len() {
        assert(s.take(s.len() as int) =~= s);
        assert(s.drop_last() =~= s.take(s.len() - 1));
        lemma_trim_back_take(s.take(s.len() - 1), k);
        assert(s.take(s.len() - 1).take(k) =~= s.take(k));
    } else {
        assert(s.take(s.len() as int) =~= s);
    }
}

proof fn lemma_trim_back_clean(s: Seq<char>)
    requires
        s.len() == 0 || !is_ascii_ws(s[s.len() - 1]),
    ensures
        trim_back(s) == s,
{
}

/// Whether the character is ASCII whitespace.
pub fn is_ws_char(c: char) -> (b: bool)
    ensures
        b == is_ascii_ws(c),
{
    c == ' ' || c == '\t' || c == '\n' || c == '\r' || c == '\u{b}' || c == '\u{c}'
}

/// Whether the string is empty or entirely ASCII whitespace.
pub fn is_blank(s: &str) -> (b: bool)
    ensures
        b == all_ws(s@),
{
    let n = s.unicode_len();
    let mut i: usize = 0;
    while i < n
        invariant
            0 <= i <= n,
            n == s@.len(),
            forall|j: int| 0 <= j < i ==> is_ascii_ws(#[trigger] s@[j]),
        decreases n - i,
    {
        if !is_ws_char(s.get_char(i)) {
            return false;
        }
        i += 1;
    }
    true
}

/// Copies the string with trailing ASCII whitespace removed.
pub fn trim_end_string(s: &str) -> (r: String)
    ensures
        r@ == trim_back(s@),
{
    let n = s.unicode_len();
    let mut end: usize = n;
    while end > 0 && is_ws_char(s.get_char(end - 1))
        invariant
            0 <= end <= n,
            n == s@.len(),
            forall|i: int| end <= i < n ==> is_ascii_ws(#[trigger] s@[i]),
        decreases end,
    {
        end -= 1;
    }
    proof {
        lemma_trim_back_take(s@, end as int);
        if end > 0 {
            lemma_trim_back_clean(s@.take(end as int));
        } else {
            assert(s@.take(0) =~= Seq::<char>::empty());
            lemma_trim_back_clean(s@.take(0));
        }
    }
    let sub = s.substring_char(0, end);
    assert(sub@ =~= s@.take(end as int));
    String::from_str(sub)
}

/// Copies the string with ASCII whitespace removed from both ends.
pub fn trim_string(s: &str) -> (r: String)
    ensures
        r@ == trim_spec(s@),
{
    let n = s.unicode_len();
    let mut start: usize = 0;
    while start < n && is_ws_char(s.get_char(start))
        invariant
            0 <= start <= n,
            n == s@.len(),
            forall|j: int| 0 <= j < start ==> is_ascii_ws(#[trigger] s@[j]),
        decreases n - start,
    {
        start += 1;
    }
    proof {
        lemma_trim_front_skip(s@, start as int);
        if start < n {
            lemma_trim_front_clean(s@.skip(start as int));
        } else {
            assert(s@.skip(start as int) =~= Seq::<char>::empty());
            lemma_trim_front_clean(s@.skip(start as int));
        }
    }
    let tail = s.substring_char(start, n);
    assert(tail@ =~= s@.skip(start as int));
    trim_end_string(tail)
}

/// Whether the needle occurs at position `i` of the haystack.
pub open spec fn match_at(h: Seq<char>, n: Seq<char>, i: int) -> bool {
    0 <= i && i + n.len() <= h.len() && forall|j: int|
        0 <= j < n.len() ==> h[i + j] == #[trigger] n[j]
}

/// Whether the needle occurs anywhere in the haystack.
pub open spec fn contains_seq(h: Seq<char>, n: Seq<char>) -> bool {
    exists|i: int| match_at(h, n, i)
}

fn match_at_exec(h: &str, n: &str, hlen: usize, nlen: usize, i: usize) -> (b: bool)
    requires
        hlen == h@.len(),
        nlen == n@.len(),
        i + nlen <= hlen,
    ensures
        b == match_at(h@, n@, i as int),
{
    let mut j: usize = 0;
    while j < nlen
        invariant
            0 <= j <= nlen,
            hlen == h@.len(),
            nlen == n@.len(),
            i + nlen <= hlen,
            forall|k: int| 0 <= k < j ==> h@[i + k] == #[trigger] n@[k],
        decreases nlen - j,
    {
        if h.get_char(i + j) != n.get_char(j) {
            return false;
        }
        j += 1;
    }
    true
}

/// Whether `n` occurs as a contiguous substring of `h`.
pub fn str_contains(h: &str, n: &str) -> (b: bool)
    ensures
        b == contains_seq(h@, n@),
{
    let hlen = h.unicode_len();
    let nlen = n.unicode_len();
    if nlen > hlen {
        assert(forall|i: int| !match_at(h@, n@, i));
        return false;
    }
    let mut i: usize = 0;
    while i <= hlen - nlen
        invariant
            0 <= i <= hlen - nlen + 1,
            nlen <= hlen,
            hlen == h@.len(),
            nlen == n@.len(),
            forall|k: int| 0 <= k < i ==> !match_at(h@, n@, k),
        decreases hlen + 1 - i,
    {
        if match_at_exec(h, n, hlen, nlen, i) {
            return true;
        }
        i += 1;
    }
    assert(forall|k: int| match_at(h@, n@, k) ==> 0 <= k <= hlen - nlen);
    false
}

/// The HTML entity expansion of a single character.
pub open spec fn html_escape_char(c: char) -> Seq<char> {
    if c == '&' { seq!['&', 'a', 'm', 'p', ';'] }
    else if c == '<' { seq!['&', 'l', 't', ';'] }
    else if c == '>' { seq!['&', 'g', 't', ';'] }
    else if c == '"' { seq!['&', 'q', 'u', 'o', 't', ';'] }
    else if c == '\'' { seq!['&', '#', '3', '9', ';'] }
    else { seq![c] }
}

/// The string with `& < > " '` replaced by their HTML entities.
pub open spec fn html_escape_seq(s: Seq<char>) -> Seq<char>
    decreases s.len(),
{
    if s.len() == 0 { Seq::empty() } else { html_escape_seq(s.drop_last()) + html_escape_char(s.last()) }
}

/// Escapes the characters that are markup in HTML.
pub fn html_escape(input: &str) -> (r: String)
    ensures
        r@ == html_escape_seq(input@),
{
    let n = input.unicode_len();
    let mut out = String::new();
    let mut i: usize = 0;
    while i < n
        invariant
            0 <= i <= n,
            n == input@.len(),
            out@ == html_escape_seq(input@.take(i as int)),
        decreases n - i,
    {
        let c = input.get_char(i);
        if c == '&' {
            out.append("&amp;");
            assert("&amp;"@ =~= seq!['&', 'a', 'm', 'p', ';']) by {
                reveal_strlit("&amp;");
            }
        } else if c == '<' {
            out.append("&lt;");
            assert("&lt;"@ =~= seq!['&', 'l', 't', ';']) by {
                reveal_strlit("&lt;");
            }
        } else if c == '>' {
            out.append("&gt;");
            assert("&gt;"@ =~= seq!['&', 'g', 't', ';']) by {
                reveal_strlit("&gt;");
            }
        } else if c == '"' {
            out.append("&quot;");
            assert("&quot;"@ =~= seq!['&', 'q', 'u', 'o', 't', ';']) by {
                reveal_strlit("&quot;");
            }
        } else if c == '\'' {
            out.append("&#39;");
            assert("&#39;"@ =~= seq!['&', '#', '3', '9', ';']) by {
                reveal_strlit("&#39;");
            }
        } else {
            push_char(&mut out, c);
        }
        proof {
            assert(input@.take(i + 1).drop_last() =~= input@.take(i as int));
            assert(input@.take(i + 1).last() == input@[i as int]);
        }
        i += 1;
    }
    proof {
        assert(input@.take(n as int) =~= input@);
    }
    out
}

/// Index of the first occurrence of the character at or after `from`,
/// or the length.
pub open spec fn find_char(s: Seq<char>, c: char, from: int) -> int
    decreases s.len() - from,
{
    if from < 0 || from >= s.len() { s.len() as int }
    else if s[from] == c { from }
    else { find_char(s, c, from + 1) }
}

pub proof fn lemma_find_char(s: Seq<char>, c: char, from: int)
    requires
        0 <= from <= s.len(),
    ensures
        from <= find_char(s, c, from) <= s.len(),
        find_char(s, c, from) < s.len() ==> s[find_char(s, c, from)] == c,
        forall|k: int| from <= k < find_char(s, c, from) ==> s[k] != c,
    decreases s.len() - from,
{
    if from < s.len() && s[from] != c {
        lemma_find_char(s, c, from + 1);
    }
}

/// Whether two strings hold the same characters.
pub fn str_eq(a: &str, b: &str) -> (r: bool)
    ensures
        r == (a@ == b@),
{
    let na = a.unicode_len();
    let nb = b.unicode_len();
    if na != nb {
        return false;
    }
    let mut i: usize = 0;
    while i < na
        invariant
            0 <= i <= na,
            na == a@.len(),
            na == b@.len(),
            forall|k: int| 0 <= k < i ==> a@[k] == b@[k],
        decreases na - i,
    {
        if a.get_char(i) != b.get_char(i) {
            return false;
        }
        i += 1;
    }
    proof {
        assert(a@ =~= b@);
    }
    true
}

} // verus!

