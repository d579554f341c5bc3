//! Search and filter helpers over recorded blocks, and the small text
//! utilities the block renderer needs.

use crate::block::Block;
use crate::text::{
    all_ws, contains_seq, is_blank, lower_of, str_contains, to_lowercase, trim_back,
    trim_end_string, trim_spec, trim_string,
};
use vstd::prelude::*;

verus! {

/// Which parts of a block matched a search query.
#[derive(Debug, Clone, Copy, PartialEq, Eq, Structural)]
pub struct MatchRanges {
    pub command: bool,
    pub output: bool,
}

/// Trims and Unicode-lowercases a search query.
pub fn normalize_query(query: &str) -> (r: String)
    ensures
        r@ == lower_of(trim_spec(query@)),
{
    let trimmed = trim_string(query);
    to_lowercase(trimmed.as_str())
}

/// Whether the lowercased needle occurs in the lowercased haystack.
pub open spec fn matches_lower(hay: Seq<char>, needle_lower: Seq<char>) -> bool {
    contains_seq(lower_of(hay), needle_lower)
}

/// Where a block matches the query: its command, its output, both, or
/// neither. An empty query matches nothing.
pub fn block_matches_query(block: &Block, query: &str) -> (r: MatchRanges)
    ensures
        query@.len() == 0 ==> r == (MatchRanges { command: false, output: false }),
        query@.len() > 0 ==> ({
            let q = lower_of(trim_spec(query@));
            &&& r.command == matches_lower(block.command@, q)
            &&& r.output == matches_lower(block.output@, q)
        }),
{
    if query.unicode_len() == 0 {
        return MatchRanges { command: false, output: false };
    }
    let q = normalize_query(query);
    let cmd_lower = to_lowercase(block.command.as_str());
    let out_lower = to_lowercase(block.output.as_str());
    let cmd_match = str_contains(cmd_lower.as_str(), q.as_str());
    let out_match = str_contains(out_lower.as_str(), q.as_str());
    MatchRanges { command: cmd_match, output: out_match }
}

/// Whether a block passes the status and pin filters.
pub open spec fn passes_filters(
    b: crate::block::BlockV,
    success_only: bool,
    failure_only: bool,
    pinned_only: bool,
) -> bool {
    &&& (pinned_only ==> b.pinned)
    &&& (success_only ==> b.exit_code == Some(0int))
    &&& (failure_only ==> !(b.exit_code == Some(0int) || b.exit_code is None))
}

/// Applies the status and pin filters, then the query: the result says
/// whether the block is shown and, for a non-empty query, where it
/// matched. A filtered-out block, or one a non-empty query misses,
/// yields nothing.
pub fn matches_filters(
    block: &Block,
    query: &str,
    success_only: bool,
    failure_only: bool,
    pinned_only: bool,
) -> (r: Option<MatchRanges>)
    ensures
        !passes_filters(block@, success_only, failure_only, pinned_only) ==> r is None,
        passes_filters(block@, success_only, failure_only, pinned_only) ==> ({
            if query@.len() == 0 {
                r == Some(MatchRanges { command: false, output: false })
            } else {
                let q = lower_of(trim_spec(query@));
                if matches_lower(block.command@, q) || matches_lower(block.output@, q) {
                    r == Some(
                        MatchRanges {
                            command: matches_lower(block.command@, q),
                            output: matches_lower(block.output@, q),
                        },
                    )
                } else {
                    r is None
                }
            }
        }),
{
    if pinned_only && !block.pinned {
        return None;
    }
    match block.exit_code {
        Some(c) => {
            if success_only && c != 0 {
                return None;
            }
            if failure_only && c == 0 {
                return None;
            }
        },
        None => {
            if success_only {
                return None;
            }
            if failure_only {
                return None;
            }
        },
    }
    if query.unicode_len() == 0 {
        return Some(MatchRanges { command: false, output: false });
    }
    let ranges = block_matches_query(block, query);
    if ranges.command || ranges.output {
        Some(ranges)
    } else {
        None
    }
}

/// The lines of a text, split on newlines; a trailing carriage
/// return is dropped from each line, and a final newline yields no
/// extra empty line.
pub open spec fn lines_of(s: Seq<char>) -> Seq<Seq<char>>
    decreases s.len(),
    via lines_of_dec
{
    if s.len() == 0 {
        Seq::empty()
    } else {
        let e = crate::text::find_char(s, '\n', 0);
        if e >= s.len() { seq![line_clean(s)] } else {
            seq![line_clean(s.take(e))] + lines_of(s.skip(e + 1))
        }
    }
}

#[via_fn]
proof fn lines_of_dec(s: Seq<char>) {
    crate::text::lemma_find_char(s, '\n', 0);
}

/// One line with a trailing carriage return removed, as line splitting
/// does.
pub open spec fn line_clean(l: Seq<char>) -> Seq<char> {
    if l.len() > 0 && l.last() == '\r' { l.drop_last() } else { l }
}

/// The rightmost line that is not blank, if any.
pub open spec fn last_non_blank(ls: Seq<Seq<char>>) -> Option<Seq<char>>
    decreases ls.len(),
{
    if ls.len() == 0 {
        None
    } else if !all_ws(ls.last()) {
        Some(ls.last())
    } else {
        last_non_blank(ls.drop_last())
    }
}

/// Finds the last line of the text that is not entirely whitespace —
/// the shell prompt at the bottom of the viewport.
#[verifier::loop_isolation(false)]
pub fn last_non_empty_line(text: &str) -> (r: Option<String>)
    ensures
        match r {
            Some(l) => last_non_blank(lines_of(text@)) == Some(l@),
            None => last_non_blank(lines_of(text@)) is None,
        },
{
    let lines = split_lines(text);
    let mut i = lines.len();
    proof {
        assert(lines_of(text@).take(i as int) =~= lines_of(text@));
    }
    while i > 0
        invariant
            0 <= i <= lines@.len(),
            lines@.map_values(|l: String| l@) == lines_of(text@),
            last_non_blank(lines_of(text@)) == last_non_blank(
                lines_of(text@).take(i as int),
            ),
        decreases i,
    {
        proof {
            assert(lines_of(text@).take(i as int).last() == lines_of(text@)[i - 1]);
            assert(lines_of(text@).take(i as int).drop_last() =~= lines_of(text@).take(i - 1));
        }
        if !is_blank(lines[i - 1].as_str()) {
            return Some(lines[i - 1].clone());
        }
        i -= 1;
    }
    proof {
        assert(lines_of(text@).take(0) =~= Seq::<Seq<char>>::empty());
    }
    None
}

/// Splits a text into its lines, dropping a final carriage return of
/// each line; no trailing empty line is produced for a final newline.
#[verifier::rlimit(100)]
#[verifier::loop_isolation(false)]
pub fn split_lines(text: &str) -> (r: Vec<String>)
    ensures
        r@.map_values(|l: String| l@) == lines_of(text@),
{
    let mut out: Vec<String> = Vec::new();
    let n = text.unicode_len();
    let mut start: usize = 0;
    proof {
        assert(out@.map_values(|l: String| l@) =~= Seq::<Seq<char>>::empty());
        assert(text@.skip(0) =~= text@);
        assert(lines_of(text@) =~= out@.map_values(|l: String| l@) + lines_of(text@.skip(0)));
    }
    while start < n
        invariant
            0 <= start <= n,
            n == text@.len(),
            lines_of(text@) == out@.map_values(|l: String| l@) + lines_of(
                text@.skip(start as int),
            ),
        decreases n - start,
    {
        let ghost rem = text@.skip(start as int);
        let ghost acc = out@.map_values(|l: String| l@);
        let mut e = start;
        while e < n && text.get_char(e) != '\n'
            invariant
                start <= e <= n,
                n == text@.len(),
                forall|k: int| start <= k < e ==> text@[k] != '\n',
            decreases n - e,
        {
            e += 1;
        }
        proof {
            crate::text::lemma_find_char(rem, '\n', 0);
            assert(forall|k: int| 0 <= k < rem.len() ==> #[trigger] rem[k] == text@[start + k]);
            let f = crate::text::find_char(rem, '\n', 0);
            if e < n {
                assert(rem[e - start] == text@[e as int]);
                assert(rem[e - start] == '\n');
                if f < e - start {
                    assert(rem[f] == text@[start + f]);
                    assert(text@[start + f] != '\n');
                    assert(false);
                }
                if f > e - start {
                    assert(rem[e - start] != '\n');
                    assert(false);
                }
                assert(f == e - start);
            } else {
                if f < rem.len() {
                    assert(rem[f] == text@[start + f]);
                    assert(text@[start + f] != '\n');
                    assert(false);
                }
                assert(f == rem.len());
            }
        }
        let mut line_end = e;
        if line_end > start && text.get_char(line_end - 1) == '\r' {
            line_end -= 1;
        }
        let piece = text.substring_char(start, line_end);
        let ghost line_g = if e < n { line_clean(rem.take(e - start)) } else { line_clean(rem) };
        proof {
            if e < n {
                assert(rem.take(e - start) =~= text@.subrange(start as int, e as int));
                if e > start && text@[e - 1] == '\r' {
                    assert(rem.take(e - start).drop_last() =~= text@.subrange(
                        start as int,
                        e - 1,
                    ));
                }
            } else {
                assert(rem =~= text@.subrange(start as int, n as int));
                if e > start && text@[e - 1] == '\r' {
                    assert(rem.drop_last() =~= text@.subrange(start as int, e - 1));
                }
            }
            assert(piece@ == line_g);
        }
        let owned = String::from_str(piece);
        out.push(owned);
        proof {
            assert(out@.map_values(|l: String| l@) =~= acc + seq![line_g]);
            if e < n {
                assert(rem.skip((e - start) + 1) =~= text@.skip(e + 1));
                assert(lines_of(rem) == seq![line_g] + lines_of(text@.skip(e + 1)));
                assert(acc + (seq![line_g] + lines_of(text@.skip(e + 1))) =~= (acc + seq![line_g])
                    + lines_of(text@.skip(e + 1)));
            } else {
                assert(lines_of(rem) == seq![line_g]);
                assert(acc + seq![line_g] =~= (acc + seq![line_g]) + lines_of(
                    text@.skip(n as int),
                ));
            }
        }
        if e < n {
            start = e + 1;
        } else {
            start = n;
        }
    }
    proof {
        assert(lines_of(text@.skip(n as int)) =~= Seq::<Seq<char>>::empty());
        assert(out@.map_values(|l: String| l@) + lines_of(text@.skip(n as int)) =~= out@.map_values(
            |l: String| l@,
        ));
    }
    out
}

/// What stripping the live prompt line leaves of an output: blank
/// trailing lines are dropped, then the last line goes too if it
/// equals the prompt line up to trailing whitespace.
pub open spec fn strip_prompt_spec(lines: Seq<Seq<char>>, prompt: Seq<char>) -> Seq<Seq<char>>
    decreases lines.len(),
{
    if lines.len() == 0 {
        lines
    } else if all_ws(lines.last()) {
        strip_prompt_spec(lines.drop_last(), prompt)
    } else if trim_back(lines.last()) == trim_back(prompt) {
        lines.drop_last()
    } else {
        lines
    }
}

/// The lines joined by single newlines.
pub open spec fn joined(ls: Seq<Seq<char>>) -> Seq<char>
    decreases ls.len(),
{
    if ls.len() == 0 {
        Seq::empty()
    } else if ls.len() == 1 {
        ls[0]
    } else {
        joined(ls.drop_last()) + seq!['\n'] + ls.last()
    }
}

/// Removes the live prompt line from the bottom of a captured output:
/// trailing blank lines go, and then the last line if it matches the
/// prompt up to trailing whitespace. A blank prompt leaves the output
/// untouched.
#[verifier::rlimit(30)]
#[verifier::loop_isolation(false)]
pub fn strip_prompt_line(output: &str, prompt_line: &str) -> (r: String)
    ensures
        all_ws(prompt_line@) ==> r@ == output@,
        !all_ws(prompt_line@) ==> r@ == joined(
            strip_prompt_spec(lines_of(output@), prompt_line@),
        ),
{
    if is_blank(prompt_line) {
        return String::from_str(output);
    }
    let mut lines = split_lines(output);
    let prompt_trim = trim_end_string(prompt_line);
    loop
        invariant
            strip_prompt_spec(lines_of(output@), prompt_line@) == strip_prompt_spec(
                lines@.map_values(|l: String| l@),
                prompt_line@,
            ),
        decreases lines@.len(),
    {
        let ghost lv = lines@.map_values(|l: String| l@);
        if lines.len() == 0 {
            break;
        }
        let last_i = lines.len() - 1;
        proof {
            assert(lv.last() == lines@[last_i as int]@);
            assert(lv.drop_last() =~= lines@.take(last_i as int).map_values(|l: String| l@));
        }
        if is_blank(lines[last_i].as_str()) {
            lines.pop();
            proof {
                assert(lines@.map_values(|l: String| l@) =~= lv.drop_last());
            }
            continue;
        }
        let last_trim = trim_end_string(lines[last_i].as_str());
        if crate::text::str_eq(last_trim.as_str(), prompt_trim.as_str()) {
            lines.pop();
            proof {
                assert(lines@.map_values(|l: String| l@) =~= lv.drop_last());
            }
        }
        break;
    }
    join_lines(&lines)
}

/// Joins lines with single newlines.
#[verifier::loop_isolation(false)]
pub fn join_lines(lines: &Vec<String>) -> (r: String)
    ensures
        r@ == joined(lines@.map_values(|l: String| l@)),
{
    let ghost lv = lines@.map_values(|l: String| l@);
    let mut out = String::new();
    let mut i: usize = 0;
    while i < lines.len()
        invariant
            0 <= i <= lines@.len(),
            lv == lines@.map_values(|l: String| l@),
            out@ == joined(lv.take(i as int)),
        decreases lines@.len() - i,
    {
        proof {
            assert(lv.take(i + 1).drop_last() =~= lv.take(i as int));
            assert(lv.take(i + 1).last() == lv[i as int]);
        }
        if i > 0 {
            crate::text::push_char(&mut out, '\n');
        }
        out.append(lines[i].as_str());
        proof {
            if i == 0 {
                assert(Seq::<char>::empty() + lv[0] =~= lv[0]);
                assert(lv.take(1) =~= seq![lv[0]]);
            }
        }
        i += 1;
    }
    proof {
        assert(lv.take(lines@.len() as int) =~= lv);
        if lines@.len() == 0 {
            assert(joined(lv) == Seq::<char>::empty());
        }
    }
    out
}

} // verus!
