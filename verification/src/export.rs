//! Plain-text export of recorded blocks: Markdown, JSON, HTML and raw
//! text renderings of a block list, each pinned down character by
//! character. Writing the result to disk is the caller's business.

use crate::block::{Block, BlockV};
use crate::events::GitStatus;
use crate::text::{html_escape, html_escape_seq, i64_dec, i64_to_string, u64_dec, u64_to_string};
use vstd::prelude::*;

verus! {

/// The formats a block list can be rendered in.
#[derive(Debug, Clone, Copy)]
pub enum ExportFormat {
    Markdown,
    Json,
    Html,
    Text,
}

/// Whether a conversation export covers one pane or the whole session.
#[derive(Debug, Clone, Copy)]
pub enum AiConversationExportScope {
    Pane,
    Session,
}

/// A rendered export.
pub struct ExportResult {
    pub content: String,
}

/// The exit code a rendering shows: the recorded one, or -1 while
/// absent.
pub open spec fn exit_or(b: BlockV) -> int {
    match b.exit_code {
        Some(c) => c,
        None => -1,
    }
}

/// The duration a rendering shows: the recorded one, or 0 while
/// absent.
pub open spec fn dur_or(b: BlockV) -> int {
    match b.duration_ms {
        Some(d) => d,
        None => 0,
    }
}

/// The Markdown rendering of one block.
pub open spec fn md_block(b: BlockV) -> Seq<char> {
    "## "@ + b.command + "\n\n```bash\n"@ + b.command + "\n```\n\n### Output\n\n```\n"@ + b.output
        + "\n```\n\nExit Code: "@ + i64_dec(exit_or(b)) + "\nDuration: "@ + u64_dec(
        dur_or(b) as nat,
    ) + "ms\n\n"@
}

/// The Markdown rendering of a block list.
pub open spec fn md_blocks(bs: Seq<BlockV>) -> Seq<char>
    decreases bs.len(),
{
    if bs.len() == 0 { Seq::empty() } else { md_blocks(bs.drop_last()) + md_block(bs.last()) }
}

/// The raw-text rendering of one block.
pub open spec fn text_block(b: BlockV) -> Seq<char> {
    "Command: "@ + b.command + "\n"@ + "Output:\n"@ + b.output + "\n"@ + "Exit Code: "@ + i64_dec(
        exit_or(b),
    ) + "\n"@ + "Duration: "@ + u64_dec(dur_or(b) as nat) + "ms\n"@ + "\n---\n\n"@
}

/// The raw-text rendering of a block list.
pub open spec fn text_blocks(bs: Seq<BlockV>) -> Seq<char>
    decreases bs.len(),
{
    if bs.len() == 0 { Seq::empty() } else { text_blocks(bs.drop_last()) + text_block(bs.last()) }
}

/// The HTML rendering of one block, with markup escaped.
pub open spec fn html_block(b: BlockV) -> Seq<char> {
    "<section class=\"block\">\n<h2>"@ + html_escape_seq(b.command) + "</h2>\n<h3>Command</h3>\n<pre><code>"@
        + html_escape_seq(b.command) + "</code></pre>\n<h3>Output</h3>\n<pre><code>"@
        + html_escape_seq(b.output) + "</code></pre>\n<p>Exit Code: "@ + i64_dec(exit_or(b))
        + " | Duration: "@ + u64_dec(dur_or(b) as nat) + "ms</p>\n</section>\n"@
}

/// The HTML body for a block list.
pub open spec fn html_body(bs: Seq<BlockV>) -> Seq<char>
    decreases bs.len(),
{
    if bs.len() == 0 { Seq::empty() } else { html_body(bs.drop_last()) + html_block(bs.last()) }
}

/// The complete HTML document for a block list.
pub open spec fn html_doc(bs: Seq<BlockV>) -> Seq<char> {
    "<!doctype html><html><head><meta charset=\"utf-8\"><style>body{font-family:monospace;background:#111;color:#eee}pre{background:#1b1b1b;padding:12px;border-radius:6px}</style></head><body>"@
        + html_body(bs) + "</body></html>"@
}

/// The hexadecimal digit character for a value below sixteen.
pub open spec fn hex_digit(n: int) -> char {
    if n == 0 { '0' }
    else if n == 1 { '1' }
    else if n == 2 { '2' }
    else if n == 3 { '3' }
    else if n == 4 { '4' }
    else if n == 5 { '5' }
    else if n == 6 { '6' }
    else if n == 7 { '7' }
    else if n == 8 { '8' }
    else if n == 9 { '9' }
    else if n == 10 { 'a' }
    else if n == 11 { 'b' }
    else if n == 12 { 'c' }
    else if n == 13 { 'd' }
    else if n == 14 { 'e' }
    else { 'f' }
}

/// The JSON escape of one character: quotes and backslashes get a
/// backslash, the named control characters their short form, other
/// control characters a unicode escape, and everything else stands as
/// itself.
pub open spec fn json_escape_char(c: char) -> Seq<char> {
    if c == '"' { "\\\""@ }
    else if c == '\\' { "\\\\"@ }
    else if c == '\u{8}' { "\\b"@ }
    else if c == '\u{c}' { "\\f"@ }
    else if c == '\n' { "\\n"@ }
    else if c == '\r' { "\\r"@ }
    else if c == '\t' { "\\t"@ }
    else if (c as u32) < 0x20 {
        "\\u00"@ + seq![hex_digit((c as u32) as int / 16), hex_digit((c as u32) as int % 16)]
    } else {
        seq![c]
    }
}

/// The JSON escape of a string's characters.
pub open spec fn json_escape_seq(s: Seq<char>) -> Seq<char>
    decreases s.len(),
{
    if s.len() == 0 { Seq::empty() } else {
        json_escape_seq(s.drop_last()) + json_escape_char(s.last())
    }
}

/// A JSON string literal.
pub open spec fn jstr(s: Seq<char>) -> Seq<char> {
    "\""@ + json_escape_seq(s) + "\""@
}

/// A JSON value for an optional timestamp or code.
pub open spec fn jopt_int(o: Option<int>) -> Seq<char> {
    match o {
        Some(n) => i64_dec(n),
        None => "null"@,
    }
}

/// A JSON value for an optional unsigned count.
pub open spec fn jopt_nat(o: Option<int>) -> Seq<char> {
    match o {
        Some(n) => u64_dec(n as nat),
        None => "null"@,
    }
}

/// A JSON value for an optional string.
pub open spec fn jopt_str(o: Option<Seq<char>>) -> Seq<char> {
    match o {
        Some(s) => jstr(s),
        None => "null"@,
    }
}

/// A JSON boolean.
pub open spec fn jbool(b: bool) -> Seq<char> {
    if b { "true"@ } else { "false"@ }
}

/// A JSON value for an optional git status, named as the variant is.
pub open spec fn jstatus(o: Option<GitStatus>) -> Seq<char> {
    match o {
        Some(GitStatus::Clean) => "\"Clean\""@,
        Some(GitStatus::Dirty) => "\"Dirty\""@,
        Some(GitStatus::Conflicts) => "\"Conflicts\""@,
        None => "null"@,
    }
}

/// A JSON value for an optional output range.
pub open spec fn jrange(o: Option<(int, int)>) -> Seq<char> {
    match o {
        Some((a, b)) => "["@ + u64_dec(a as nat) + ","@ + u64_dec(b as nat) + "]"@,
        None => "null"@,
    }
}

/// The comma-separated JSON strings of a tag list.
pub open spec fn jtags_inner(ts: Seq<Seq<char>>) -> Seq<char>
    decreases ts.len(),
{
    if ts.len() == 0 { Seq::empty() } else if ts.len() == 1 { jstr(ts[0]) } else {
        jtags_inner(ts.drop_last()) + ","@ + jstr(ts.last())
    }
}

/// A JSON array of tag strings.
pub open spec fn jtags(ts: Seq<Seq<char>>) -> Seq<char> {
    "["@ + jtags_inner(ts) + "]"@
}

/// The first half of a block's JSON object: command, timing and
/// location fields.
pub open spec fn json_block_head(b: BlockV) -> Seq<char> {
    "{\"command\":"@ + jstr(b.command) + ",\"started_at\":"@ + jopt_int(b.started_at)
        + ",\"ended_at\":"@ + jopt_int(b.ended_at) + ",\"duration_ms\":"@ + jopt_nat(b.duration_ms)
        + ",\"exit_code\":"@ + jopt_int(b.exit_code) + ",\"cwd\":"@ + jopt_str(b.cwd)
        + ",\"output_range\":"@ + jrange(b.output_range)
}

/// The second half of a block's JSON object: annotations, output and
/// session context.
pub open spec fn json_block_tail(b: BlockV) -> Seq<char> {
    ",\"pinned\":"@ + jbool(b.pinned) + ",\"tags\":"@ + jtags(b.tags) + ",\"selected\":"@ + jbool(
        b.selected,
    ) + ",\"output\":"@ + jstr(b.output) + ",\"git_branch\":"@ + jopt_str(b.git_branch)
        + ",\"git_status\":"@ + jstatus(b.git_status) + ",\"host\":"@ + jstr(b.host)
        + ",\"is_remote\":"@ + jbool(b.is_remote) + ",\"collapsed\":"@ + jbool(b.collapsed) + "}"@
}

/// The JSON object for one block, fields in declaration order.
pub open spec fn json_block(b: BlockV) -> Seq<char> {
    json_block_head(b) + json_block_tail(b)
}

/// The comma-separated JSON objects of a block list.
pub open spec fn json_blocks_inner(bs: Seq<BlockV>) -> Seq<char>
    decreases bs.len(),
{
    if bs.len() == 0 { Seq::empty() } else if bs.len() == 1 { json_block(bs[0]) } else {
        json_blocks_inner(bs.drop_last()) + ","@ + json_block(bs.last())
    }
}

/// The JSON array for a block list.
pub open spec fn json_blocks(bs: Seq<BlockV>) -> Seq<char> {
    "["@ + json_blocks_inner(bs) + "]"@
}

/// The models of a slice of blocks.
pub open spec fn blocks_view(bs: Seq<Block>) -> Seq<BlockV> {
    bs.map_values(|b: Block| b@)
}

fn hex_digit_exec(n: u32) -> (r: char)
    requires
        n < 16,
    ensures
        r == hex_digit(n as int),
{
    if n == 0 { '0' }
    else if n == 1 { '1' }
    else if n == 2 { '2' }
    else if n == 3 { '3' }
    else if n == 4 { '4' }
    else if n == 5 { '5' }
    else if n == 6 { '6' }
    else if n == 7 { '7' }
    else if n == 8 { '8' }
    else if n == 9 { '9' }
    else if n == 10 { 'a' }
    else if n == 11 { 'b' }
    else if n == 12 { 'c' }
    else if n == 13 { 'd' }
    else if n == 14 { 'e' }
    else { 'f' }
}

/// Escapes a string's characters for a JSON string literal.
#[verifier::loop_isolation(false)]
pub fn json_escape(s: &str) -> (r: String)
    ensures
        r@ == json_escape_seq(s@),
{
    let n = s.unicode_len();
    let mut out = String::new();
    proof {
        assert(out@ =~= json_escape_seq(s@.take(0)));
    }
    let mut i: usize = 0;
    while i < n
        invariant
            0 <= i <= n,
            n == s@.len(),
            out@ == json_escape_seq(s@.take(i as int)),
        decreases n - i,
    {
        let c = s.get_char(i);
        proof {
            assert(s@.take(i + 1).drop_last() =~= s@.take(i as int));
            assert(s@.take(i + 1).last() == s@[i as int]);
        }
        if c == '"' {
            out.append("\\\"");
        } else if c == '\\' {
            out.append("\\\\");
        } else if c == '\u{8}' {
            out.append("\\b");
        } else if c == '\u{c}' {
            out.append("\\f");
        } else if c == '\n' {
            out.append("\\n");
        } else if c == '\r' {
            out.append("\\r");
        } else if c == '\t' {
            out.append("\\t");
        } else if (c as u32) < 0x20 {
            let ghost before = out@;
            out.append("\\u00");
            let hi = hex_digit_exec((c as u32) / 16);
            let lo = hex_digit_exec((c as u32) % 16);
            crate::text::push_char(&mut out, hi);
            crate::text::push_char(&mut out, lo);
            proof {
                assert(out@ =~= before + json_escape_char(c));
            }
        } else {
            crate::text::push_char(&mut out, c);
            proof {
                assert(out@.drop_last() + seq![c] =~= out@);
                assert(out@ =~= json_escape_seq(s@.take(i as int)) + seq![c]);
            }
        }
        i += 1;
    }
    proof {
        assert(s@.take(n as int) =~= s@);
    }
    out
}

/// Renders a JSON string literal.
pub fn json_string(s: &str) -> (r: String)
    ensures
        r@ == jstr(s@),
{
    let mut out = String::from_str("\"");
    out.append(json_escape(s).as_str());
    out.append("\"");
    out
}

fn j_opt_i64(o: &Option<i64>) -> (r: String)
    ensures
        r@ == jopt_int(
            match o {
                Some(n) => Some(*n as int),
                None => None,
            },
        ),
{
    match o {
        Some(n) => i64_to_string(*n),
        None => String::from_str("null"),
    }
}

fn j_opt_u64(o: &Option<u64>) -> (r: String)
    ensures
        r@ == jopt_nat(
            match o {
                Some(n) => Some(*n as int),
                None => None,
            },
        ),
{
    match o {
        Some(n) => u64_to_string(*n),
        None => String::from_str("null"),
    }
}

fn j_bool(b: bool) -> (r: String)
    ensures
        r@ == jbool(b),
{
    if b { String::from_str("true") } else { String::from_str("false") }
}

#[verifier::rlimit(50)]
fn block_json_head(b: &Block) -> (r: String)
    ensures
        r@ == json_block_head(b@),
{
    let mut out = String::from_str("{\"command\":");
    out.append(json_string(b.command.as_str()).as_str());
    out.append(",\"started_at\":");
    out.append(j_opt_i64(&b.started_at).as_str());
    out.append(",\"ended_at\":");
    out.append(j_opt_i64(&b.ended_at).as_str());
    out.append(",\"duration_ms\":");
    out.append(j_opt_u64(&b.duration_ms).as_str());
    out.append(",\"exit_code\":");
    match b.exit_code {
        Some(c) => out.append(i64_to_string(c as i64).as_str()),
        None => out.append("null"),
    }
    out.append(",\"cwd\":");
    match &b.cwd {
        Some(p) => out.append(json_string(p.as_str()).as_str()),
        None => out.append("null"),
    }
    out.append(",\"output_range\":");
    match b.output_range {
        Some((a, z)) => {
            out.append("[");
            out.append(u64_to_string(a as u64).as_str());
            out.append(",");
            out.append(u64_to_string(z as u64).as_str());
            out.append("]");
        },
        None => out.append("null"),
    }
    out
}

#[verifier::rlimit(50)]
fn block_json_tail(b: &Block) -> (r: String)
    ensures
        r@ == json_block_tail(b@),
{
    let mut out = String::from_str(",\"pinned\":");
    out.append(j_bool(b.pinned).as_str());
    out.append(",\"tags\":");
    out.append(tags_to_json(&b.tags).as_str());
    out.append(",\"selected\":");
    out.append(j_bool(b.selected).as_str());
    out.append(",\"output\":");
    out.append(json_string(b.output.as_str()).as_str());
    out.append(",\"git_branch\":");
    match &b.git_branch {
        Some(br) => out.append(json_string(br.as_str()).as_str()),
        None => out.append("null"),
    }
    out.append(",\"git_status\":");
    match b.git_status {
        Some(GitStatus::Clean) => out.append("\"Clean\""),
        Some(GitStatus::Dirty) => out.append("\"Dirty\""),
        Some(GitStatus::Conflicts) => out.append("\"Conflicts\""),
        None => out.append("null"),
    }
    out.append(",\"host\":");
    out.append(json_string(b.host.as_str()).as_str());
    out.append(",\"is_remote\":");
    out.append(j_bool(b.is_remote).as_str());
    out.append(",\"collapsed\":");
    out.append(j_bool(b.collapsed).as_str());
    out.append("}");
    out
}

/// Renders one block as a JSON object.
pub fn block_to_json(b: &Block) -> (r: String)
    ensures
        r@ == json_block(b@),
{
    let mut out = block_json_head(b);
    out.append(block_json_tail(b).as_str());
    out
}

/// Renders a tag list as a JSON array of strings.
#[verifier::loop_isolation(false)]
pub fn tags_to_json(ts: &Vec<String>) -> (r: String)
    ensures
        r@ == jtags(ts@.map_values(|t: String| t@)),
{
    let ghost tv = ts@.map_values(|t: String| t@);
    let mut inner = String::new();
    let mut i: usize = 0;
    proof {
        assert(inner@ =~= jtags_inner(tv.take(0)));
    }
    while i < ts.len()
        invariant
            0 <= i <= ts@.len(),
            tv == ts@.map_values(|t: String| t@),
            inner@ == jtags_inner(tv.take(i as int)),
        decreases ts@.len() - i,
    {
        proof {
            assert(tv.take(i + 1).drop_last() =~= tv.take(i as int));
            assert(tv.take(i + 1).last() == tv[i as int]);
            assert(tv.take(1)[0] == tv[0]);
        }
        if i > 0 {
            inner.append(",");
        }
        inner.append(json_string(ts[i].as_str()).as_str());
        i += 1;
    }
    proof {
        assert(tv.take(ts@.len() as int) =~= tv);
    }
    let mut out = String::from_str("[");
    out.append(inner.as_str());
    out.append("]");
    out
}

/// Renders a block list as a JSON array.
#[verifier::loop_isolation(false)]
pub fn export_blocks_json(blocks: &[Block]) -> (r: String)
    ensures
        r@ == json_blocks(blocks_view(blocks@)),
{
    let ghost bv = blocks_view(blocks@);
    let mut inner = String::new();
    let mut i: usize = 0;
    proof {
        assert(inner@ =~= json_blocks_inner(bv.take(0)));
    }
    while i < blocks.len()
        invariant
            0 <= i <= blocks@.len(),
            bv == blocks_view(blocks@),
            inner@ == json_blocks_inner(bv.take(i as int)),
        decreases blocks@.len() - i,
    {
        proof {
            assert(bv.take(i + 1).drop_last() =~= bv.take(i as int));
            assert(bv.take(i + 1).last() == bv[i as int]);
            assert(bv.take(1)[0] == bv[0]);
        }
        if i > 0 {
            inner.append(",");
        }
        inner.append(block_to_json(slice_at(blocks, i)).as_str());
        i += 1;
    }
    proof {
        assert(bv.take(blocks@.len() as int) =~= bv);
    }
    let mut out = String::from_str("[");
    out.append(inner.as_str());
    out.append("]");
    out
}

fn slice_at(blocks: &[Block], i: usize) -> (r: &Block)
    requires
        i < blocks@.len(),
    ensures
        *r == blocks@[i as int],
{
    &blocks[i]
}

/// Renders one block as Markdown.
#[verifier::rlimit(50)]
pub fn block_to_md(b: &Block) -> (r: String)
    ensures
        r@ == md_block(b@),
{
    let mut out = String::from_str("## ");
    out.append(b.command.as_str());
    out.append("\n\n```bash\n");
    out.append(b.command.as_str());
    out.append("\n```\n\n### Output\n\n```\n");
    out.append(b.output.as_str());
    out.append("\n```\n\nExit Code: ");
    match b.exit_code {
        Some(c) => out.append(i64_to_string(c as i64).as_str()),
        None => out.append(i64_to_string(-1).as_str()),
    }
    out.append("\nDuration: ");
    match b.duration_ms {
        Some(d) => out.append(u64_to_string(d).as_str()),
        None => out.append(u64_to_string(0).as_str()),
    }
    out.append("ms\n\n");
    out
}

/// Renders a block list as Markdown.
#[verifier::loop_isolation(false)]
pub fn export_blocks_markdown(blocks: &[Block]) -> (r: String)
    ensures
        r@ == md_blocks(blocks_view(blocks@)),
{
    let ghost bv = blocks_view(blocks@);
    let mut out = String::new();
    let mut i: usize = 0;
    proof {
        assert(out@ =~= md_blocks(bv.take(0)));
    }
    while i < blocks.len()
        invariant
            0 <= i <= blocks@.len(),
            bv == blocks_view(blocks@),
            out@ == md_blocks(bv.take(i as int)),
        decreases blocks@.len() - i,
    {
        proof {
            assert(bv.take(i + 1).drop_last() =~= bv.take(i as int));
            assert(bv.take(i + 1).last() == bv[i as int]);
        }
        out.append(block_to_md(slice_at(blocks, i)).as_str());
        i += 1;
    }
    proof {
        assert(bv.take(blocks@.len() as int) =~= bv);
    }
    out
}

/// Renders one block as raw text.
#[verifier::rlimit(50)]
pub fn block_to_text(b: &Block) -> (r: String)
    ensures
        r@ == text_block(b@),
{
    let mut out = String::from_str("Command: ");
    out.append(b.command.as_str());
    out.append("\n");
    out.append("Output:\n");
    out.append(b.output.as_str());
    out.append("\n");
    out.append("Exit Code: ");
    match b.exit_code {
        Some(c) => out.append(i64_to_string(c as i64).as_str()),
        None => out.append(i64_to_string(-1).as_str()),
    }
    out.append("\n");
    out.append("Duration: ");
    match b.duration_ms {
        Some(d) => out.append(u64_to_string(d).as_str()),
        None => out.append(u64_to_string(0).as_str()),
    }
    out.append("ms\n");
    out.append("\n---\n\n");
    out
}

/// Renders a block list as raw text with separators.
#[verifier::loop_isolation(false)]
pub fn export_blocks_text(blocks: &[Block]) -> (r: String)
    ensures
        r@ == text_blocks(blocks_view(blocks@)),
{
    let ghost bv = blocks_view(blocks@);
    let mut out = String::new();
    let mut i: usize = 0;
    proof {
        assert(out@ =~= text_blocks(bv.take(0)));
    }
    while i < blocks.len()
        invariant
            0 <= i <= blocks@.len(),
            bv == blocks_view(blocks@),
            out@ == text_blocks(bv.take(i as int)),
        decreases blocks@.len() - i,
    {
        proof {
            assert(bv.take(i + 1).drop_last() =~= bv.take(i as int));
            assert(bv.take(i + 1).last() == bv[i as int]);
        }
        out.append(block_to_text(slice_at(blocks, i)).as_str());
        i += 1;
    }
    proof {
        assert(bv.take(blocks@.len() as int) =~= bv);
    }
    out
}

/// Renders one block as an HTML section.
#[verifier::rlimit(50)]
pub fn block_to_html(b: &Block) -> (r: String)
    ensures
        r@ == html_block(b@),
{
    let mut out = String::from_str("<section class=\"block\">\n<h2>");
    out.append(html_escape(b.command.as_str()).as_str());
    out.append("</h2>\n<h3>Command</h3>\n<pre><code>");
    out.append(html_escape(b.command.as_str()).as_str());
    out.append("</code></pre>\n<h3>Output</h3>\n<pre><code>");
    out.append(html_escape(b.output.as_str()).as_str());
    out.append("</code></pre>\n<p>Exit Code: ");
    match b.exit_code {
        Some(c) => out.append(i64_to_string(c as i64).as_str()),
        None => out.append(i64_to_string(-1).as_str()),
    }
    out.append(" | Duration: ");
    match b.duration_ms {
        Some(d) => out.append(u64_to_string(d).as_str()),
        None => out.append(u64_to_string(0).as_str()),
    }
    out.append("ms</p>\n</section>\n");
    out
}

/// Renders a block list as a complete HTML document.
#[verifier::loop_isolation(false)]
pub fn export_blocks_html(blocks: &[Block]) -> (r: String)
    ensures
        r@ == html_doc(blocks_view(blocks@)),
{
    let ghost bv = blocks_view(blocks@);
    let mut body = String::new();
    let mut i: usize = 0;
    proof {
        assert(body@ =~= html_body(bv.take(0)));
    }
    while i < blocks.len()
        invariant
            0 <= i <= blocks@.len(),
            bv == blocks_view(blocks@),
            body@ == html_body(bv.take(i as int)),
        decreases blocks@.len() - i,
    {
        proof {
            assert(bv.take(i + 1).drop_last() =~= bv.take(i as int));
            assert(bv.take(i + 1).last() == bv[i as int]);
        }
        body.append(block_to_html(slice_at(blocks, i)).as_str());
        i += 1;
    }
    proof {
        assert(bv.take(blocks@.len() as int) =~= bv);
    }
    let mut out = String::from_str(
        "<!doctype html><html><head><meta charset=\"utf-8\"><style>body{font-family:monospace;background:#111;color:#eee}pre{background:#1b1b1b;padding:12px;border-radius:6px}</style></head><body>",
    );
    out.append(body.as_str());
    out.append("</body></html>");
    out
}

/// Renders a block list in the requested format; every format
/// succeeds, and the content is pinned by the format's rendering.
pub fn format_blocks(blocks: &[Block], format: ExportFormat) -> (r: Result<ExportResult, String>)
    ensures
        r matches Ok(er) && er.content@ == (match format {
            ExportFormat::Markdown => md_blocks(blocks_view(blocks@)),
            ExportFormat::Json => json_blocks(blocks_view(blocks@)),
            ExportFormat::Html => html_doc(blocks_view(blocks@)),
            ExportFormat::Text => text_blocks(blocks_view(blocks@)),
        }),
{
    match format {
        ExportFormat::Markdown => Ok(ExportResult { content: export_blocks_markdown(blocks) }),
        ExportFormat::Json => Ok(ExportResult { content: export_blocks_json(blocks) }),
        ExportFormat::Html => Ok(ExportResult { content: export_blocks_html(blocks) }),
        ExportFormat::Text => Ok(ExportResult { content: export_blocks_text(blocks) }),
    }
}

/// The file extension each format is written under.
pub open spec fn ext_of(format: ExportFormat) -> Seq<char> {
    match format {
        ExportFormat::Markdown => "md"@,
        ExportFormat::Json => "json"@,
        ExportFormat::Html => "html"@,
        ExportFormat::Text => "txt"@,
    }
}

/// Builds the export file name for a format and a timestamp the
/// caller formatted.
pub fn export_file_name(format: ExportFormat, timestamp: &str) -> (r: String)
    ensures
        r@ == "tant_export_"@ + timestamp@ + "."@ + ext_of(format),
{
    let mut out = String::from_str("tant_export_");
    out.append(timestamp);
    out.append(".");
    match format {
        ExportFormat::Markdown => out.append("md"),
        ExportFormat::Json => out.append("json"),
        ExportFormat::Html => out.append("html"),
        ExportFormat::Text => out.append("txt"),
    }
    out
}

} // verus!
