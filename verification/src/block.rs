//! The engine's unit of one command execution: its timing, output and
//! metadata. Timestamps are epoch milliseconds; the layer that owns a
//! clock converts at the boundary.

use crate::events::GitStatus;
use vstd::prelude::*;

verus! {

/// One recorded command execution. Created on command start (running,
/// mostly empty); fields fill in as further events arrive; finalized on
/// command end or defensively closed out by the next command start.
#[derive(Debug, Clone)]
pub struct Block {
    pub command: String,
    pub started_at: Option<i64>,
    pub ended_at: Option<i64>,
    pub duration_ms: Option<u64>,
    pub exit_code: Option<i32>,
    pub cwd: Option<String>,
    pub output_range: Option<(usize, usize)>,
    pub pinned: bool,
    pub tags: Vec<String>,
    pub selected: bool,
    pub output: String,
    pub git_branch: Option<String>,
    pub git_status: Option<GitStatus>,
    pub host: String,
    pub is_remote: bool,
    pub collapsed: bool,
}

/// Specification-level model of a block.
#[verifier::ext_equal]
pub ghost struct BlockV {
    pub command: Seq<char>,
    pub started_at: Option<int>,
    pub ended_at: Option<int>,
    pub duration_ms: Option<int>,
    pub exit_code: Option<int>,
    pub cwd: Option<Seq<char>>,
    pub output_range: Option<(int, int)>,
    pub pinned: bool,
    pub tags: Seq<Seq<char>>,
    pub selected: bool,
    pub output: Seq<char>,
    pub git_branch: Option<Seq<char>>,
    pub git_status: Option<GitStatus>,
    pub host: Seq<char>,
    pub is_remote: bool,
    pub collapsed: bool,
}

impl View for Block {
    type V = BlockV;

    open spec fn view(&self) -> BlockV {
        BlockV {
            command: self.command@,
            started_at: match self.started_at {
                Some(t) => Some(t as int),
                None => None,
            },
            ended_at: match self.ended_at {
                Some(t) => Some(t as int),
                None => None,
            },
            duration_ms: match self.duration_ms {
                Some(d) => Some(d as int),
                None => None,
            },
            exit_code: match self.exit_code {
                Some(c) => Some(c as int),
                None => None,
            },
            cwd: match self.cwd {
                Some(ref p) => Some(p@),
                None => None,
            },
            output_range: match self.output_range {
                Some((a, b)) => Some((a as int, b as int)),
                None => None,
            },
            pinned: self.pinned,
            tags: self.tags@.map_values(|t: String| t@),
            selected: self.selected,
            output: self.output@,
            git_branch: match self.git_branch {
                Some(ref b) => Some(b@),
                None => None,
            },
            git_status: self.git_status,
            host: self.host@,
            is_remote: self.is_remote,
            collapsed: self.collapsed,
        }
    }
}

} // verus!
