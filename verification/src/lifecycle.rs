//! The block lifecycle controller: a per-pane state machine that turns
//! the parser's event stream into immutable history records. A pane is
//! Idle (no current block) or Running (current block without exit
//! code); command end finalizes the block into the append-only history,
//! and a second command start closes the previous block defensively.

use crate::block::{Block, BlockV};
use crate::events::{GitStatus, ParserEvent};
use crate::events::EventV;
use vstd::prelude::*;

verus! {

/// Specification-level model of a pane's lifecycle state.
#[verifier::ext_equal]
pub ghost struct PaneV {
    pub history: Seq<BlockV>,
    pub current_block: Option<BlockV>,
    pub working_directory: Seq<char>,
    pub host: Seq<char>,
    pub is_remote: bool,
    pub scroll_offset: int,
    pub follow_mode: bool,
}

/// Per-pane lifecycle state: the append-only history, the running
/// block if any, and the pane's tracked working directory and session
/// context.
#[derive(Debug)]
pub struct BlockController {
    pub history: Vec<Block>,
    pub current_block: Option<Block>,
    pub working_directory: String,
    pub host: String,
    pub is_remote: bool,
    pub scroll_offset: usize,
    pub follow_mode: bool,
}

impl View for BlockController {
    type V = PaneV;

    open spec fn view(&self) -> PaneV {
        PaneV {
            history: self.history@.map_values(|b: Block| b@),
            current_block: match self.current_block {
                Some(ref b) => Some(b@),
                None => None,
            },
            working_directory: self.working_directory@,
            host: self.host@,
            is_remote: self.is_remote,
            scroll_offset: self.scroll_offset as int,
            follow_mode: self.follow_mode,
        }
    }
}

/// Whether the pane has a running command: a current block with no
/// exit code yet.
pub open spec fn running(s: PaneV) -> bool {
    match s.current_block {
        Some(b) => b.exit_code is None,
        None => false,
    }
}

/// A pane state the controller itself can reach: a current block, if
/// any, carries a start timestamp (every block a command start creates
/// does).
pub open spec fn pane_wf(s: PaneV) -> bool {
    match s.current_block {
        Some(b) => b.started_at is Some,
        None => true,
    }
}

/// The duration from `start` to `now`, clamped at zero when the clock
/// went backwards.
pub open spec fn dur_of(start: int, now: int) -> int {
    if now >= start { now - start } else { 0 }
}

/// A block closed out at `now` with the given screen snapshot: the end
/// timestamp and duration are set only when a start timestamp exists.
pub open spec fn closed_out(b: BlockV, now: int, screen: Seq<char>) -> BlockV {
    BlockV {
        ended_at: if b.started_at is Some { Some(now) } else { b.ended_at },
        duration_ms: if b.started_at is Some {
            Some(dur_of(b.started_at.unwrap(), now))
        } else {
            b.duration_ms
        },
        output: screen,
        ..b
    }
}

/// The fresh running block that a command start creates.
pub open spec fn fresh_block(s: PaneV, now: int) -> BlockV {
    BlockV {
        command: Seq::empty(),
        started_at: Some(now),
        ended_at: None,
        duration_ms: None,
        exit_code: None,
        cwd: Some(s.working_directory),
        output_range: None,
        pinned: false,
        tags: Seq::empty(),
        selected: false,
        output: Seq::empty(),
        git_branch: None,
        git_status: None,
        host: s.host,
        is_remote: s.is_remote,
        collapsed: false,
    }
}

/// One lifecycle transition: how a single drained event changes the
/// pane state at time `now`, with `screen` the current viewport text.
pub open spec fn step_event(s: PaneV, e: EventV, now: int, screen: Seq<char>) -> PaneV {
    match e {
        EventV::PromptShown => s,
        EventV::CommandStart => {
            let closed = match s.current_block {
                Some(b) => PaneV { history: s.history.push(closed_out(b, now, screen)), ..s },
                None => s,
            };
            PaneV { current_block: Some(fresh_block(s, now)), ..closed }
        },
        EventV::Command(text) => match s.current_block {
            Some(b) => PaneV { current_block: Some(BlockV { command: text, ..b }), ..s },
            None => s,
        },
        EventV::Directory(dir) => {
            let s2 = match s.current_block {
                Some(b) => PaneV { current_block: Some(BlockV { cwd: Some(dir), ..b }), ..s },
                None => s,
            };
            PaneV { working_directory: dir, ..s2 }
        },
        EventV::GitInfo { branch, status } => match s.current_block {
            Some(b) => PaneV {
                current_block: Some(BlockV { git_branch: Some(branch), git_status: status, ..b }),
                ..s
            },
            None => s,
        },
        EventV::CommandEnd(code) => match s.current_block {
            Some(b) => PaneV {
                history: s.history.push(
                    closed_out(BlockV { exit_code: Some(code), ..b }, now, screen),
                ),
                current_block: None,
                ..s
            },
            None => s,
        },
    }
}

/// The fold of `step_event` over a whole drained event queue, in FIFO
/// order.
pub open spec fn step_events(s: PaneV, es: Seq<EventV>, now: int, screen: Seq<char>) -> PaneV
    decreases es.len(),
{
    if es.len() == 0 { s } else { step_events(step_event(s, es[0], now, screen), es.drop_first(), now, screen) }
}

impl BlockController {
    /// A fresh pane state: idle, with the given working directory and
    /// session context, following new output.
    pub fn new(working_directory: String, host: String, is_remote: bool) -> (r: BlockController)
        ensures
            r@.history == Seq::<BlockV>::empty(),
            r@.current_block is None,
            r@.working_directory == working_directory@,
            r@.host == host@,
            r@.is_remote == is_remote,
            r@.scroll_offset == 0,
            r@.follow_mode,
    {
        let r = BlockController {
            history: Vec::new(),
            current_block: None,
            working_directory,
            host,
            is_remote,
            scroll_offset: 0,
            follow_mode: true,
        };
        proof {
            assert(r@.history =~= Seq::<BlockV>::empty());
        }
        r
    }

    /// Whether the pane's current block still has no exit code; pane
    /// close must be refused while this holds.
    pub fn has_running_command(&self) -> (r: bool)
        ensures
            r == running(self@),
    {
        match &self.current_block {
            Some(b) => b.exit_code.is_none(),
            None => false,
        }
    }

    /// Whether the pane may be closed: only when no command is
    /// visibly running.
    pub fn can_close(&self) -> (r: bool)
        ensures
            r == !running(self@),
    {
        !self.has_running_command()
    }

    /// Applies one drained event at time `now_ms`, with `screen` the
    /// parser's current viewport snapshot.
    #[verifier::rlimit(50)]
    pub fn apply_event(&mut self, event: ParserEvent, now_ms: i64, screen: &str)
        ensures
            final(self)@ == step_event(old(self)@, event@, now_ms as int, screen@),
    {
        let ghost s0 = self@;
        match event {
            ParserEvent::PromptShown => {
                proof {
                    assert(self@ =~~= step_event(s0, event@, now_ms as int, screen@));
                }
            },
            ParserEvent::CommandStart => {
                let mut taken: Option<Block> = None;
                core::mem::swap(&mut self.current_block, &mut taken);
                match taken {
                    Some(mut b) => {
                        match b.started_at {
                            Some(start) => {
                                b.ended_at = Some(now_ms);
                                b.duration_ms = Some(
                                    if now_ms >= start {
                                        ((now_ms as i128) - (start as i128)) as u64
                                    } else {
                                        0
                                    },
                                );
                            },
                            None => {},
                        }
                        b.output = String::from_str(screen);
                        self.history.push(b);
                    },
                    None => {},
                }
                let fresh = Block {
                    command: String::new(),
                    started_at: Some(now_ms),
                    ended_at: None,
                    duration_ms: None,
                    exit_code: None,
                    cwd: Some(self.working_directory.clone()),
                    output_range: None,
                    pinned: false,
                    tags: Vec::new(),
                    selected: false,
                    output: String::new(),
                    git_branch: None,
                    git_status: None,
                    host: self.host.clone(),
                    is_remote: self.is_remote,
                    collapsed: false,
                };
                self.current_block = Some(fresh);
                proof {
                    assert(self@ =~~= step_event(s0, event@, now_ms as int, screen@));
                }
            },
            ParserEvent::Command(cmd) => {
                match &mut self.current_block {
                    Some(b) => {
                        b.command = cmd;
                    },
                    None => {},
                }
                proof {
                    assert(self@ =~~= step_event(s0, event@, now_ms as int, screen@));
                }
            },
            ParserEvent::Directory(dir) => {
                match &mut self.current_block {
                    Some(b) => {
                        b.cwd = Some(dir.clone());
                    },
                    None => {},
                }
                self.working_directory = dir;
                proof {
                    assert(self@ =~~= step_event(s0, event@, now_ms as int, screen@));
                }
            },
            ParserEvent::GitInfo { branch, status } => {
                match &mut self.current_block {
                    Some(b) => {
                        b.git_branch = Some(branch);
                        b.git_status = status;
                    },
                    None => {},
                }
                proof {
                    assert(self@ =~~= step_event(s0, event@, now_ms as int, screen@));
                }
            },
            ParserEvent::CommandEnd(code) => {
                let mut taken: Option<Block> = None;
                core::mem::swap(&mut self.current_block, &mut taken);
                match taken {
                    Some(mut b) => {
                        b.exit_code = Some(code);
                        match b.started_at {
                            Some(start) => {
                                b.ended_at = Some(now_ms);
                                b.duration_ms = Some(
                                    if now_ms >= start {
                                        ((now_ms as i128) - (start as i128)) as u64
                                    } else {
                                        0
                                    },
                                );
                            },
                            None => {},
                        }
                        b.output = String::from_str(screen);
                        self.history.push(b);
                    },
                    None => {},
                }
                proof {
                    assert(self@ =~~= step_event(s0, event@, now_ms as int, screen@));
                }
            },
        }
    }

    /// Drains a whole event queue in FIFO order.
    #[verifier::loop_isolation(false)]
    pub fn apply_events(&mut self, events: Vec<ParserEvent>, now_ms: i64, screen: &str)
        ensures
            final(self)@ == step_events(
                old(self)@,
                events@.map_values(|e: ParserEvent| e@),
                now_ms as int,
                screen@,
            ),
    {
        let ghost es = events@.map_values(|e: ParserEvent| e@);
        let mut i: usize = 0;
        let n = events.len();
        let mut events = events;
        proof {
            assert(es.skip(0) =~= es);
        }
        while i < n
            invariant
                0 <= i <= n,
                n == events@.len(),
                es == events@.map_values(|e: ParserEvent| e@),
                step_events(old(self)@, es, now_ms as int, screen@) == step_events(
                    self@,
                    es.skip(i as int),
                    now_ms as int,
                    screen@,
                ),
            decreases n - i,
        {
            let ghost pre = self@;
            let e = events[i].clone_event();
            self.apply_event(e, now_ms, screen);
            proof {
                assert(es.skip(i as int)[0] == es[i as int]);
                assert(es.skip(i as int).drop_first() =~= es.skip(i + 1));
            }
            i += 1;
        }
        proof {
            assert(es.skip(n as int) =~= Seq::<EventV>::empty());
        }
    }

    /// Toggles the pinned annotation of a recorded block; the rest of
    /// the history is untouched. An index past the history does
    /// nothing.
    pub fn toggle_pinned(&mut self, index: usize)
        ensures
            final(self)@ == (if index < old(self)@.history.len() {
                PaneV {
                    history: old(self)@.history.update(
                        index as int,
                        BlockV {
                            pinned: !old(self)@.history[index as int].pinned,
                            ..old(self)@.history[index as int]
                        },
                    ),
                    ..old(self)@
                }
            } else {
                old(self)@
            }),
    {
        let ghost s0 = self@;
        if index < self.history.len() {
            let mut b = self.history.remove(index);
            b.pinned = !b.pinned;
            self.history.insert(index, b);
            proof {
                assert(self.history@.map_values(|x: Block| x@) =~= s0.history.update(
                    index as int,
                    BlockV { pinned: !s0.history[index as int].pinned, ..s0.history[index as int] },
                ));
                assert(self@ =~~= (PaneV {
                    history: s0.history.update(
                        index as int,
                        BlockV {
                            pinned: !s0.history[index as int].pinned,
                            ..s0.history[index as int]
                        },
                    ),
                    ..s0
                }));
            }
        }
    }

    /// Toggles the collapsed annotation of a recorded block; the rest
    /// of the history is untouched.
    pub fn toggle_collapsed(&mut self, index: usize)
        ensures
            final(self)@ == (if index < old(self)@.history.len() {
                PaneV {
                    history: old(self)@.history.update(
                        index as int,
                        BlockV {
                            collapsed: !old(self)@.history[index as int].collapsed,
                            ..old(self)@.history[index as int]
                        },
                    ),
                    ..old(self)@
                }
            } else {
                old(self)@
            }),
    {
        let ghost s0 = self@;
        if index < self.history.len() {
            let mut b = self.history.remove(index);
            b.collapsed = !b.collapsed;
            self.history.insert(index, b);
            proof {
                assert(self.history@.map_values(|x: Block| x@) =~= s0.history.update(
                    index as int,
                    BlockV {
                        collapsed: !s0.history[index as int].collapsed,
                        ..s0.history[index as int]
                    },
                ));
                assert(self@ =~~= (PaneV {
                    history: s0.history.update(
                        index as int,
                        BlockV {
                            collapsed: !s0.history[index as int].collapsed,
                            ..s0.history[index as int]
                        },
                    ),
                    ..s0
                }));
            }
        }
    }

    /// Sets the selected annotation of a recorded block; the rest of
    /// the history is untouched.
    pub fn set_selected(&mut self, index: usize, selected: bool)
        ensures
            final(self)@ == (if index < old(self)@.history.len() {
                PaneV {
                    history: old(self)@.history.update(
                        index as int,
                        BlockV { selected, ..old(self)@.history[index as int] },
                    ),
                    ..old(self)@
                }
            } else {
                old(self)@
            }),
    {
        let ghost s0 = self@;
        if index < self.history.len() {
            let mut b = self.history.remove(index);
            b.selected = selected;
            self.history.insert(index, b);
            proof {
                assert(self.history@.map_values(|x: Block| x@) =~= s0.history.update(
                    index as int,
                    BlockV { selected, ..s0.history[index as int] },
                ));
                assert(self@ =~~= (PaneV {
                    history: s0.history.update(
                        index as int,
                        BlockV { selected, ..s0.history[index as int] },
                    ),
                    ..s0
                }));
            }
        }
    }

    /// Ends the tick: with fresh bytes this tick and follow mode on,
    /// the scroll offset snaps back to the newest content.
    pub fn finish_tick(&mut self, had_new_data: bool)
        ensures
            final(self)@ == (if had_new_data && old(self)@.follow_mode {
                PaneV { scroll_offset: 0, ..old(self)@ }
            } else {
                old(self)@
            }),
    {
        let ghost s0 = self@;
        if had_new_data && self.follow_mode {
            self.scroll_offset = 0;
            proof {
                assert(self@ =~~= PaneV { scroll_offset: 0, ..s0 });
            }
        }
    }
}

impl ParserEvent {
    /// A structural copy of the event.
    pub fn clone_event(&self) -> (r: ParserEvent)
        ensures
            r@ == self@,
    {
        match self {
            ParserEvent::PromptShown => ParserEvent::PromptShown,
            ParserEvent::CommandStart => ParserEvent::CommandStart,
            ParserEvent::Command(s) => ParserEvent::Command(s.clone()),
            ParserEvent::CommandEnd(c) => ParserEvent::CommandEnd(*c),
            ParserEvent::Directory(d) => ParserEvent::Directory(d.clone()),
            ParserEvent::GitInfo { branch, status } => ParserEvent::GitInfo {
                branch: branch.clone(),
                status: *status,
            },
        }
    }
}

/// Law: on an idle pane, a command start at `t0` followed by a command
/// end with code `c` at a later `t1` records exactly one finalized
/// block: its exit code is `c`, it started at `t0`, ended at `t1`,
/// its duration is exactly `t1 - t0` (so started_at < ended_at), the
/// earlier history is untouched, and the pane is idle again.
pub proof fn lemma_start_then_end(
    s: PaneV,
    t0: int,
    t1: int,
    c: int,
    scr0: Seq<char>,
    scr1: Seq<char>,
)
    requires
        s.current_block is None,
        t0 < t1,
    ensures
        ({
            let s1 = step_event(s, EventV::CommandStart, t0, scr0);
            let s2 = step_event(s1, EventV::CommandEnd(c), t1, scr1);
            &&& s2.history.len() == s.history.len() + 1
            &&& s2.history.last().exit_code == Some(c)
            &&& s2.history.last().started_at == Some(t0)
            &&& s2.history.last().ended_at == Some(t1)
            &&& s2.history.last().duration_ms == Some(t1 - t0)
            &&& s2.history.last().started_at.unwrap() < s2.history.last().ended_at.unwrap()
            &&& s2.current_block is None
            &&& forall|i: int| 0 <= i < s.history.len() ==> s2.history[i] == s.history[i]
        }),
{
}

/// Law: the controller preserves its own well-formedness — every
/// transition leaves the current block, if any, with a start
/// timestamp, since a command start stamps the fresh block and no
/// other event clears the stamp.
pub proof fn lemma_step_preserves_wf(s: PaneV, e: EventV, now: int, screen: Seq<char>)
    requires
        pane_wf(s),
    ensures
        pane_wf(step_event(s, e, now, screen)),
{
}

/// Law: a second command start with no intervening command end closes
/// the running block defensively — exactly one block is appended, its
/// exit code still absent, its end timestamp and duration set from the
/// running block's start — and exactly one fresh running block takes
/// its place; history grows by exactly one.
pub proof fn lemma_defensive_close(s: PaneV, t: int, scr: Seq<char>)
    requires
        running(s),
        pane_wf(s),
    ensures
        ({
            let s1 = step_event(s, EventV::CommandStart, t, scr);
            &&& s1.history.len() == s.history.len() + 1
            &&& s1.history.last() == closed_out(s.current_block.unwrap(), t, scr)
            &&& s1.history.last().exit_code is None
            &&& s1.history.last().ended_at == Some(t)
            &&& s1.history.last().duration_ms == Some(
                dur_of(s.current_block.unwrap().started_at.unwrap(), t),
            )
            &&& s1.history.last().output == scr
            &&& s1.current_block == Some(fresh_block(s, t))
            &&& running(s1)
            &&& forall|i: int| 0 <= i < s.history.len() ==> s1.history[i] == s.history[i]
        }),
{
}

/// Law: on an idle pane, a command start and a command end drained in
/// one tick — so stamped with the same clock reading — record exactly
/// one finalized block: exit code set, both timestamps equal to the
/// tick's time, duration zero, and the pane idle again.
pub proof fn lemma_single_drain_cycle(s: PaneV, c: int, now: int, scr: Seq<char>)
    requires
        s.current_block is None,
    ensures
        ({
            let s2 = step_events(
                s,
                seq![EventV::CommandStart, EventV::CommandEnd(c)],
                now,
                scr,
            );
            &&& s2.history.len() == s.history.len() + 1
            &&& s2.history.last().exit_code == Some(c)
            &&& s2.history.last().started_at == Some(now)
            &&& s2.history.last().ended_at == Some(now)
            &&& s2.history.last().duration_ms == Some(0int)
            &&& s2.history.last().output == scr
            &&& s2.current_block is None
            &&& forall|i: int| 0 <= i < s.history.len() ==> s2.history[i] == s.history[i]
        }),
{
    let es = seq![EventV::CommandStart, EventV::CommandEnd(c)];
    let es1 = es.drop_first();
    let s1 = step_event(s, EventV::CommandStart, now, scr);
    let s2 = step_event(s1, EventV::CommandEnd(c), now, scr);
    assert(es[0] == EventV::CommandStart);
    assert(step_events(s, es, now, scr) == step_events(s1, es1, now, scr));
    assert(es1[0] == EventV::CommandEnd(c));
    assert(es1.drop_first() =~= Seq::<EventV>::empty());
    assert(step_events(s1, es1, now, scr) == step_events(s2, es1.drop_first(), now, scr));
    assert(step_events(s2, es1.drop_first(), now, scr) == s2);
}

/// Law: a directory event with no current block still updates the
/// pane's working directory, and a subsequent command start inherits
/// that directory as the new block's working directory.
pub proof fn lemma_directory_inherited(s: PaneV, d: Seq<char>, t0: int, t1: int, scr: Seq<char>)
    requires
        s.current_block is None,
    ensures
        ({
            let s1 = step_event(s, EventV::Directory(d), t0, scr);
            let s2 = step_event(s1, EventV::CommandStart, t1, scr);
            &&& s1.working_directory == d
            &&& s1.history == s.history
            &&& s1.current_block is None
            &&& s2.current_block matches Some(b) && b.cwd == Some(d)
        }),
{
}

} // verus!
