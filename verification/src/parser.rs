//! The terminal parser: feeds raw bytes both to the screen-buffer
//! emulator and to the shell-integration marker scanner, and queues the
//! discrete events that the scanner recovers.
//!
//! The scan buffer is bounded: it never ends a call longer than 8192
//! bytes, and on overflow only the most recent 4096 bytes are kept, so
//! a marker whose start was truncated away is permanently lost. A scan
//! cursor makes emission deterministic: each completed marker is
//! consumed exactly once, however the bytes are split across calls.

pub use crate::events::{GitStatus, ParserEvent};

use crate::events::EventV;
use crate::scan::{events_view, scan_pass, scan_spec, GitPayloadV};
use crate::text::lossy_of;
use crate::vt::{emu_new, emu_process, emu_screen, emu_screen_mut, Emulator};
use vstd::prelude::*;

verus! {

/// The scan buffer's hard cap.
pub open spec fn buffer_cap() -> int {
    8192
}

/// How many trailing bytes survive an overflow.
pub open spec fn buffer_keep() -> int {
    4096
}

/// The event that a scan pass's git payload turns into.
pub open spec fn git_event(g: GitPayloadV) -> EventV {
    EventV::GitInfo { branch: lossy_of(g.branch), status: g.status }
}

/// The sequence of git events a scan pass appends: one or none.
pub open spec fn git_events(g: Option<GitPayloadV>) -> Seq<EventV> {
    match g {
        Some(p) => seq![git_event(p)],
        None => Seq::empty(),
    }
}

/// The scan buffer after cap enforcement.
pub open spec fn cap_buf(b: Seq<u8>) -> Seq<u8> {
    if b.len() > buffer_cap() { b.skip(b.len() - buffer_keep()) } else { b }
}

/// The scan cursor after cap enforcement.
pub open spec fn cap_pos(b: Seq<u8>, p: int) -> int {
    if b.len() > buffer_cap() {
        if p >= b.len() - buffer_keep() { p - (b.len() - buffer_keep()) } else { 0 }
    } else {
        p
    }
}

/// Feeds raw bytes into (a) a terminal-emulation grid and (b) a
/// shell-integration marker scanner producing discrete events.
pub struct TerminalParser {
    emu: Emulator,
    events: Vec<ParserEvent>,
    dirty: bool,
    buffer: Vec<u8>,
    scanned: usize,
    alt_screen_active: bool,
}

impl TerminalParser {
    /// The bytes currently held for marker scanning.
    pub closed spec fn scan_buffer(&self) -> Seq<u8> {
        self.buffer@
    }

    /// How far into the scan buffer scanning has advanced.
    pub closed spec fn scan_cursor(&self) -> int {
        self.scanned as int
    }

    /// The queued, not yet drained events.
    pub closed spec fn queued(&self) -> Seq<ParserEvent> {
        self.events@
    }

    /// Whether the alternate screen buffer is active.
    pub closed spec fn alt_active(&self) -> bool {
        self.alt_screen_active
    }

    /// Whether the grid changed since it was last marked clean.
    pub closed spec fn dirty_flag(&self) -> bool {
        self.dirty
    }

    /// The scan state is well-formed: the cursor is inside the buffer
    /// and the buffer respects its cap.
    pub closed spec fn wf(&self) -> bool {
        self.scanned <= self.buffer@.len() && self.buffer@.len() <= buffer_cap()
    }

    /// Builds a parser over a fresh emulator grid of the given size.
    /// The emulator's grid cannot take degenerate geometries: at least
    /// one row and two columns.
    pub fn new(rows: u16, cols: u16) -> (r: TerminalParser)
        requires
            rows >= 1,
            cols >= 2,
        ensures
            r.wf(),
            r.scan_buffer() == Seq::<u8>::empty(),
            r.scan_cursor() == 0,
            r.queued() == Seq::<ParserEvent>::empty(),
            !r.alt_active(),
            r.dirty_flag(),
    {
        TerminalParser {
            emu: emu_new(rows, cols, 1000),
            events: Vec::new(),
            dirty: true,
            buffer: Vec::new(),
            scanned: 0,
            alt_screen_active: false,
        }
    }

    /// Appends the bytes to the scan buffer, runs the marker scan over
    /// the unconsumed part, queues the recovered events in order (the
    /// winning git payload last), forwards the same bytes to the grid
    /// emulator, enforces the buffer cap, and marks the state dirty.
    #[verifier::rlimit(50)]
    pub fn process(&mut self, data: &[u8])
        requires
            old(self).wf(),
        ensures
            final(self).wf(),
            final(self).scan_buffer().len() <= buffer_cap(),
            ({
                let appended = old(self).scan_buffer() + data@;
                let out = scan_spec(appended, old(self).scan_cursor(), old(self).alt_active());
                &&& events_view(final(self).queued()) == events_view(old(self).queued())
                    + out.events + git_events(out.git)
                &&& final(self).alt_active() == out.alt
                &&& final(self).scan_buffer() == cap_buf(appended)
                &&& final(self).scan_cursor() == cap_pos(appended, out.pos)
                &&& final(self).dirty_flag()
            }),
    {
        let ghost old_buf = self.buffer@;
        let ghost old_events = self.events@;
        let mut i: usize = 0;
        while i < data.len()
            invariant
                0 <= i <= data@.len(),
                self.buffer@ =~= old_buf + data@.take(i as int),
                self.buffer@.len() == old_buf.len() + i,
                self.scanned == old(self).scanned,
                self.alt_screen_active == old(self).alt_screen_active,
                self.events@ == old_events,
                old(self).wf(),
                old_buf == old(self).scan_buffer(),
            decreases data@.len() - i,
        {
            self.buffer.push(data[i]);
            proof {
                assert(old_buf + data@.take(i + 1) =~= (old_buf + data@.take(i as int)).push(
                    data@[i as int],
                ));
            }
            i += 1;
        }
        proof {
            assert(self.buffer@ =~= old_buf + data@);
        }
        let ghost appended = self.buffer@;
        let ghost out = scan_spec(appended, self.scanned as int, self.alt_screen_active);
        let pass = scan_pass(&self.buffer, self.scanned, self.alt_screen_active);
        let mut emitted = pass.events;
        proof {
            assert(events_view(old_events + emitted@) =~= events_view(old_events) + events_view(
                emitted@,
            ));
        }
        self.events.append(&mut emitted);
        match pass.git {
            Some(g) => {
                let ghost pre = self.events@;
                self.events.push(ParserEvent::GitInfo { branch: g.0, status: g.1 });
                proof {
                    assert(events_view(self.events@) =~= events_view(pre) + git_events(out.git));
                    assert((events_view(old_events) + out.events) + git_events(out.git)
                        =~= events_view(old_events) + out.events + git_events(out.git));
                }
            },
            None => {
                proof {
                    assert(events_view(self.events@) + git_events(out.git) =~= events_view(
                        self.events@,
                    ));
                }
            },
        }
        self.scanned = pass.pos;
        self.alt_screen_active = pass.alt;
        if self.buffer.len() > 8192 {
            let keep_from = self.buffer.len() - 4096;
            let tail = crate::scan::copy_range(&self.buffer, keep_from, self.buffer.len());
            proof {
                assert(tail@ =~= appended.skip(appended.len() - buffer_keep()));
            }
            self.buffer = tail;
            self.scanned = if pass.pos >= keep_from { pass.pos - keep_from } else { 0 };
        }
        emu_process(&mut self.emu, data);
        self.dirty = true;
    }

    /// Forwards a resize to the grid and marks the state dirty. The
    /// grid cannot take degenerate geometries: at least one row and
    /// two columns.
    pub fn resize(&mut self, rows: u16, cols: u16)
        requires
            old(self).wf(),
            rows >= 1,
            cols >= 2,
        ensures
            final(self).wf(),
            final(self).scan_buffer() == old(self).scan_buffer(),
            final(self).scan_cursor() == old(self).scan_cursor(),
            final(self).queued() == old(self).queued(),
            final(self).alt_active() == old(self).alt_active(),
            final(self).dirty_flag(),
    {
        let screen = emu_screen_mut(&mut self.emu);
        screen.set_size(rows, cols);
        self.dirty = true;
    }

    /// Read access to the emulated grid.
    pub fn screen(&self) -> &vt100::Screen {
        emu_screen(&self.emu)
    }

    /// Drains the FIFO event queue, resetting it to empty.
    pub fn take_events(&mut self) -> (r: Vec<ParserEvent>)
        requires
            old(self).wf(),
        ensures
            final(self).wf(),
            r@ == old(self).queued(),
            final(self).queued() == Seq::<ParserEvent>::empty(),
            final(self).scan_buffer() == old(self).scan_buffer(),
            final(self).scan_cursor() == old(self).scan_cursor(),
            final(self).alt_active() == old(self).alt_active(),
            final(self).dirty_flag() == old(self).dirty_flag(),
    {
        let mut out: Vec<ParserEvent> = Vec::new();
        core::mem::swap(&mut self.events, &mut out);
        out
    }

    /// A row-major plain-text snapshot of the visible viewport only,
    /// one line per row: content already scrolled off before command
    /// completion is not captured. The emulator's grid is not part of
    /// this type's model, so the exact statement — the result is the
    /// grid's cell texts with a newline after every row — stands on
    /// the projection this delegates to.
    pub fn screen_text(&self) -> String {
        crate::render::screen_text_lines(emu_screen(&self.emu))
    }

    /// How many bytes the scan buffer currently holds; never more
    /// than the cap.
    pub fn scan_buffer_len(&self) -> (r: usize)
        ensures
            r == self.scan_buffer().len(),
    {
        self.buffer.len()
    }

    /// Whether the grid changed since `mark_clean`.
    pub fn is_dirty(&self) -> (r: bool)
        ensures
            r == self.dirty_flag(),
    {
        self.dirty
    }

    /// Acknowledges the current grid state.
    pub fn mark_clean(&mut self)
        requires
            old(self).wf(),
        ensures
            final(self).wf(),
            !final(self).dirty_flag(),
            final(self).queued() == old(self).queued(),
            final(self).scan_buffer() == old(self).scan_buffer(),
            final(self).scan_cursor() == old(self).scan_cursor(),
            final(self).alt_active() == old(self).alt_active(),
    {
        self.dirty = false;
    }

    /// Whether the alternate screen buffer is active, selecting raw
    /// full-screen rendering over structured block rendering.
    pub fn is_alt_screen_active(&self) -> (r: bool)
        ensures
            r == self.alt_active(),
    {
        self.alt_screen_active
    }
}

} // verus!
