use tant::lifecycle::BlockController;
use tant::parser::TerminalParser;
use tant::{GitStatus, ParserEvent};

fn fresh_pane() -> BlockController {
    BlockController::new("/home".to_string(), "localhost".to_string(), false)
}

#[test]
fn command_end_marker_yields_one_event() {
    let mut p = TerminalParser::new(24, 80);
    p.process(b"some output \x1b]133;D;0\x07 more");
    let events = p.take_events();
    assert_eq!(events.len(), 1);
    assert!(matches!(events[0], ParserEvent::CommandEnd(0)));
}

#[test]
fn malformed_exit_code_yields_no_event() {
    let mut p = TerminalParser::new(24, 80);
    p.process(b"\x1b]133;D;xy\x07");
    assert!(p.take_events().is_empty());
    p.process(b"\x1b]133;D0\x07");
    assert!(p.take_events().is_empty());
}

#[test]
fn two_command_end_markers_yield_two_events() {
    let mut p = TerminalParser::new(24, 80);
    p.process(b"\x1b]133;D;1\x07 between \x1b]133;D;2\x07");
    let events = p.take_events();
    assert_eq!(events.len(), 2);
    assert!(matches!(events[0], ParserEvent::CommandEnd(1)));
    assert!(matches!(events[1], ParserEvent::CommandEnd(2)));
}

#[test]
fn exit_code_trimmed_signed_and_st_terminated() {
    let mut p = TerminalParser::new(24, 80);
    p.process(b"\x1b]133;D; 42 \x07");
    let events = p.take_events();
    assert_eq!(events.len(), 1);
    assert!(matches!(events[0], ParserEvent::CommandEnd(42)));
    p.process(b"\x1b]133;D;-9\x1b\\");
    let events = p.take_events();
    assert_eq!(events.len(), 1);
    assert!(matches!(events[0], ParserEvent::CommandEnd(-9)));
}

#[test]
fn overflowing_exit_code_is_ignored() {
    let mut p = TerminalParser::new(24, 80);
    p.process(b"\x1b]133;D;99999999999\x07");
    assert!(p.take_events().is_empty());
}

#[test]
fn marker_split_across_calls_emits_once() {
    let mut p = TerminalParser::new(24, 80);
    p.process(b"\x1b]133;");
    assert!(p.take_events().is_empty());
    p.process(b"D;7");
    assert!(p.take_events().is_empty());
    p.process(b"\x07");
    let events = p.take_events();
    assert_eq!(events.len(), 1);
    assert!(matches!(events[0], ParserEvent::CommandEnd(7)));
    p.process(b" trailing bytes ");
    assert!(p.take_events().is_empty());
}

#[test]
fn prompt_and_command_start_markers() {
    let mut p = TerminalParser::new(24, 80);
    p.process(b"\x1b]133;A\x07\x1b]133;C\x07");
    let events = p.take_events();
    assert_eq!(events.len(), 2);
    assert!(matches!(events[0], ParserEvent::PromptShown));
    assert!(matches!(events[1], ParserEvent::CommandStart));
}

#[test]
fn alt_screen_markers_toggle_flag() {
    let mut p = TerminalParser::new(24, 80);
    assert!(!p.is_alt_screen_active());
    p.process(b"\x1b[?1049h");
    assert!(p.is_alt_screen_active());
    p.process(b"\x1b[?1049l");
    assert!(!p.is_alt_screen_active());
}

#[test]
fn rightmost_git_info_wins() {
    let mut p = TerminalParser::new(24, 80);
    p.process(b"\x1b]133;G;branch=old;status=dirty\x07 ... \x1b]133;G;branch=new;status=clean\x07");
    let events = p.take_events();
    assert_eq!(events.len(), 1);
    match &events[0] {
        ParserEvent::GitInfo { branch, status } => {
            assert_eq!(branch, "new");
            assert!(matches!(status, Some(GitStatus::Clean)));
        }
        other => panic!("unexpected event {:?}", other),
    }
}

#[test]
fn git_info_without_branch_is_ignored() {
    let mut p = TerminalParser::new(24, 80);
    p.process(b"\x1b]133;G;branch=;status=clean\x07");
    assert!(p.take_events().is_empty());
    p.process(b"\x1b]133;G;nokey\x07");
    assert!(p.take_events().is_empty());
    p.process(b"\x1b]133;G;status=weird;branch=b\x07");
    let events = p.take_events();
    assert_eq!(events.len(), 1);
    match &events[0] {
        ParserEvent::GitInfo { branch, status } => {
            assert_eq!(branch, "b");
            assert!(status.is_none());
        }
        other => panic!("unexpected event {:?}", other),
    }
}

#[test]
fn directory_marker_yields_path() {
    let mut p = TerminalParser::new(24, 80);
    p.process(b"\x1b]1337;CurrentDir=/tmp\x07");
    let events = p.take_events();
    assert_eq!(events.len(), 1);
    match &events[0] {
        ParserEvent::Directory(d) => assert_eq!(d, "/tmp"),
        other => panic!("unexpected event {:?}", other),
    }
    p.process(b"\x1b]1337;CurrentDir=\x07");
    assert!(p.take_events().is_empty());
}

#[test]
fn invalid_utf8_in_directory_is_replaced() {
    let mut p = TerminalParser::new(24, 80);
    p.process(b"\x1b]1337;CurrentDir=/t\xffmp\x07");
    let events = p.take_events();
    assert_eq!(events.len(), 1);
    match &events[0] {
        ParserEvent::Directory(d) => assert_eq!(d, "/t\u{fffd}mp"),
        other => panic!("unexpected event {:?}", other),
    }
}

#[test]
fn buffer_never_grows_past_cap() {
    let mut p = TerminalParser::new(24, 80);
    let junk = vec![b'x'; 3000];
    for _ in 0..4 {
        p.process(&junk);
        assert!(p.scan_buffer_len() <= 8192);
    }
    assert!(p.take_events().is_empty());
}

#[test]
fn truncated_marker_start_is_lost() {
    let mut p = TerminalParser::new(24, 80);
    // an unfinished marker head, then enough bytes to push it past the cap
    p.process(b"\x1b]133;D;1");
    let junk = vec![b'y'; 9000];
    p.process(&junk);
    // the terminator arrives too late: the marker's start was truncated away
    p.process(b"\x07");
    assert!(p.take_events().is_empty());
}

#[test]
fn screen_text_reflects_grid() {
    let mut p = TerminalParser::new(3, 10);
    p.process(b"hi");
    let text = p.screen_text();
    assert!(text.starts_with("hi"));
    assert_eq!(text.matches('\n').count(), 3);
    assert!(p.is_dirty());
    p.mark_clean();
    assert!(!p.is_dirty());
}

#[test]
fn start_then_end_records_one_block() {
    let mut p = TerminalParser::new(24, 80);
    let mut pane = fresh_pane();
    p.process(b"\x1b]133;C\x07");
    pane.apply_events(p.take_events(), 1_000, &p.screen_text());
    assert!(pane.has_running_command());
    assert!(!pane.can_close());
    p.process(b"\x1b]133;D;0\x07");
    pane.apply_events(p.take_events(), 1_250, &p.screen_text());
    assert_eq!(pane.history.len(), 1);
    let b = &pane.history[0];
    assert_eq!(b.exit_code, Some(0));
    assert_eq!(b.started_at, Some(1_000));
    assert_eq!(b.ended_at, Some(1_250));
    assert_eq!(b.duration_ms, Some(250));
    assert!(b.started_at.unwrap() < b.ended_at.unwrap());
    assert!(pane.current_block.is_none());
    assert!(pane.can_close());
}

#[test]
fn end_to_end_single_drain() {
    let mut p = TerminalParser::new(24, 80);
    let mut pane = fresh_pane();
    p.process(b"\x1b]133;C\x07");
    p.process(b"ls -la\n");
    p.process(b"\x1b]133;D;0\x07");
    pane.apply_events(p.take_events(), 5_000, &p.screen_text());
    assert_eq!(pane.history.len(), 1);
    let b = &pane.history[0];
    assert_eq!(b.exit_code, Some(0));
    assert!(b.duration_ms.unwrap() < u64::MAX);
    assert!(pane.current_block.is_none());
}

#[test]
fn double_start_defensively_finalizes() {
    let mut p = TerminalParser::new(24, 80);
    let mut pane = fresh_pane();
    p.process(b"\x1b]133;C\x07");
    pane.apply_events(p.take_events(), 100, &p.screen_text());
    let before = pane.history.len();
    p.process(b"\x1b]133;C\x07");
    pane.apply_events(p.take_events(), 200, &p.screen_text());
    assert_eq!(pane.history.len(), before + 1);
    let closed = &pane.history[before];
    assert!(closed.exit_code.is_none());
    assert_eq!(closed.ended_at, Some(200));
    assert!(pane.has_running_command());
    assert_eq!(pane.current_block.as_ref().unwrap().started_at, Some(200));
}

#[test]
fn directory_updates_pane_and_next_block_inherits() {
    let mut p = TerminalParser::new(24, 80);
    let mut pane = fresh_pane();
    p.process(b"\x1b]1337;CurrentDir=/tmp\x07");
    pane.apply_events(p.take_events(), 10, &p.screen_text());
    assert_eq!(pane.working_directory, "/tmp");
    assert!(pane.current_block.is_none());
    p.process(b"\x1b]133;C\x07");
    pane.apply_events(p.take_events(), 20, &p.screen_text());
    assert_eq!(pane.current_block.as_ref().unwrap().cwd.as_deref(), Some("/tmp"));
}

#[test]
fn git_info_fills_running_block() {
    let mut p = TerminalParser::new(24, 80);
    let mut pane = fresh_pane();
    p.process(b"\x1b]133;C\x07\x1b]133;G;branch=main;status=dirty\x07");
    pane.apply_events(p.take_events(), 10, &p.screen_text());
    let b = pane.current_block.as_ref().unwrap();
    assert_eq!(b.git_branch.as_deref(), Some("main"));
    assert!(matches!(b.git_status, Some(GitStatus::Dirty)));
}

#[test]
fn events_without_running_block_are_dropped() {
    let mut pane = fresh_pane();
    pane.apply_event(ParserEvent::CommandEnd(3), 10, "");
    pane.apply_event(ParserEvent::Command("ls".to_string()), 10, "");
    pane.apply_event(
        ParserEvent::GitInfo { branch: "b".to_string(), status: None },
        10,
        "",
    );
    pane.apply_event(ParserEvent::PromptShown, 10, "");
    assert!(pane.history.is_empty());
    assert!(pane.current_block.is_none());
}

#[test]
fn follow_mode_resets_scroll_on_new_data() {
    let mut pane = fresh_pane();
    pane.scroll_offset = 7;
    pane.finish_tick(false);
    assert_eq!(pane.scroll_offset, 7);
    pane.finish_tick(true);
    assert_eq!(pane.scroll_offset, 0);
    pane.scroll_offset = 5;
    pane.follow_mode = false;
    pane.finish_tick(true);
    assert_eq!(pane.scroll_offset, 5);
}

#[test]
fn annotations_change_only_their_field() {
    let mut p = TerminalParser::new(24, 80);
    let mut pane = fresh_pane();
    p.process(b"\x1b]133;C\x07\x1b]133;D;0\x07");
    pane.apply_events(p.take_events(), 1, &p.screen_text());
    assert_eq!(pane.history.len(), 1);
    assert!(!pane.history[0].pinned);
    pane.toggle_pinned(0);
    assert!(pane.history[0].pinned);
    assert_eq!(pane.history[0].exit_code, Some(0));
    pane.toggle_collapsed(0);
    assert!(pane.history[0].collapsed);
    pane.set_selected(0, true);
    assert!(pane.history[0].selected);
    pane.set_selected(7, true);
    assert_eq!(pane.history.len(), 1);
}

#[test]
fn read_row_reflects_grid_cells() {
    let mut p = TerminalParser::new(2, 8);
    p.process(b"\x1b[31mRX");
    let cells = tant::render::read_row(p.screen(), 0, 8);
    assert_eq!(cells.len(), 8);
    assert_eq!(cells[0].text, "R");
    assert_eq!(cells[0].fg, tant::cache::CellColor::Idx(1));
    assert_eq!(cells[1].text, "X");
    assert_eq!(cells[0].bg, tant::cache::CellColor::Default);
    assert_eq!(cells[2].text, "");
}

#[test]
fn screen_projections_reflect_grid() {
    let mut p = TerminalParser::new(3, 10);
    p.process(b"hi");
    assert_eq!(tant::render::screen_to_text(p.screen()), "hi\n\n");
    assert_eq!(p.screen_text(), "hi\n\n\n");
}
