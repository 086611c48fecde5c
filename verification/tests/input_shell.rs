use eres_os::consolefmt::{format_hex_u64, format_u64};
use eres_os::frame::FrameStats;
use eres_os::shell::{help_text, mem_response, ticks_response};
use eres_os::keyboard::{KeyEvent, KeyboardState};
use eres_os::shell::{
    normalize_simplefs_path, parse_command, run_command_self_tests, trim_spaces, CommandKind,
    ShellState,
};

#[test]
fn decodes_arrow_up_down() {
    let mut state = KeyboardState::new();
    state.clear_buffer();

    state.inject_scancode(0xE0);
    state.inject_scancode(0x48);
    state.inject_scancode(0xE0);
    state.inject_scancode(0x50);

    assert_eq!(state.try_read_key(), Some(KeyEvent::Up));
    assert_eq!(state.try_read_key(), Some(KeyEvent::Down));
}

#[test]
fn decodes_hello_scancodes() {
    let mut state = KeyboardState::new();
    for scancode in [0x23u8, 0x12, 0x26, 0x26, 0x18] {
        state.inject_scancode(scancode);
    }
    for expected in b"hello" {
        assert_eq!(state.try_read_char(), Some(*expected));
    }
    assert_eq!(state.try_read_char(), None);
}

#[test]
fn qwertz_swaps_y_and_z() {
    let mut state = KeyboardState::new();
    state.inject_scancode(0x15);
    assert_eq!(state.try_read_char(), Some(b'z'));
    state.inject_scancode(0x2C);
    assert_eq!(state.try_read_char(), Some(b'y'));
}

#[test]
fn shift_changes_case_and_releases() {
    let mut state = KeyboardState::new();
    state.inject_scancode(0x2A);
    state.inject_scancode(0x1E);
    state.inject_scancode(0xAA);
    state.inject_scancode(0x1E);
    assert_eq!(state.try_read_char(), Some(b'A'));
    assert_eq!(state.try_read_char(), Some(b'a'));
}

#[test]
fn releases_and_unknown_codes_yield_nothing() {
    let mut state = KeyboardState::new();
    state.inject_scancode(0x9E);
    state.inject_scancode(0x3A);
    state.inject_scancode(0xE0);
    state.inject_scancode(0xC8);
    assert_eq!(state.try_read_key(), None);
}

#[test]
fn parses_help() {
    let parsed = parse_command(b"help");
    assert_eq!(parsed.kind, CommandKind::Help);
    assert_eq!(parsed.arg, b"");
}

#[test]
fn parses_echo_argument() {
    let parsed = parse_command(b"echo hallo");
    assert_eq!(parsed.kind, CommandKind::Echo);
    assert_eq!(parsed.arg, b"hallo");
}

#[test]
fn parses_unknown_command() {
    let parsed = parse_command(b"foo");
    assert_eq!(parsed.kind, CommandKind::Unknown);
    assert_eq!(parsed.arg, b"");
}

#[test]
fn parses_history_command() {
    let parsed = parse_command(b"history");
    assert_eq!(parsed.kind, CommandKind::History);
    assert_eq!(parsed.arg, b"");
}

#[test]
fn parses_ticks_command() {
    let parsed = parse_command(b"ticks");
    assert_eq!(parsed.kind, CommandKind::Ticks);
    assert_eq!(parsed.arg, b"");
}

#[test]
fn parses_mem_command() {
    let parsed = parse_command(b"mem");
    assert_eq!(parsed.kind, CommandKind::Mem);
    assert_eq!(parsed.arg, b"");
}

#[test]
fn parses_ls_default_path() {
    let parsed = parse_command(b"ls");
    assert_eq!(parsed.kind, CommandKind::Ls);
    assert_eq!(parsed.arg, b"/");
}

#[test]
fn parses_cat_path() {
    let parsed = parse_command(b"cat /motd.txt");
    assert_eq!(parsed.kind, CommandKind::Cat);
    assert_eq!(parsed.arg, b"/motd.txt");
}

#[test]
fn parses_stat_path() {
    let parsed = parse_command(b"stat /version.txt");
    assert_eq!(parsed.kind, CommandKind::Stat);
    assert_eq!(parsed.arg, b"/version.txt");
}

#[test]
fn normalizes_relative_path() {
    assert_eq!(normalize_simplefs_path("motd.txt"), "/motd.txt");
}

#[test]
fn keeps_absolute_path() {
    assert_eq!(normalize_simplefs_path("/motd.txt"), "/motd.txt");
}

#[test]
fn parses_empty_line() {
    let parsed = parse_command(b"");
    assert_eq!(parsed.kind, CommandKind::Empty);
    assert_eq!(parsed.arg, b"");
}

#[test]
fn command_parse_table_holds() {
    assert!(run_command_self_tests());
}

#[test]
fn trims_surrounding_spaces() {
    assert_eq!(trim_spaces(b"  echo hi  "), b"echo hi");
    assert_eq!(trim_spaces(b"    "), b"");
}

#[test]
fn formats_decimal_and_hex() {
    assert_eq!(format_u64(0), b"0");
    assert_eq!(format_u64(12345), b"12345");
    assert_eq!(format_u64(u64::MAX), b"18446744073709551615");
    assert_eq!(format_hex_u64(0x1234), b"0x0000000000001234");
    assert_eq!(format_hex_u64(0xdeadbeef01020304), b"0xdeadbeef01020304");
}

#[test]
fn line_editor_commits_and_browses_history() {
    let mut state = ShellState::new();
    for b in b"help" {
        assert!(state.insert_char(*b));
    }
    let line = state.commit_line();
    assert_eq!(line, b"help");

    for b in b"ticks" {
        assert!(state.insert_char(*b));
    }
    let line2 = state.commit_line();
    assert_eq!(line2, b"ticks");

    let up1 = state.history_up().expect("latest history line");
    assert_eq!(up1, b"ticks");
    let up2 = state.history_up().expect("older history line");
    assert_eq!(up2, b"help");
    let down1 = state.history_down().expect("newer history line");
    assert_eq!(down1, b"ticks");
    let down2 = state.history_down().expect("leaving history");
    assert_eq!(down2, b"");

    assert!(state.backspace() == false);
    for b in b"x" {
        assert!(state.insert_char(*b));
    }
    assert!(state.backspace());
    let empty = state.commit_line();
    assert_eq!(empty, b"");

    let lines = state.history_lines();
    assert_eq!(lines.len(), 2);
    assert_eq!(lines[0], b"help");
    assert_eq!(lines[1], b"ticks");
}

#[test]
fn mem_and_ticks_responses() {
    assert_eq!(ticks_response(42), b"ticks=42\n");
    assert_eq!(mem_response(None), b"frame allocator not initialized\n");
    assert_eq!(
        mem_response(Some(FrameStats { total_frames: 3, allocated_frames: 1, free_frames: 2 })),
        b"frames total=3 allocated=1 free=2\n"
    );
    assert_eq!(
        help_text(),
        b"commands: help echo clear history mem ticks ls cat stat panic halt reboot\n"
    );
}
