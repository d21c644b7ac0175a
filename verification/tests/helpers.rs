//! Checks of the individual scan helpers.

use diag_pretty::printer::{is_close, is_open, newline, process_char, write_char};

#[test]
fn open_and_close_classification() {
    assert!(is_open(b'{'));
    assert!(is_open(b'['));
    assert!(!is_open(b'}'));
    assert!(!is_open(b'('));
    assert!(is_close(b'}'));
    assert!(is_close(b']'));
    assert!(!is_close(b'['));
    assert!(!is_close(b'x'));
}

#[test]
fn write_char_suppresses_space_outside_string() {
    let mut out: Vec<u8> = Vec::new();
    write_char(&mut out, b' ', false);
    assert_eq!(out, b"");
}

#[test]
fn write_char_keeps_space_inside_string() {
    let mut out: Vec<u8> = Vec::new();
    write_char(&mut out, b' ', true);
    assert_eq!(out, b" ");
}

#[test]
fn write_char_pads_colon_outside_string() {
    let mut out: Vec<u8> = Vec::new();
    write_char(&mut out, b':', false);
    assert_eq!(out, b": ");
}

#[test]
fn write_char_leaves_colon_alone_inside_string() {
    let mut out: Vec<u8> = Vec::new();
    write_char(&mut out, b':', true);
    assert_eq!(out, b":");
}

#[test]
fn newline_emits_depth_times_width_spaces() {
    let mut out: Vec<u8> = Vec::new();
    newline(&mut out, 2, 3);
    assert_eq!(out, b"\n      ");
}

#[test]
fn newline_at_depth_zero_is_bare() {
    let mut out: Vec<u8> = Vec::new();
    newline(&mut out, 0, 4);
    assert_eq!(out, b"\n");
}

#[test]
fn process_char_opens_and_breaks() {
    let mut out: Vec<u8> = Vec::new();
    let mut depth: usize = 0;
    process_char(b'[', &mut out, &mut depth, 2, None, Some(b'1'), false);
    assert_eq!(out, b"[\n  ");
    assert_eq!(depth, 1);
}

#[test]
fn process_char_collapses_empty_container() {
    let mut out: Vec<u8> = Vec::new();
    let mut depth: usize = 0;
    process_char(b'[', &mut out, &mut depth, 2, None, Some(b']'), false);
    assert_eq!(out, b"[");
    assert_eq!(depth, 1);
    process_char(b']', &mut out, &mut depth, 2, Some(b'['), None, false);
    assert_eq!(out, b"[]");
    assert_eq!(depth, 0);
}

#[test]
fn process_char_close_saturates_at_zero() {
    let mut out: Vec<u8> = Vec::new();
    let mut depth: usize = 0;
    process_char(b'}', &mut out, &mut depth, 2, None, None, false);
    assert_eq!(out, b"}");
    assert_eq!(depth, 0);
}

#[test]
fn process_char_comma_breaks_at_current_depth() {
    let mut out: Vec<u8> = Vec::new();
    let mut depth: usize = 2;
    process_char(b',', &mut out, &mut depth, 2, Some(b'1'), Some(b'2'), false);
    assert_eq!(out, b",\n    ");
    assert_eq!(depth, 2);
}
