use dynamic_log::DynamicLog;
use dynamic_log::LogError;

#[test]
fn it_works() {
    let mut log = DynamicLog::new();
    log.push_chunk(Some("chunk1".to_string()));
    log.push_line("Hello, world!".to_string(), true).unwrap();
}

#[test]
fn first_render_writes_frame_without_trailing_newline() {
    let mut log = DynamicLog::new();
    log.push_chunk(Some("c1".to_string()));
    log.push_lines(vec!["a".to_string(), "b".to_string()], false).unwrap();
    assert_eq!(log.take_output(), "");
    log.render();
    assert_eq!(log.take_output(), "a\nb");
    assert!(log.rendered);
    assert_eq!(log.last_rendered_line_count, 2);
}

#[test]
fn redraw_emits_one_clear_then_new_frame() {
    let mut log = DynamicLog::new();
    log.push_chunk(Some("c1".to_string()));
    log.push_lines(vec!["a".to_string(), "b".to_string()], false).unwrap();
    log.render();
    assert_eq!(log.take_output(), "a\nb");
    log.push_line("c".to_string(), true).unwrap();
    assert_eq!(log.take_output(), "\x1B[1A\x1B[Ja\nb\nc");
    assert_eq!(log.last_rendered_line_count, 3);
}

#[test]
fn pop_line_with_no_chunks_writes_nothing() {
    let mut log = DynamicLog::new();
    let popped = log.pop_line(true);
    assert_eq!(popped, None);
    assert_eq!(log.take_output(), "");
}

#[test]
fn render_flag_alone_does_not_draw_first_frame() {
    let mut log = DynamicLog::new();
    log.push_chunk(None);
    log.push_line("x".to_string(), true).unwrap();
    assert_eq!(log.take_output(), "");
    assert!(!log.rendered);
}

#[test]
fn zero_line_render_and_redraw_do_not_underflow() {
    let mut log = DynamicLog::new();
    log.push_chunk(Some("empty".to_string()));
    log.render();
    assert_eq!(log.take_output(), "");
    assert!(log.rendered);
    assert_eq!(log.last_rendered_line_count, 0);
    log.render();
    assert_eq!(log.take_output(), "");
    assert_eq!(log.last_rendered_line_count, 0);
}

#[test]
fn clear_after_render_rewinds_and_erases() {
    let mut log = DynamicLog::new();
    log.push_chunk(None);
    log.push_lines(vec!["a".to_string(), "b".to_string(), "c".to_string()], false).unwrap();
    log.render();
    assert_eq!(log.take_output(), "a\nb\nc");
    log.clear();
    assert_eq!(log.take_output(), "\x1B[2A\x1B[J");
    assert!(!log.rendered);
    assert_eq!(log.last_rendered_line_count, 0);
}

#[test]
fn clear_of_wide_frame_writes_two_digit_count() {
    let mut log = DynamicLog::new();
    log.push_chunk(None);
    let mut lines = Vec::new();
    for i in 0..12 {
        lines.push(format!("line{}", i));
    }
    log.push_lines(lines, false).unwrap();
    log.render();
    log.take_output();
    log.clear();
    assert_eq!(log.take_output(), "\x1B[11A\x1B[J");
}

#[test]
fn get_lines_flattens_in_chunk_order() {
    let mut log = DynamicLog::new();
    log.push_chunk(Some("one".to_string()));
    log.push_lines(vec!["a".to_string(), "b".to_string()], false).unwrap();
    log.push_chunk(Some("two".to_string()));
    log.push_chunk(Some("three".to_string()));
    log.push_line("c".to_string(), false).unwrap();
    let lines = log.get_lines();
    assert_eq!(lines, vec!["a".to_string(), "b".to_string(), "c".to_string()]);
}

#[test]
fn push_line_without_chunk_is_refused() {
    let mut log = DynamicLog::new();
    assert_eq!(log.push_line("a".to_string(), false), Err(LogError::NoChunk));
    assert_eq!(log.get_lines().len(), 0);
}

#[test]
fn push_lines_without_chunk_is_refused() {
    let mut log = DynamicLog::new();
    assert_eq!(
        log.push_lines(vec!["a".to_string()], false),
        Err(LogError::NoChunk)
    );
    assert_eq!(log.push_lines(Vec::new(), false), Ok(()));
}

#[test]
fn get_chunk_finds_the_first_match() {
    let mut log = DynamicLog::new();
    log.push_chunk(Some("dup".to_string()));
    log.push_line("first".to_string(), false).unwrap();
    log.push_chunk(Some("dup".to_string()));
    log.push_line("second".to_string(), false).unwrap();
    let chunk = log.get_chunk("dup").unwrap();
    assert_eq!(chunk.lines, vec!["first".to_string()]);
}

#[test]
fn get_chunk_mutates_in_place() {
    let mut log = DynamicLog::new();
    log.push_chunk(Some("c1".to_string()));
    log.push_chunk(Some("c2".to_string()));
    log.get_chunk("c1").unwrap().push_line("via c1".to_string());
    assert_eq!(log.get_lines(), vec!["via c1".to_string()]);
}

#[test]
fn get_chunk_with_unknown_id_is_refused() {
    let mut log = DynamicLog::new();
    log.push_chunk(Some("here".to_string()));
    log.push_chunk(None);
    assert!(matches!(log.get_chunk("elsewhere"), Err(LogError::ChunkNotFound)));
}

#[test]
fn negative_index_counts_back_from_the_end() {
    let mut log = DynamicLog::new();
    log.push_chunk(Some("x".to_string()));
    log.push_chunk(Some("y".to_string()));
    log.push_chunk(Some("z".to_string()));
    let by_neg = log.get_chunk_by_index(-1).unwrap().id.clone();
    let by_pos = log.get_chunk_by_index(2).unwrap().id.clone();
    assert_eq!(by_neg, by_pos);
    assert_eq!(by_neg, Some("z".to_string()));
    let second = log.get_chunk_by_index(-2).unwrap().id.clone();
    assert_eq!(second, Some("y".to_string()));
}

#[test]
fn out_of_range_index_is_refused_in_both_directions() {
    let mut log = DynamicLog::new();
    log.push_chunk(None);
    assert!(matches!(log.get_chunk_by_index(1), Err(LogError::IndexOutOfRange)));
    assert!(matches!(log.get_chunk_by_index(-2), Err(LogError::IndexOutOfRange)));
    assert!(log.get_chunk_by_index(0).is_ok());
    assert!(log.get_chunk_by_index(-1).is_ok());
}

#[test]
fn pop_chunk_returns_the_last_chunk() {
    let mut log = DynamicLog::new();
    assert!(log.pop_chunk(false).is_none());
    log.push_chunk(Some("a".to_string()));
    log.push_chunk(Some("b".to_string()));
    let popped = log.pop_chunk(false).unwrap();
    assert_eq!(popped.id, Some("b".to_string()));
    assert_eq!(log.pop_chunk(false).unwrap().id, Some("a".to_string()));
    assert!(log.pop_chunk(false).is_none());
}

#[test]
fn pop_chunk_redraws_when_a_frame_is_on_screen() {
    let mut log = DynamicLog::new();
    log.push_chunk(None);
    log.push_line("a".to_string(), false).unwrap();
    log.push_chunk(None);
    log.push_line("b".to_string(), false).unwrap();
    log.render();
    assert_eq!(log.take_output(), "a\nb");
    log.pop_chunk(true);
    assert_eq!(log.take_output(), "\x1B[1A\x1B[Ja");
    assert_eq!(log.last_rendered_line_count, 1);
}

#[test]
fn pop_line_on_empty_last_chunk_still_redraws() {
    let mut log = DynamicLog::new();
    log.push_chunk(None);
    log.push_line("a".to_string(), false).unwrap();
    log.push_chunk(None);
    log.render();
    assert_eq!(log.take_output(), "a");
    let popped = log.pop_line(true);
    assert_eq!(popped, None);
    assert_eq!(log.take_output(), "\x1B[0A\x1B[Ja");
}

#[test]
fn pop_line_returns_the_last_line() {
    let mut log = DynamicLog::new();
    log.push_chunk(None);
    log.push_lines(vec!["a".to_string(), "b".to_string()], false).unwrap();
    assert_eq!(log.pop_line(false), Some("b".to_string()));
    assert_eq!(log.pop_line(false), Some("a".to_string()));
    assert_eq!(log.pop_line(false), None);
}
