use dynamic_log::LogChunk;
use dynamic_log::LogError;

#[test]
fn push_then_pop_restores_prior_state() {
    let mut chunk = LogChunk::new(Some("c".to_string()));
    chunk.push_line("a".to_string());
    let before = chunk.lines.clone();
    chunk.push_line("b".to_string());
    assert_eq!(chunk.pop_line(), Some("b".to_string()));
    assert_eq!(chunk.lines, before);
}

#[test]
fn push_lines_keeps_order_and_allows_duplicates() {
    let mut chunk = LogChunk::new(None);
    chunk.push_lines(vec!["x".to_string(), "x".to_string(), "y".to_string()]);
    assert_eq!(
        chunk.lines,
        vec!["x".to_string(), "x".to_string(), "y".to_string()]
    );
}

#[test]
fn pop_line_on_empty_chunk_returns_none() {
    let mut chunk = LogChunk::new(None);
    assert_eq!(chunk.pop_line(), None);
}

#[test]
fn clear_lines_keeps_the_id() {
    let mut chunk = LogChunk::new(Some("kept".to_string()));
    chunk.push_lines(vec!["a".to_string(), "b".to_string()]);
    chunk.clear_lines();
    assert!(chunk.lines.is_empty());
    assert_eq!(chunk.id, Some("kept".to_string()));
}

#[test]
fn set_line_replaces_in_place() {
    let mut chunk = LogChunk::new(None);
    chunk.push_lines(vec!["a".to_string(), "b".to_string()]);
    assert_eq!(chunk.set_line(1, "B".to_string()), Ok(()));
    assert_eq!(chunk.lines, vec!["a".to_string(), "B".to_string()]);
}

#[test]
fn set_line_out_of_range_is_refused() {
    let mut chunk = LogChunk::new(None);
    chunk.push_line("a".to_string());
    assert_eq!(
        chunk.set_line(1, "b".to_string()),
        Err(LogError::IndexOutOfRange)
    );
    assert_eq!(chunk.lines, vec!["a".to_string()]);
}
