use aether::source::{BytePos, FileId, LineCol, SourceMap, Span};

fn file0() -> FileId {
    FileId::from_index(0)
}

fn map_with(src: &str) -> (SourceMap, FileId) {
    let mut map = SourceMap::new();
    let id = map.add_file("test.ae", src);
    (map, id)
}

#[test]
fn byte_pos_conversions_round_trip() {
    assert_eq!(BytePos::from_usize(42).to_usize(), 42);
    assert_eq!(BytePos(7).to_usize(), 7);
}

#[test]
fn file_ids_are_distinct_by_index() {
    assert_ne!(FileId::from_index(0), FileId::from_index(1));
    assert_eq!(FileId::from_index(3).index(), 3);
}

#[test]
fn span_accessors_and_length() {
    let s = Span::new(file0(), BytePos(4), BytePos(9));
    assert_eq!(s.file(), file0());
    assert_eq!(s.lo(), BytePos(4));
    assert_eq!(s.hi(), BytePos(9));
    assert_eq!(s.len(), 5);
    assert!(!s.is_empty());
}

#[test]
fn empty_span_reports_empty() {
    let s = Span::new(file0(), BytePos(3), BytePos(3));
    assert!(s.is_empty());
    assert_eq!(s.len(), 0);
}

#[test]
fn span_merge_covers_both() {
    let a = Span::new(file0(), BytePos(2), BytePos(5));
    let b = Span::new(file0(), BytePos(8), BytePos(10));
    let merged = a.to(b);
    assert_eq!(merged.lo(), BytePos(2));
    assert_eq!(merged.hi(), BytePos(10));
    assert_eq!(b.to(a), merged);
}

#[test]
fn add_file_assigns_sequential_ids() {
    let mut map = SourceMap::new();
    let a = map.add_file("a.ae", "");
    let b = map.add_file("b.ae", "");
    assert_ne!(a, b);
    assert_eq!(map.file(a).name(), "a.ae");
    assert_eq!(map.file(b).name(), "b.ae");
    assert_eq!(map.files().len(), 2);
}

#[test]
fn line_col_on_single_line() {
    let (map, id) = map_with("abc");
    let f = map.file(id);
    assert_eq!(f.line_col(BytePos(0)), LineCol { line: 1, col: 1 });
    assert_eq!(f.line_col(BytePos(2)), LineCol { line: 1, col: 3 });
    assert_eq!(f.line_col(BytePos(3)), LineCol { line: 1, col: 4 });
}

#[test]
fn line_col_across_multiple_lines() {
    let (map, id) = map_with("ab\ncd\nef");
    let f = map.file(id);
    assert_eq!(f.line_col(BytePos(0)), LineCol { line: 1, col: 1 });
    assert_eq!(f.line_col(BytePos(3)), LineCol { line: 2, col: 1 });
    assert_eq!(f.line_col(BytePos(6)), LineCol { line: 3, col: 1 });
    assert_eq!(f.line_col(BytePos(7)), LineCol { line: 3, col: 2 });
}

#[test]
fn position_at_newline_belongs_to_its_line() {
    let (map, id) = map_with("ab\ncd");
    let f = map.file(id);
    assert_eq!(f.line_col(BytePos(2)), LineCol { line: 1, col: 3 });
    assert_eq!(f.line_col(BytePos(3)), LineCol { line: 2, col: 1 });
}

#[test]
fn line_text_excludes_terminators() {
    let (map, id) = map_with("ab\ncd\n");
    let f = map.file(id);
    assert_eq!(f.line_text(0), "ab");
    assert_eq!(f.line_text(1), "cd");
    assert_eq!(f.line_text(2), "");
    assert_eq!(f.line_count(), 3);
}

#[test]
fn line_text_trims_carriage_return_for_crlf() {
    let (map, id) = map_with("ab\r\ncd");
    let f = map.file(id);
    assert_eq!(f.line_text(0), "ab");
    assert_eq!(f.line_text(1), "cd");
    assert_eq!(f.line_col(BytePos(4)), LineCol { line: 2, col: 1 });
}

#[test]
fn columns_count_characters_not_bytes() {
    let (map, id) = map_with("héllo");
    let f = map.file(id);
    assert_eq!(f.line_col(BytePos(3)), LineCol { line: 1, col: 3 });
}

#[test]
fn line_col_floors_to_char_boundary() {
    let (map, id) = map_with("héllo");
    let f = map.file(id);
    assert_eq!(f.line_col(BytePos(2)), LineCol { line: 1, col: 2 });
}

#[test]
fn empty_and_blank_lines() {
    let (map, id) = map_with("a\n\nb");
    let f = map.file(id);
    assert_eq!(f.line_text(0), "a");
    assert_eq!(f.line_text(1), "");
    assert_eq!(f.line_text(2), "b");
    assert_eq!(f.line_col(BytePos(2)), LineCol { line: 2, col: 1 });
}

#[test]
fn empty_file_has_one_line() {
    let (map, id) = map_with("");
    let f = map.file(id);
    assert_eq!(f.line_count(), 1);
    assert_eq!(f.line_text(0), "");
    assert_eq!(f.line_col(BytePos(0)), LineCol { line: 1, col: 1 });
}

#[test]
fn span_text_returns_covered_source() {
    let (map, id) = map_with("let x = 5");
    let span = Span::new(id, BytePos(4), BytePos(5));
    assert_eq!(map.span_text(span), "x");
}

#[test]
fn span_merge_is_symmetric_and_covers_both() {
    let mut map = SourceMap::new();
    let file = map.add_file("t.ae", "0123456789");
    let a = Span::new(file, BytePos(2), BytePos(5));
    let b = Span::new(file, BytePos(4), BytePos(9));
    let ab = a.to(b);
    assert_eq!(ab, b.to(a));
    assert_eq!((ab.file(), ab.lo(), ab.hi()), (file, BytePos(2), BytePos(9)));
}
