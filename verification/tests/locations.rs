//! Tests of byte-offset to line/column conversion.

use sql_lineage::utils::{location_of, span_of, FileLocation, Span};

#[test]
fn location_counts_lines_and_columns_from_one() {
    let src = b"ab\ncd\n\nef".to_vec();
    assert_eq!(location_of(&src, 0), FileLocation { line: 1, column: 1 });
    assert_eq!(location_of(&src, 1), FileLocation { line: 1, column: 2 });
    // The line feed itself still belongs to its line.
    assert_eq!(location_of(&src, 2), FileLocation { line: 1, column: 3 });
    assert_eq!(location_of(&src, 3), FileLocation { line: 2, column: 1 });
    assert_eq!(location_of(&src, 6), FileLocation { line: 3, column: 1 });
    assert_eq!(location_of(&src, 7), FileLocation { line: 4, column: 1 });
    // One past the end is the position a cursor would have there.
    assert_eq!(location_of(&src, 9), FileLocation { line: 4, column: 3 });
}

#[test]
fn span_covers_both_ends() {
    let src = b"ab\ncd".to_vec();
    let sp = span_of(&src, 1, 4);
    assert_eq!(
        sp,
        Span {
            start: FileLocation { line: 1, column: 2 },
            end: FileLocation { line: 2, column: 2 },
        }
    );
}
