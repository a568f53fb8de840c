use rowindex::{Error, Index, Position, MAX_LINES_PER_UPDATE};

#[test]
fn test() {
    let s = b"foo,bar\n1,2\n3,4\n";
    let lines = Index::new(s);
    assert_eq!(lines.len(), 3);
    // A line's range excludes its terminator, so consecutive ranges leave a
    // one-byte gap.
    assert_eq!(lines.line2range(0).unwrap(), 0..7);
    assert_eq!(lines.line2range(1).unwrap(), 8..11);
    assert_eq!(lines.line2range(2).unwrap(), 12..15);
    assert_eq!(s.len(), 16);
}

#[test]
fn ranges_are_adjacent() {
    let idx = Index::new(b"foo,bar\n1,2\n3,4\n");
    for i in 1..idx.len() {
        let prev = idx.line2range(i - 1).unwrap();
        let cur = idx.line2range(i).unwrap();
        assert_eq!(cur.start, prev.end + 1);
    }
}

#[test]
fn update_without_new_bytes_is_noop() {
    let mut idx = Index::new(b"a\nbb\nccc\n");
    let len_before: usize = idx.len();
    let scanned_before: u64 = idx.scanned_bytes();
    let consumed: usize = idx.update(&[]);
    assert_eq!(consumed, 0);
    assert_eq!(idx.len(), len_before);
    assert_eq!(idx.scanned_bytes(), scanned_before);
}

#[test]
fn incremental_matches_full_scan() {
    let full = b"alpha\nbeta\ngamma\ndelta\n";
    let once = Index::new(full);
    let mut grown = Index::new(&full[..7]);
    grown.update(&full[7..13]);
    grown.update(&full[13..]);
    assert_eq!(grown.len(), once.len());
    assert_eq!(grown.scanned_bytes(), once.scanned_bytes());
    for i in 0..once.len() {
        assert_eq!(grown.line2range(i).unwrap(), once.line2range(i).unwrap());
    }
}

#[test]
fn byte_at_a_time_matches_full_scan() {
    let full = b"ab\n\nc\nlast";
    let once = Index::new(full);
    let mut grown = Index::new(&[]);
    for i in 0..full.len() {
        grown.update(&full[i..i + 1]);
    }
    assert_eq!(grown.len(), once.len());
    assert_eq!(grown.len(), 3);
    assert_eq!(grown.scanned_bytes(), once.scanned_bytes());
    for i in 0..once.len() {
        assert_eq!(grown.line2range(i).unwrap(), once.line2range(i).unwrap());
    }
    // The second line is empty: its content range is empty as well.
    assert_eq!(grown.line2range(1).unwrap(), 3..3);
}

#[test]
fn stop_watching_freezes_the_index() {
    let mut idx = Index::new(b"one\ntwo\n");
    assert_eq!(idx.len(), 2);
    idx.stop_watching();
    let consumed: usize = idx.update(b"three\nfour\n");
    assert_eq!(consumed, 0);
    assert_eq!(idx.len(), 2);
    idx.stop_watching();
    assert_eq!(idx.len(), 2);
}

#[test]
fn unterminated_fragment_is_not_a_line() {
    let mut idx = Index::new(b"head");
    assert_eq!(idx.len(), 0);
    assert_eq!(idx.scanned_bytes(), 4);
    idx.update(b"er\nrest");
    assert_eq!(idx.len(), 1);
    assert_eq!(idx.line2range(0).unwrap(), 0..6);
    assert_eq!(idx.scanned_bytes(), 11);
}

#[test]
fn positions_describe_line_starts() {
    let idx = Index::new(b"foo,bar\n1,2\n3,4\n");
    for line in 0..idx.len() {
        let pos = idx.line2pos(line).unwrap();
        let range = idx.line2range(line).unwrap();
        assert_eq!(pos.line, line as u64 + 1);
        assert_eq!(pos.byte, range.start);
        assert_eq!(pos.record, 0);
    }
    assert_eq!(
        idx.line2pos(1).unwrap(),
        Position { line: 2, byte: 8, record: 0 }
    );
}

#[test]
fn lookups_past_the_end_are_range_errors() {
    let idx = Index::new(b"only\n");
    assert_eq!(idx.len(), 1);
    assert!(matches!(idx.line2range(1), Err(Error::Range)));
    assert!(matches!(idx.line2pos(1), Err(Error::Range)));
    let empty = Index::new(b"");
    assert!(matches!(empty.line2range(0), Err(Error::Range)));
}

#[test]
fn update_stops_at_the_line_bound_and_resumes() {
    let n_lines: usize = MAX_LINES_PER_UPDATE + 2;
    let mut data = Vec::with_capacity(2 * n_lines);
    for _ in 0..n_lines {
        data.push(b'a');
        data.push(b'\n');
    }
    let mut idx = Index::new(&data);
    assert_eq!(idx.len(), MAX_LINES_PER_UPDATE);
    let scanned: usize = idx.scanned_bytes() as usize;
    assert_eq!(scanned, 2 * MAX_LINES_PER_UPDATE);
    let consumed: usize = idx.update(&data[scanned..]);
    assert_eq!(consumed, data.len() - scanned);
    assert_eq!(idx.len(), n_lines);
    assert_eq!(idx.line2range(n_lines - 1).unwrap(), (data.len() as u64 - 2)..(data.len() as u64 - 1));
}
