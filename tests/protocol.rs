use video_frames::protocol::{classify_line, Line};
use video_frames::split::Splitter;
use video_frames::supervisor::StdoutProtocol;
use video_frames::text::{parse_u32, trim_bytes};

fn run_chunks(chunks: &[&[u8]]) -> (Vec<u32>, Option<Vec<u8>>) {
    let mut p = StdoutProtocol::new();
    let mut events = Vec::new();
    for c in chunks {
        events.extend(p.push(c));
    }
    let (last, dir) = p.finish();
    events.extend(last);
    (events, dir)
}

#[test]
fn progress_line_is_classified() {
    assert_eq!(classify_line(b"PROGRESS:50"), Line::Progress(50));
    assert_eq!(classify_line(b"PROGRESS: 7 \r"), Line::Progress(7));
    assert_eq!(classify_line(b"PROGRESS:+3"), Line::Progress(3));
}

#[test]
fn temp_dir_line_is_trimmed() {
    assert_eq!(classify_line(b"TEMP_DIR:  /tmp/x y \r"), Line::TempDir(b"/tmp/x y".to_vec()));
}

#[test]
fn other_lines_are_text() {
    assert_eq!(classify_line(b"hello world  "), Line::Text(b"hello world".to_vec()));
    assert_eq!(classify_line(b"progress:5"), Line::Text(b"progress:5".to_vec()));
    assert_eq!(classify_line(b""), Line::Text(Vec::new()));
}

#[test]
fn malformed_progress_is_dropped_and_parsing_goes_on() {
    assert_eq!(classify_line(b"PROGRESS:abc"), Line::Malformed);
    let (events, dir) = run_chunks(&[b"PROGRESS:abc\nPROGRESS:40\nTEMP_DIR:/out\n"]);
    assert_eq!(events, vec![40]);
    assert_eq!(dir, Some(b"/out".to_vec()));
}

#[test]
fn progress_out_of_range_is_malformed() {
    assert_eq!(classify_line(b"PROGRESS:4294967296"), Line::Malformed);
    assert_eq!(classify_line(b"PROGRESS:4294967295"), Line::Progress(4294967295));
    assert_eq!(classify_line(b"PROGRESS:-1"), Line::Malformed);
    assert_eq!(classify_line(b"PROGRESS:"), Line::Malformed);
}

#[test]
fn last_temp_dir_wins() {
    let (events, dir) = run_chunks(&[b"TEMP_DIR:/a\nTEMP_DIR:/b\n"]);
    assert!(events.is_empty());
    assert_eq!(dir, Some(b"/b".to_vec()));
}

#[test]
fn chunk_boundaries_do_not_matter() {
    let input: &[u8] = b"PROGRESS:10\r\nnoise\nTEMP_DIR: /x \nPROGRESS:20\r\nPROGRESS:zz\nPROGRESS:99";
    let whole = run_chunks(&[input]);
    assert_eq!(whole.0, vec![10, 20, 99]);
    assert_eq!(whole.1, Some(b"/x".to_vec()));
    for i in 0..=input.len() {
        for j in i..=input.len() {
            let split = run_chunks(&[&input[..i], &input[i..j], &input[j..]]);
            assert_eq!(split, whole);
        }
    }
    let bytes: Vec<&[u8]> = input.chunks(1).collect();
    assert_eq!(run_chunks(&bytes), whole);
}

#[test]
fn unterminated_last_line_is_flushed() {
    let (events, dir) = run_chunks(&[b"TEMP_DIR:/a\nTEMP_DIR:/", b"c"]);
    assert!(events.is_empty());
    assert_eq!(dir, Some(b"/c".to_vec()));
}

#[test]
fn splitter_keeps_the_tail() {
    let mut s = Splitter::new(b'\n');
    assert_eq!(s.push(b"ab"), Vec::<Vec<u8>>::new());
    assert_eq!(s.push(b"c\nd\n\ne"), vec![b"abc".to_vec(), b"d".to_vec(), Vec::new()]);
    assert_eq!(s.finish(), Some(b"e".to_vec()));
    let empty = Splitter::new(b'\n');
    assert_eq!(empty.finish(), None);
}

#[test]
fn numbers_and_trimming() {
    assert_eq!(parse_u32(b"0"), Some(0));
    assert_eq!(parse_u32(b"007"), Some(7));
    assert_eq!(parse_u32(b"+"), None);
    assert_eq!(parse_u32(b" 1"), None);
    assert_eq!(trim_bytes(b" \t a b \r\n"), b"a b".to_vec());
    assert_eq!(trim_bytes(b"   "), Vec::<u8>::new());
}
