use video_frames::supervisor::{
    after_exit, failure, frames_found, worker_arguments, AfterExit, ListedEntry,
    RunError, StdoutProtocol,
};

fn entry(name: &str, is_file: bool) -> ListedEntry {
    ListedEntry { name: name.as_bytes().to_vec(), is_file }
}

#[test]
fn announced_directory_is_listed() {
    let mut p = StdoutProtocol::new();
    let ev = p.push(b"TEMP_DIR:/a\nTEMP_DIR:/b\n");
    assert!(ev.is_empty());
    let (_, dir) = p.finish();
    assert_eq!(after_exit(true, dir, Vec::new()), AfterExit::ListFrames(b"/b".to_vec()));
}

#[test]
fn failed_exit_is_never_success() {
    let mut p = StdoutProtocol::new();
    p.push(b"PROGRESS:100\nTEMP_DIR:/b\n");
    let (_, dir) = p.finish();
    assert!(dir.is_some());
    match after_exit(false, dir, b"boom\n".to_vec()) {
        AfterExit::Finished(o) => {
            assert!(!o.success);
            assert_eq!(o.temp_dir, None);
            assert_eq!(o.frame_paths, None);
            assert_eq!(o.error, Some(RunError::WorkerFailed(b"boom\n".to_vec())));
        }
        AfterExit::ListFrames(_) => panic!("a failed worker must not be trusted"),
    }
}

#[test]
fn no_announced_directory_is_a_distinct_failure() {
    match after_exit(true, None, b"x".to_vec()) {
        AfterExit::Finished(o) => {
            assert!(!o.success);
            assert_eq!(o.error, Some(RunError::NoResult));
        }
        AfterExit::ListFrames(_) => panic!("nothing was announced"),
    }
}

#[test]
fn listing_failure_outcome() {
    let o = failure(RunError::ListingFailed(b"gone".to_vec()));
    assert!(!o.success);
    assert_eq!(o.error, Some(RunError::ListingFailed(b"gone".to_vec())));
}

#[test]
fn frames_are_files_sorted_by_name() {
    let entries = vec![
        entry("frame_10.png", true),
        entry("sub", false),
        entry("frame_02.png", true),
        entry("Z.png", true),
        entry("frame_1.png", true),
    ];
    let o = frames_found(b"/tmp/out".to_vec(), entries);
    assert!(o.success);
    assert_eq!(o.error, None);
    assert_eq!(o.temp_dir, Some(b"/tmp/out".to_vec()));
    let expected: Vec<Vec<u8>> = ["Z.png", "frame_02.png", "frame_1.png", "frame_10.png"]
        .iter()
        .map(|n| format!("/tmp/out/{}", n).into_bytes())
        .collect();
    assert_eq!(o.frame_paths, Some(expected));
}

#[test]
fn frames_in_directory_with_trailing_slash() {
    let o = frames_found(b"/d/".to_vec(), vec![entry("b", true), entry("a", true)]);
    assert_eq!(o.frame_paths, Some(vec![b"/d/a".to_vec(), b"/d/b".to_vec()]));
    let empty = frames_found(b"/d".to_vec(), vec![entry("x", false)]);
    assert!(empty.success);
    assert_eq!(empty.frame_paths, Some(Vec::new()));
}

#[test]
fn worker_argument_order() {
    let args = worker_arguments(
        b"in.mp4".to_vec(),
        b"12.5".to_vec(),
        b"clip".to_vec(),
        b"/w/output".to_vec(),
    );
    let expected: Vec<Vec<u8>> =
        ["in.mp4", "-f", "12.5", "-o", "clip", "--no-zip", "--output-dir", "/w/output"]
            .iter()
            .map(|a| a.as_bytes().to_vec())
            .collect();
    assert_eq!(args, expected);
}
