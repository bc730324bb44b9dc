use video_frames::archive::{
    entry_action, percentage, plan_export, relative_path, ArchiveStep, EntryAction, WalkedEntry,
};
use video_frames::probe::{probe_reply, InfoFields, ProbeError};

fn walked(path: &str, is_file: bool) -> WalkedEntry {
    WalkedEntry { path: path.as_bytes().to_vec(), is_file }
}

#[test]
fn relative_paths() {
    assert_eq!(relative_path(b"/t", b"/t"), Some(Vec::new()));
    assert_eq!(relative_path(b"/t", b"/t/sub/b.png"), Some(b"sub/b.png".to_vec()));
    assert_eq!(relative_path(b"/t/", b"/t/a.png"), Some(b"a.png".to_vec()));
    assert_eq!(relative_path(b"/t", b"/tx/a.png"), None);
    assert_eq!(relative_path(b"", b"a.png"), Some(b"a.png".to_vec()));
}

#[test]
fn entry_actions() {
    assert_eq!(entry_action(b"/t", &walked("/t", false)), Some(EntryAction::Skip));
    assert_eq!(
        entry_action(b"/t", &walked("/t/sub", false)),
        Some(EntryAction::Directory(b"sub".to_vec()))
    );
    assert_eq!(
        entry_action(b"/t", &walked("/t/a.png", true)),
        Some(EntryAction::File(b"a.png".to_vec()))
    );
    assert_eq!(entry_action(b"/t", &walked("/u/a.png", true)), None);
}

#[test]
fn percentages_round_down() {
    assert_eq!(percentage(1, 3), 33);
    assert_eq!(percentage(2, 3), 66);
    assert_eq!(percentage(3, 3), 100);
    assert_eq!(percentage(0, 7), 0);
    assert_eq!(percentage(usize::MAX - 1, usize::MAX), 99);
}

#[test]
fn export_plan_progress() {
    let entries = vec![
        walked("/t", false),
        walked("/t/a.png", true),
        walked("/t/sub", false),
        walked("/t/sub/b.png", true),
    ];
    let steps = plan_export(b"/t", &entries).unwrap();
    assert_eq!(
        steps,
        vec![
            ArchiveStep { action: EntryAction::Skip, percent: 25 },
            ArchiveStep { action: EntryAction::File(b"a.png".to_vec()), percent: 50 },
            ArchiveStep { action: EntryAction::Directory(b"sub".to_vec()), percent: 75 },
            ArchiveStep { action: EntryAction::File(b"sub/b.png".to_vec()), percent: 100 },
        ]
    );
    let many: Vec<WalkedEntry> = (0..7).map(|i| walked(&format!("/t/{}", i), true)).collect();
    let steps = plan_export(b"/t", &many).unwrap();
    let p: Vec<u32> = steps.iter().map(|s| s.percent).collect();
    assert_eq!(p, vec![14, 28, 42, 57, 71, 85, 100]);
}

#[test]
fn empty_walk_has_no_progress() {
    assert_eq!(plan_export(b"/t", &Vec::new()), Some(Vec::new()));
}

#[test]
fn entry_outside_root_stops_the_plan() {
    let entries = vec![walked("/t", false), walked("/elsewhere/x", true)];
    assert_eq!(plan_export(b"/t", &entries), None);
}

#[test]
fn probe_reads_three_fields() {
    let r = probe_reply(true, b"0,30,0\n", Vec::new());
    assert_eq!(
        r,
        Ok(InfoFields { duration: b"0".to_vec(), fps: b"30".to_vec(), total_frames: 0 })
    );
    let r = probe_reply(true, b" 12.5,29.97,375,extra ", Vec::new());
    assert_eq!(
        r,
        Ok(InfoFields { duration: b"12.5".to_vec(), fps: b"29.97".to_vec(), total_frames: 375 })
    );
}

#[test]
fn probe_defaults_bad_frame_count() {
    let r = probe_reply(true, b"x,y,z", Vec::new());
    assert_eq!(r, Ok(InfoFields { duration: b"x".to_vec(), fps: b"y".to_vec(), total_frames: 0 }));
    let r = probe_reply(true, b",,", Vec::new());
    assert_eq!(r, Ok(InfoFields { duration: Vec::new(), fps: Vec::new(), total_frames: 0 }));
}

#[test]
fn probe_errors() {
    assert_eq!(probe_reply(true, b"1,2", Vec::new()), Err(ProbeError::TooFewFields));
    assert_eq!(probe_reply(true, b"", Vec::new()), Err(ProbeError::TooFewFields));
    assert_eq!(
        probe_reply(false, b"1,2,3", b"no such file".to_vec()),
        Err(ProbeError::WorkerFailed(b"no such file".to_vec()))
    );
}
