use pddb::packaging::{
    after_entry, WalkStep, contains, files_match, is_registry_source, local_source_path, package_dir, plan_entry,
    source_subdir, verdict, CompareStep, EntryKind, VerifyError,
};
use pddb::tts::{duplicate, Playback, WaveControl, WaveOp, DEFAULT_WPM, FIFO_DEPTH};
use pddb::vault::{line_action, LineAction, NavDir, VaultAction, VaultLoop, VaultMode, VaultOp};
use pddb::version::{get_version, SEMVER, TIMESTAMP};

#[test]
fn wave_opcodes() {
    assert_eq!(WaveOp::from_usize(0), Some(WaveOp::Return));
    assert_eq!(WaveOp::from_usize(1), Some(WaveOp::Quit));
    assert_eq!(WaveOp::from_usize(2), None);
    assert_eq!(WaveOp::Quit.to_usize(), 1);
}

#[test]
fn one_sample_goes_to_both_channels() {
    assert_eq!(duplicate(0x1234), 0x1234_1234);
    assert_eq!(duplicate(0), 0);
    assert_eq!(duplicate(0xffff), 0xffff_ffff);
}

#[test]
fn silence_while_the_synthesizer_warms_up() {
    let mut state = Playback::new();
    assert_eq!(state.wpm, DEFAULT_WPM);
    state.start_utterance();
    state.take_wave(&[7; 100], None);
    let (frames, pause) = state.on_codec_callback(3, 2);
    assert_eq!(frames.len(), 2);
    assert!(frames.iter().all(|f| f.iter().all(|s| *s == 0)));
    assert!(!pause);
    assert!(state.just_initiated);
    assert_eq!(state.buffer.len(), 100);
    assert_eq!(state.frame_count, 2);
}

#[test]
fn frames_are_taken_while_whole_frames_are_buffered() {
    let mut state = Playback::new();
    state.start_utterance();
    let samples: Vec<u16> = (0..700).map(|i| i as u16).collect();
    state.take_wave(&samples, None);
    let (frames, pause) = state.on_codec_callback(5, 8);
    assert_eq!(frames.len(), 2);
    assert_eq!(frames[0][0], 0);
    assert_eq!(frames[0][255], 255 | 255 << 16);
    assert_eq!(frames[1][0], 256 | 256 << 16);
    assert!(!pause);
    assert!(!state.just_initiated);
    assert_eq!(state.buffer.len(), 700 - 2 * FIFO_DEPTH);
    assert_eq!(state.frame_count, 5);
    let (frames, _) = state.on_codec_callback(5, 8);
    assert!(frames.is_empty());
}

#[test]
fn the_tail_is_played_out_with_silence_and_then_the_codec_pauses() {
    let mut state = Playback::new();
    state.start_utterance();
    let samples: Vec<u16> = (1..=300).collect();
    state.take_wave(&samples, Some(WaveControl::End));
    assert!(state.synth_done);
    let (frames, pause) = state.on_codec_callback(1, 4);
    assert_eq!(frames.len(), 1);
    assert!(!pause);
    let (frames, pause) = state.on_codec_callback(4, 4);
    assert_eq!(frames.len(), 4);
    assert_eq!(frames[0][43], 300 | 300 << 16);
    assert_eq!(frames[0][44], 0);
    assert!(frames[1].iter().all(|s| *s == 0));
    assert!(pause);
    assert!(state.buffer.is_empty());
}

#[test]
fn abort_drops_what_is_buffered() {
    let mut state = Playback::new();
    state.take_wave(&[1, 2, 3], None);
    assert!(!state.synth_done);
    state.take_wave(&[4, 5], Some(WaveControl::Abort));
    assert!(state.buffer.is_empty());
    assert!(state.synth_done);
    state.take_wave(&[6], None);
    assert!(!state.synth_done);
    assert_eq!(state.buffer.len(), 1);
    state.set_words_per_minute(200);
    assert_eq!(state.wpm, 200);
    state.start_utterance();
    assert!(state.buffer.is_empty());
}

#[test]
fn vault_opcodes_round_trip() {
    for id in 0..9 {
        let op = VaultOp::from_usize(id).unwrap();
        assert_eq!(op.to_usize(), id);
    }
    assert_eq!(VaultOp::from_usize(0), Some(VaultOp::Line));
    assert_eq!(VaultOp::from_usize(8), Some(VaultOp::Quit));
    assert_eq!(VaultOp::from_usize(9), None);
}

#[test]
fn lines_of_input() {
    assert_eq!(line_action("\u{0011}".as_bytes()), LineAction::SetMode(VaultMode::Fido));
    assert_eq!(line_action("\u{0012}".as_bytes()), LineAction::SetMode(VaultMode::Totp));
    assert_eq!(line_action("\u{0013}".as_bytes()), LineAction::SetMode(VaultMode::Password));
    assert_eq!(line_action("\u{0014}".as_bytes()), LineAction::RaiseMenu);
    assert_eq!(line_action("\u{2193}".as_bytes()), LineAction::Nav(NavDir::Down));
    assert_eq!(line_action("\u{2191}".as_bytes()), LineAction::Nav(NavDir::Up));
    assert_eq!(line_action("\u{2190}".as_bytes()), LineAction::Nav(NavDir::PageUp));
    assert_eq!(line_action("\u{2192}".as_bytes()), LineAction::Nav(NavDir::PageDown));
    assert_eq!(line_action(b"github"), LineAction::RaiseMenu);
    assert_eq!(line_action(b""), LineAction::RaiseMenu);
}

#[test]
fn the_vault_draws_only_in_the_foreground() {
    let mut state = VaultLoop::new();
    assert_eq!(state.step(VaultOp::Redraw.to_usize(), b"", false), VaultAction::Nothing);
    assert_eq!(state.step(VaultOp::ChangeFocus.to_usize(), b"", true), VaultAction::Nothing);
    assert!(state.allow_redraw);
    assert_eq!(state.step(VaultOp::Redraw.to_usize(), b"", false), VaultAction::Redraw);
    assert_eq!(state.step(VaultOp::IncrementalLine.to_usize(), b"gi", false), VaultAction::Input);
    assert_eq!(
        state.step(VaultOp::Line.to_usize(), "\u{2193}".as_bytes(), false),
        VaultAction::Line(LineAction::Nav(NavDir::Down))
    );
    assert_eq!(state.step(VaultOp::MenuChangeFont.to_usize(), b"", false), VaultAction::PickFont);
    assert_eq!(state.step(VaultOp::MenuEdit.to_usize(), b"", false), VaultAction::Nothing);
    assert_eq!(state.step(77, b"", false), VaultAction::Nothing);
    assert_eq!(state.step(VaultOp::Quit.to_usize(), b"", false), VaultAction::Quit);
    assert_eq!(state.step(VaultOp::ChangeFocus.to_usize(), b"", false), VaultAction::Nothing);
    assert!(!state.allow_redraw);
    assert!(VaultLoop::redraw_after(VaultAction::Input));
    assert!(VaultLoop::redraw_after(VaultAction::Line(LineAction::RaiseMenu)));
    assert!(!VaultLoop::redraw_after(VaultAction::Redraw));
}

#[test]
fn where_the_source_of_a_package_lives() {
    assert_eq!(source_subdir(b"xous-api-names"), b"api".to_vec());
    assert_eq!(source_subdir(b"xous-names"), b"services".to_vec());
    assert_eq!(local_source_path(b"xous-api-log"), b"./api/xous-api-log/".to_vec());
    assert_eq!(local_source_path(b"pddb"), b"./services/pddb/".to_vec());
    assert_eq!(package_dir(b"pddb", b"0.1.0"), b"pddb-0.1.0".to_vec());
    assert!(is_registry_source(b"github.com-1ecc6299db9ec823"));
    assert!(!is_registry_source(b"index.crates.io-6f17d22bba15001f"));
}

#[test]
fn substring_search() {
    assert!(contains(b"abcabd", b"abd"));
    assert!(contains(b"abc", b""));
    assert!(contains(b"", b""));
    assert!(contains(b"abc", b"abc"));
    assert!(!contains(b"abc", b"abcd"));
    assert!(!contains(b"aaab", b"ba"));
}

#[test]
fn what_each_entry_is_compared_with() {
    assert_eq!(
        plan_entry(b"Cargo.toml", EntryKind::File),
        CompareStep::CompareWith(b"Cargo.toml.orig".to_vec())
    );
    assert_eq!(
        plan_entry(b"lib.rs", EntryKind::File),
        CompareStep::CompareWith(b"lib.rs".to_vec())
    );
    assert_eq!(plan_entry(b"target", EntryKind::Directory), CompareStep::Skip);
    assert_eq!(plan_entry(b"src", EntryKind::Directory), CompareStep::Descend);
    assert_eq!(plan_entry(b"Cargo.toml", EntryKind::Directory), CompareStep::Descend);
    assert_eq!(plan_entry(b"link", EntryKind::Other), CompareStep::Skip);
    assert!(files_match(b"same", b"same"));
    assert!(!files_match(b"same", b"sane"));
    assert!(!files_match(b"same", b"same "));
}

#[test]
fn verdicts() {
    assert_eq!(verdict(Some(true)), Ok(()));
    assert_eq!(verdict(Some(false)), Err(VerifyError::Mismatch));
    assert_eq!(verdict(None), Err(VerifyError::Access));
    assert_eq!(
        VerifyError::Mismatch.message(),
        "Crates.io downloaded data does not match local source"
    );
    assert_eq!(
        VerifyError::NotFromRegistry.message(),
        "Can't verify crates that aren't from crates.io"
    );
}

#[test]
fn version_report() {
    assert_eq!(get_version(false), b"v0.9.9-441-g113d4c2d".to_vec());
    assert_eq!(
        get_version(true),
        b"v0.9.9-441-g113d4c2d\nWed, 05 Oct 2022 18:25:35 +0800".to_vec()
    );
    assert_eq!(get_version(true).len(), SEMVER.len() + 1 + TIMESTAMP.len());
}

#[test]
fn the_walk_stops_at_the_first_difference() {
    assert_eq!(after_entry(Some(true)), WalkStep::Continue);
    assert_eq!(after_entry(Some(false)), WalkStep::Differ);
    assert_eq!(after_entry(None), WalkStep::Fail);
}
