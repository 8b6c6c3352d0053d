use slideshow::collector::{collect_file_paths, EntryKind, WalkEntry};
use slideshow::music::{
    MusicPlayer, PlaybackAction, PlaybackFailure, PlaybackStage, STARTUP_DELAY_SECONDS,
};

fn entry(kind: EntryKind, path: Option<&str>) -> WalkEntry {
    WalkEntry { kind, path: path.map(|text| text.to_string()) }
}

#[test]
fn collector_keeps_regular_files_in_walk_order() {
    let entries = vec![
        entry(EntryKind::Directory, Some("Assets/Pictures")),
        entry(EntryKind::File, Some("Assets/Pictures/b2.png")),
        entry(EntryKind::Symlink, Some("Assets/Pictures/link.png")),
        entry(EntryKind::Unreadable, None),
        entry(EntryKind::File, None),
        entry(EntryKind::Other, Some("Assets/Pictures/pipe")),
        entry(EntryKind::Directory, Some("Assets/Pictures/sub")),
        entry(EntryKind::File, Some("Assets/Pictures/sub/a1.png")),
    ];
    assert_eq!(
        collect_file_paths(&entries),
        vec!["Assets/Pictures/b2.png".to_string(), "Assets/Pictures/sub/a1.png".to_string()]
    );
}

#[test]
fn collector_of_nothing_is_nothing() {
    assert!(collect_file_paths(&Vec::new()).is_empty());
    assert!(collect_file_paths(&vec![entry(EntryKind::Directory, Some("d"))]).is_empty());
}

#[test]
fn player_waits_three_seconds_first() {
    assert_eq!(STARTUP_DELAY_SECONDS, 3);
    let player = MusicPlayer::play_music_on_startup("Assets/Music/track.mp3");
    assert_eq!(player.file_path(), "Assets/Music/track.mp3");
    assert_eq!(player.stage(), PlaybackStage::Waiting);
    assert_eq!(player.next_action(), PlaybackAction::Wait { seconds: 3 });
}

#[test]
fn player_goes_through_its_steps_in_order() {
    let mut player = MusicPlayer::play_music_on_startup("track.mp3");
    let expected = [
        PlaybackAction::Wait { seconds: 3 },
        PlaybackAction::OpenOutput,
        PlaybackAction::OpenFile,
        PlaybackAction::Decode,
        PlaybackAction::CreateSink,
        PlaybackAction::PlayLooped,
    ];
    for action in expected {
        assert_eq!(player.next_action(), action);
        assert_eq!(player.report(true), None);
    }
    assert_eq!(player.stage(), PlaybackStage::Ended);
    assert_eq!(player.next_action(), PlaybackAction::Stop);
    assert_eq!(player.report(true), None);
    assert_eq!(player.stage(), PlaybackStage::Ended);
    assert_eq!(player.file_path(), "track.mp3");
}

fn player_that_fails_after(successes: usize) -> (MusicPlayer, Option<PlaybackFailure>) {
    let mut player = MusicPlayer::play_music_on_startup("track.mp3");
    for _ in 0..successes {
        assert_eq!(player.report(true), None);
    }
    let failure = player.report(false);
    (player, failure)
}

#[test]
fn player_cannot_fail_to_wait() {
    let (player, failure) = player_that_fails_after(0);
    assert_eq!(failure, None);
    assert_eq!(player.stage(), PlaybackStage::OpeningOutput);
}

#[test]
fn player_without_output_ends() {
    let (player, failure) = player_that_fails_after(1);
    assert_eq!(failure, Some(PlaybackFailure::Output));
    assert_eq!(player.stage(), PlaybackStage::Ended);
    assert_eq!(player.next_action(), PlaybackAction::Stop);
}

#[test]
fn player_without_file_ends() {
    let (player, failure) = player_that_fails_after(2);
    assert_eq!(failure, Some(PlaybackFailure::File));
    assert_eq!(player.stage(), PlaybackStage::Ended);
}

#[test]
fn player_without_decoder_ends() {
    let (player, failure) = player_that_fails_after(3);
    assert_eq!(failure, Some(PlaybackFailure::Decoder));
    assert_eq!(player.stage(), PlaybackStage::Ended);
}

#[test]
fn player_without_sink_ends() {
    let (player, failure) = player_that_fails_after(4);
    assert_eq!(failure, Some(PlaybackFailure::Sink));
    assert_eq!(player.stage(), PlaybackStage::Ended);
}

#[test]
fn player_that_stops_playing_ends_without_failure() {
    let (player, failure) = player_that_fails_after(5);
    assert_eq!(failure, None);
    assert_eq!(player.stage(), PlaybackStage::Ended);
}

#[test]
fn playback_failure_messages() {
    assert_eq!(PlaybackFailure::Output.message("t.mp3"), "Failed to get output stream");
    assert_eq!(PlaybackFailure::File.message("t.mp3"), "Failed to open file: t.mp3");
    assert_eq!(PlaybackFailure::Decoder.message("t.mp3"), "Failed to create decoder");
    assert_eq!(PlaybackFailure::Sink.message("t.mp3"), "Failed to create sink");
}
