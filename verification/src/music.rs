//! The background music: the steps that lead from the start of the program
//! to a track that plays in a loop, and what ends them early.

use vstd::prelude::*;
use vstd::string::StringExecFns;

verus! {

/// How long the player waits before it touches the audio device, in seconds.
pub const STARTUP_DELAY_SECONDS: u64 = 3;

/// How far the player has come.
#[derive(Clone, Copy, Debug, PartialEq, Eq, Structural)]
pub enum PlaybackStage {
    /// Waiting out the delay after startup.
    Waiting,
    /// About to open the default audio output.
    OpeningOutput,
    /// About to open the track's file.
    OpeningFile,
    /// About to decode the file.
    Decoding,
    /// About to create the sink that feeds the output.
    CreatingSink,
    /// Playing the track over and over.
    Playing,
    /// Done: something failed, or playback came to an end.
    Ended,
}

/// What the player asks to be done next.
#[derive(Clone, Copy, Debug, PartialEq, Eq, Structural)]
pub enum PlaybackAction {
    /// Sleep for so many seconds.
    Wait { seconds: u64 },
    /// Open the default audio output.
    OpenOutput,
    /// Open the track's file.
    OpenFile,
    /// Decode the file that was opened.
    Decode,
    /// Create a sink on the output that was opened.
    CreateSink,
    /// Hand the decoded track to the sink, repeated without end, and wait
    /// until the sink runs dry.
    PlayLooped,
    /// Nothing is left to do.
    Stop,
}

/// What ended the player early.
#[derive(Clone, Copy, Debug, PartialEq, Eq, Structural)]
pub enum PlaybackFailure {
    /// There is no audio output.
    Output,
    /// The track's file could not be opened.
    File,
    /// The file could not be decoded.
    Decoder,
    /// The sink could not be created.
    Sink,
}

/// The action that a stage asks for.
pub open spec fn action_at(stage: PlaybackStage) -> PlaybackAction {
    match stage {
        PlaybackStage::Waiting => PlaybackAction::Wait { seconds: STARTUP_DELAY_SECONDS },
        PlaybackStage::OpeningOutput => PlaybackAction::OpenOutput,
        PlaybackStage::OpeningFile => PlaybackAction::OpenFile,
        PlaybackStage::Decoding => PlaybackAction::Decode,
        PlaybackStage::CreatingSink => PlaybackAction::CreateSink,
        PlaybackStage::Playing => PlaybackAction::PlayLooped,
        PlaybackStage::Ended => PlaybackAction::Stop,
    }
}

/// The failure that is reported when the action of `stage` did not succeed.
/// The wait and the playback itself cannot fail.
pub open spec fn failure_at(stage: PlaybackStage) -> Option<PlaybackFailure> {
    match stage {
        PlaybackStage::OpeningOutput => Some(PlaybackFailure::Output),
        PlaybackStage::OpeningFile => Some(PlaybackFailure::File),
        PlaybackStage::Decoding => Some(PlaybackFailure::Decoder),
        PlaybackStage::CreatingSink => Some(PlaybackFailure::Sink),
        _ => None,
    }
}

/// The failure that the outcome of the action of `stage` amounts to.
pub open spec fn failure_after(stage: PlaybackStage, succeeded: bool) -> Option<PlaybackFailure> {
    if succeeded {
        None
    } else {
        failure_at(stage)
    }
}

/// The stage that follows `stage` once its action was carried out: the next
/// one in line where the action succeeded or could not fail, and the end
/// where it failed.
pub open spec fn stage_after(stage: PlaybackStage, succeeded: bool) -> PlaybackStage {
    if failure_after(stage, succeeded) is Some {
        PlaybackStage::Ended
    } else {
        match stage {
            PlaybackStage::Waiting => PlaybackStage::OpeningOutput,
            PlaybackStage::OpeningOutput => PlaybackStage::OpeningFile,
            PlaybackStage::OpeningFile => PlaybackStage::Decoding,
            PlaybackStage::Decoding => PlaybackStage::CreatingSink,
            PlaybackStage::CreatingSink => PlaybackStage::Playing,
            PlaybackStage::Playing => PlaybackStage::Ended,
            PlaybackStage::Ended => PlaybackStage::Ended,
        }
    }
}

/// How many actions lie between a stage and the end, at most.
pub open spec fn steps_left(stage: PlaybackStage) -> nat {
    match stage {
        PlaybackStage::Waiting => 6,
        PlaybackStage::OpeningOutput => 5,
        PlaybackStage::OpeningFile => 4,
        PlaybackStage::Decoding => 3,
        PlaybackStage::CreatingSink => 2,
        PlaybackStage::Playing => 1,
        PlaybackStage::Ended => 0,
    }
}

/// Every action brings the player nearer to its end, and a failure ends it
/// at once: nothing is tried again, and nothing is played after a failure.
pub proof fn lemma_player_runs_down(stage: PlaybackStage, succeeded: bool)
    ensures
        stage != PlaybackStage::Ended ==> steps_left(stage_after(stage, succeeded)) < steps_left(
            stage,
        ),
        stage == PlaybackStage::Ended ==> stage_after(stage, succeeded) == PlaybackStage::Ended,
        failure_after(stage, succeeded) is Some ==> stage_after(stage, succeeded)
            == PlaybackStage::Ended,
        stage_after(stage, succeeded) == PlaybackStage::Playing ==> stage
            == PlaybackStage::CreatingSink && succeeded,
{
}

impl PlaybackFailure {
    /// The line that reports the failure of the track at `file_path`.
    pub fn message(&self, file_path: &str) -> (text: String)
        ensures
            text@ == match *self {
                PlaybackFailure::Output => "Failed to get output stream"@,
                PlaybackFailure::File => "Failed to open file: "@ + file_path@,
                PlaybackFailure::Decoder => "Failed to create decoder"@,
                PlaybackFailure::Sink => "Failed to create sink"@,
            },
    {
        match self {
            PlaybackFailure::Output => String::from_str("Failed to get output stream"),
            PlaybackFailure::File => {
                let mut text = String::from_str("Failed to open file: ");
                text.append(file_path);
                text
            },
            PlaybackFailure::Decoder => String::from_str("Failed to create decoder"),
            PlaybackFailure::Sink => String::from_str("Failed to create sink"),
        }
    }
}

/// What a player is: the path of its track and the stage it has come to.
pub ghost struct PlayerView {
    pub file_path: Seq<char>,
    pub stage: PlaybackStage,
}

/// The player of the background music.
pub struct MusicPlayer {
    file_path: String,
    stage: PlaybackStage,
}

impl View for MusicPlayer {
    type V = PlayerView;

    closed spec fn view(&self) -> PlayerView {
        PlayerView { file_path: self.file_path@, stage: self.stage }
    }
}

impl MusicPlayer {
    /// The player of the track at `file_path`, as it is when the program
    /// starts: it has yet to wait out its delay.
    pub fn play_music_on_startup(file_path: &str) -> (player: MusicPlayer)
        ensures
            player@ == (PlayerView { file_path: file_path@, stage: PlaybackStage::Waiting }),
    {
        MusicPlayer { file_path: file_path.to_owned(), stage: PlaybackStage::Waiting }
    }

    /// The path of the track.
    pub fn file_path(&self) -> (path: &String)
        ensures
            path@ == self@.file_path,
    {
        &self.file_path
    }

    /// The stage that the player has come to.
    pub fn stage(&self) -> (stage: PlaybackStage)
        ensures
            stage == self@.stage,
    {
        self.stage
    }

    /// What is to be done next.
    pub fn next_action(&self) -> (action: PlaybackAction)
        ensures
            action == action_at(self@.stage),
    {
        match self.stage {
            PlaybackStage::Waiting => PlaybackAction::Wait { seconds: STARTUP_DELAY_SECONDS },
            PlaybackStage::OpeningOutput => PlaybackAction::OpenOutput,
            PlaybackStage::OpeningFile => PlaybackAction::OpenFile,
            PlaybackStage::Decoding => PlaybackAction::Decode,
            PlaybackStage::CreatingSink => PlaybackAction::CreateSink,
            PlaybackStage::Playing => PlaybackAction::PlayLooped,
            PlaybackStage::Ended => PlaybackAction::Stop,
        }
    }

    /// Takes in how the action that was asked for went, and moves on: to the
    /// next stage where it succeeded, to the end where it failed. Hands back
    /// the failure to report, if there is one.
    pub fn report(&mut self, succeeded: bool) -> (failure: Option<PlaybackFailure>)
        ensures
            final(self)@ == (PlayerView {
                stage: stage_after(old(self)@.stage, succeeded),
                ..old(self)@
            }),
            failure == failure_after(old(self)@.stage, succeeded),
    {
        let failure = if succeeded {
            None
        } else {
            match self.stage {
                PlaybackStage::OpeningOutput => Some(PlaybackFailure::Output),
                PlaybackStage::OpeningFile => Some(PlaybackFailure::File),
                PlaybackStage::Decoding => Some(PlaybackFailure::Decoder),
                PlaybackStage::CreatingSink => Some(PlaybackFailure::Sink),
                _ => None,
            }
        };
        self.stage = if failure.is_some() {
            PlaybackStage::Ended
        } else {
            match self.stage {
                PlaybackStage::Waiting => PlaybackStage::OpeningOutput,
                PlaybackStage::OpeningOutput => PlaybackStage::OpeningFile,
                PlaybackStage::OpeningFile => PlaybackStage::Decoding,
                PlaybackStage::Decoding => PlaybackStage::CreatingSink,
                PlaybackStage::CreatingSink => PlaybackStage::Playing,
                PlaybackStage::Playing => PlaybackStage::Ended,
                PlaybackStage::Ended => PlaybackStage::Ended,
            }
        };
        failure
    }
}

} // verus!
