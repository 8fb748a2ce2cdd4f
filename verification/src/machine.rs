//! The daemon's recording state machine (Recorder + delivery queue): a pure function
//! from the current [`State`] and a [`Command`] to the next state, the side effect
//! the daemon must perform, and the reply to send back.

use vstd::prelude::*;
use crate::protocol::{Command, Response, State};

verus! {

/// A side effect the daemon must carry out as part of a transition.
#[derive(Debug, Clone, Copy, PartialEq, Eq, Structural)]
pub enum Action {
    Nothing,
    StartRecording,
    /// Start a hands-free VAD recording that self-terminates on trailing silence.
    StartVadRecording,
    /// Start a hands-free Continuous-mode session.
    StartContinuous,
    /// Stop the recorder, enqueue the utterance, and transcribe it in the background.
    StopAndEnqueue,
    DiscardRecording,
    ReloadConfig,
    /// Re-inject the most-recent cached transcript.
    ReplayLast,
    /// Start a hands-free streaming dictation with a live preview.
    StartStreaming,
    /// Force-stop the streaming dictation: reconcile and deliver.
    StopStreaming,
    /// Abort the streaming dictation: erase the preview, deliver nothing.
    DiscardStreaming,
}

/// The result of applying a command: where to go, what to do, what to reply.
#[derive(Debug, Clone, PartialEq, Eq)]
pub struct Transition {
    pub next: State,
    pub action: Action,
    pub response: Response,
}

/// The rejection message for a command refused in `s`, if it is refused: while the
/// model downloads or loads, everything but `status` is refused.
pub open spec fn rejection(s: State, c: Command) -> Option<Seq<char>> {
    match (s, c) {
        (State::Downloading(_), Command::Status) => None,
        (State::Downloading(_), _) => Some("model still downloading"@),
        (State::Loading, Command::Status) => None,
        (State::Loading, _) => Some("model still loading"@),
        _ => None,
    }
}

/// The state after applying `c` in `s` (unchanged when the command is refused).
pub open spec fn next_state(s: State, c: Command) -> State {
    match (s, c) {
        (State::Downloading(_), _) => s,
        (State::Loading, _) => s,
        (State::Idle, Command::Toggle) => State::Recording,
        (State::Recording, Command::Toggle) => State::Idle,
        (State::Idle, Command::Vad) => State::Recording,
        (State::Transcribing, Command::Vad) => State::Recording,
        (State::Idle, Command::Continuous) => State::Recording,
        (State::Transcribing, Command::Continuous) => State::Recording,
        (State::Transcribing, Command::Toggle) => State::Recording,
        (State::Idle, Command::Streaming) => State::Streaming,
        (State::Transcribing, Command::Streaming) => State::Streaming,
        (State::Streaming, Command::Toggle) => State::Idle,
        (State::Streaming, Command::Cancel) => State::Idle,
        (State::Recording, Command::Cancel) => State::Idle,
        _ => s,
    }
}

/// The side effect of applying `c` in `s`.
pub open spec fn action_of(s: State, c: Command) -> Action {
    match (s, c) {
        (State::Downloading(_), _) => Action::Nothing,
        (State::Loading, _) => Action::Nothing,
        (State::Idle, Command::Toggle) => Action::StartRecording,
        (State::Recording, Command::Toggle) => Action::StopAndEnqueue,
        (State::Idle, Command::Vad) => Action::StartVadRecording,
        (State::Recording, Command::Vad) => Action::Nothing,
        (State::Transcribing, Command::Vad) => Action::StartVadRecording,
        (State::Idle, Command::Continuous) => Action::StartContinuous,
        (State::Recording, Command::Continuous) => Action::Nothing,
        (State::Transcribing, Command::Continuous) => Action::StartContinuous,
        (State::Transcribing, Command::Toggle) => Action::StartRecording,
        (State::Idle, Command::Streaming) => Action::StartStreaming,
        (State::Transcribing, Command::Streaming) => Action::StartStreaming,
        (State::Recording, Command::Streaming) => Action::Nothing,
        (State::Streaming, Command::Streaming) => Action::Nothing,
        (State::Streaming, Command::Toggle) => Action::StopStreaming,
        (State::Streaming, Command::Cancel) => Action::DiscardStreaming,
        (State::Streaming, Command::Vad) => Action::Nothing,
        (State::Streaming, Command::Continuous) => Action::Nothing,
        (State::Recording, Command::Cancel) => Action::DiscardRecording,
        (_, Command::Cancel) => Action::Nothing,
        (_, Command::Status) => Action::Nothing,
        (_, Command::Reload) => Action::ReloadConfig,
        (_, Command::ReplayLast) => Action::ReplayLast,
        (_, Command::RegisterSink(_)) => Action::Nothing,
    }
}

fn go(next: State, action: Action) -> (t: Transition)
    ensures
        t.next == next,
        t.action == action,
        t.response == Response::Accepted(next),
{
    Transition { next, action, response: Response::Accepted(next) }
}

fn reject(state: State, message: &str) -> (t: Transition)
    ensures
        t.next == state,
        t.action == Action::Nothing,
        t.response matches Response::Rejected(m) && m@ == message@,
{
    Transition { next: state, action: Action::Nothing, response: Response::Rejected(message.to_owned()) }
}

/// Apply `command` to `state`: an accepted command answers `ok <next state>`; a refused
/// one leaves the state unchanged, does nothing, and answers with the reason.
pub fn apply(state: State, command: Command) -> (t: Transition)
    ensures
        t.next == next_state(state, command),
        t.action == action_of(state, command),
        rejection(state, command) matches Some(m) ==> (t.response matches Response::Rejected(r)
            && r@ == m),
        rejection(state, command) is None ==> t.response == Response::Accepted(t.next),
{
    match (state, command) {
        (State::Downloading(_), Command::Status) => go(state, Action::Nothing),
        (State::Downloading(_), _) => reject(state, "model still downloading"),
        (State::Loading, Command::Status) => go(State::Loading, Action::Nothing),
        (State::Loading, _) => reject(State::Loading, "model still loading"),
        (State::Idle, Command::Toggle) => go(State::Recording, Action::StartRecording),
        (State::Recording, Command::Toggle) => go(State::Idle, Action::StopAndEnqueue),
        (State::Idle, Command::Vad) => go(State::Recording, Action::StartVadRecording),
        (State::Recording, Command::Vad) => go(State::Recording, Action::Nothing),
        (State::Transcribing, Command::Vad) => go(State::Recording, Action::StartVadRecording),
        (State::Idle, Command::Continuous) => go(State::Recording, Action::StartContinuous),
        (State::Recording, Command::Continuous) => go(State::Recording, Action::Nothing),
        (State::Transcribing, Command::Continuous) => go(State::Recording, Action::StartContinuous),
        (State::Transcribing, Command::Toggle) => go(State::Recording, Action::StartRecording),
        (State::Idle, Command::Streaming) => go(State::Streaming, Action::StartStreaming),
        (State::Transcribing, Command::Streaming) => go(State::Streaming, Action::StartStreaming),
        (State::Recording, Command::Streaming) => go(State::Recording, Action::Nothing),
        (State::Streaming, Command::Streaming) => go(State::Streaming, Action::Nothing),
        (State::Streaming, Command::Toggle) => go(State::Idle, Action::StopStreaming),
        (State::Streaming, Command::Cancel) => go(State::Idle, Action::DiscardStreaming),
        (State::Streaming, Command::Vad) => go(State::Streaming, Action::Nothing),
        (State::Streaming, Command::Continuous) => go(State::Streaming, Action::Nothing),
        (State::Recording, Command::Cancel) => go(State::Idle, Action::DiscardRecording),
        (s, Command::Cancel) => go(s, Action::Nothing),
        (s, Command::Status) => go(s, Action::Nothing),
        (s, Command::Reload) => go(s, Action::ReloadConfig),
        (s, Command::ReplayLast) => go(s, Action::ReplayLast),
        (s, Command::RegisterSink(_)) => go(s, Action::Nothing),
    }
}

/// `status` is answered in every state, and never changes the state or acts.
pub proof fn lemma_status_is_always_answered(s: State)
    ensures
        rejection(s, Command::Status) is None,
        next_state(s, Command::Status) == s,
        action_of(s, Command::Status) == Action::Nothing,
{
}

/// While the model downloads or loads, every command but `status` is refused and
/// nothing changes.
pub proof fn lemma_not_ready_refuses(s: State, c: Command)
    requires
        s is Downloading || s is Loading,
        c != Command::Status,
    ensures
        rejection(s, c) is Some,
        next_state(s, c) == s,
        action_of(s, c) == Action::Nothing,
{
}

/// One mouth: a command that would start a capture while the recorder is already
/// busy (recording or streaming) starts nothing and keeps the state.
pub proof fn lemma_busy_recorder_starts_nothing(s: State, c: Command)
    requires
        s is Recording || s is Streaming,
        c == Command::Vad || c == Command::Continuous || c == Command::Streaming,
    ensures
        next_state(s, c) == s,
        action_of(s, c) == Action::Nothing,
{
}

/// Stopping a recording frees the recorder at once, so a new recording can start
/// while the previous utterance is still transcribing.
pub proof fn lemma_stop_then_restart(s: State)
    requires
        s == State::Recording,
    ensures
        next_state(s, Command::Toggle) == State::Idle,
        action_of(s, Command::Toggle) == Action::StopAndEnqueue,
        next_state(next_state(s, Command::Toggle), Command::Toggle) == State::Recording,
        action_of(next_state(s, Command::Toggle), Command::Toggle) == Action::StartRecording,
{
}

/// In a ready state, `replay-last`, `reload` and `register-sink` never change the state.
pub proof fn lemma_ready_commands_keep_state(s: State, c: Command)
    requires
        !(s is Downloading || s is Loading),
        c == Command::ReplayLast || c == Command::Reload || c is RegisterSink || c == Command::Status,
    ensures
        next_state(s, c) == s,
        rejection(s, c) is None,
{
}

/// Whether the model is up and commands are served.
pub open spec fn ready(s: State) -> bool {
    !(s is Downloading || s is Loading)
}

/// The commands that do not touch the recorder do what they name in every ready
/// state: `reload` reloads the config, `replay-last` replays, `register-sink` and
/// `status` act on nothing; none changes the state and all are accepted.
pub proof fn lemma_ready_service_commands(s: State)
    requires
        ready(s),
    ensures
        action_of(s, Command::Reload) == Action::ReloadConfig,
        action_of(s, Command::ReplayLast) == Action::ReplayLast,
        forall|v: Option<u32>| action_of(s, Command::RegisterSink(v)) == Action::Nothing,
        action_of(s, Command::Status) == Action::Nothing,
        next_state(s, Command::Reload) == s && rejection(s, Command::Reload) is None,
        next_state(s, Command::ReplayLast) == s && rejection(s, Command::ReplayLast) is None,
{
}

/// `toggle` flips the batch recorder: from idle (or while a previous utterance is
/// transcribing) it starts recording, from recording it stops and enqueues, and it
/// ends a live streaming dictation.
pub proof fn lemma_toggle_flips_recording(s: State)
    requires
        ready(s),
    ensures
        (s == State::Idle || s == State::Transcribing) ==> next_state(s, Command::Toggle)
            == State::Recording && action_of(s, Command::Toggle) == Action::StartRecording,
        s == State::Recording ==> next_state(s, Command::Toggle) == State::Idle && action_of(
            s,
            Command::Toggle,
        ) == Action::StopAndEnqueue,
        s == State::Streaming ==> next_state(s, Command::Toggle) == State::Idle && action_of(
            s,
            Command::Toggle,
        ) == Action::StopStreaming,
        rejection(s, Command::Toggle) is None,
{
}

/// With the recorder free (idle or transcribing), each hands-free command starts its
/// own capture: `vad` a silence-stopped recording, `continuous` a clip session,
/// `streaming` a live dictation.
pub proof fn lemma_free_recorder_starts_the_named_capture(s: State)
    requires
        s == State::Idle || s == State::Transcribing,
    ensures
        next_state(s, Command::Vad) == State::Recording && action_of(s, Command::Vad)
            == Action::StartVadRecording,
        next_state(s, Command::Continuous) == State::Recording && action_of(s, Command::Continuous)
            == Action::StartContinuous,
        next_state(s, Command::Streaming) == State::Streaming && action_of(s, Command::Streaming)
            == Action::StartStreaming,
{
}

/// `cancel` throws away what is being captured and returns to idle: a recording is
/// discarded, a streaming dictation is discarded; with nothing capturing it does
/// nothing and changes nothing.
pub proof fn lemma_cancel_discards_the_capture(s: State)
    requires
        ready(s),
    ensures
        s == State::Recording ==> next_state(s, Command::Cancel) == State::Idle && action_of(
            s,
            Command::Cancel,
        ) == Action::DiscardRecording,
        s == State::Streaming ==> next_state(s, Command::Cancel) == State::Idle && action_of(
            s,
            Command::Cancel,
        ) == Action::DiscardStreaming,
        !(s == State::Recording || s == State::Streaming) ==> next_state(s, Command::Cancel) == s
            && action_of(s, Command::Cancel) == Action::Nothing,
{
}

/// Actions and states agree: a capture is started exactly when a ready state moves
/// from a free recorder into recording or streaming, and the recorder is stopped or
/// discarded exactly when it moves from capturing back to idle.
pub proof fn lemma_actions_match_state_changes(s: State, c: Command)
    requires
        ready(s),
    ensures
        (action_of(s, c) == Action::StartRecording || action_of(s, c) == Action::StartVadRecording
            || action_of(s, c) == Action::StartContinuous) <==> (next_state(s, c) == State::Recording
            && s != State::Recording),
        action_of(s, c) == Action::StartStreaming <==> (next_state(s, c) == State::Streaming && s
            != State::Streaming),
        (action_of(s, c) == Action::StopAndEnqueue || action_of(s, c) == Action::DiscardRecording)
            <==> (s == State::Recording && next_state(s, c) == State::Idle),
        (action_of(s, c) == Action::StopStreaming || action_of(s, c) == Action::DiscardStreaming)
            <==> (s == State::Streaming && next_state(s, c) == State::Idle),
{
}

} // verus!
