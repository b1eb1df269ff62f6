//! Commands sent from session handlers to the playback coordinator.

use vstd::prelude::*;

verus! {

/// A command consumed exclusively by the playback coordinator.
///
/// `Play` and `Stop` carry the clip's resolved path; `Shutdown` tells
/// the coordinator to stop every rendering and terminate.
pub enum PlaybackCommand {
    Play(String),
    Stop(String),
    Shutdown,
}

/// The mathematical shape of a command: identifiers as character sequences.
pub enum CommandView {
    Play(Seq<char>),
    Stop(Seq<char>),
    Shutdown,
}

impl View for PlaybackCommand {
    type V = CommandView;

    open spec fn view(&self) -> CommandView {
        match self {
            PlaybackCommand::Play(id) => CommandView::Play(id@),
            PlaybackCommand::Stop(id) => CommandView::Stop(id@),
            PlaybackCommand::Shutdown => CommandView::Shutdown,
        }
    }
}

} // verus!
