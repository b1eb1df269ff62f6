//! The toggle state registry and its session-facing operations.
//!
//! `AudioState` pairs the shared map of believed play/stop state with
//! the sending side of the coordinator's command queue. A toggle reads
//! the believed state, flips it, enqueues the matching command and
//! stores the new state — one critical section per toggle, so no two
//! overlapping toggles of the same clip can both observe "stopped".
//!
//! The believed state is an optimistic projection: it reflects intent,
//! not confirmed device state, and may diverge when playback fails.

use vstd::prelude::*;
use vstd::string::StringExecFns;

use crate::commands::{CommandView, PlaybackCommand};
use crate::keymap::KeyMap;
use crate::queue::{CommandQueue, QueueClosed};

verus! {

/// The resolved path of a stored clip: its name under the upload folder.
pub open spec fn clip_path(name: Seq<char>) -> Seq<char> {
    "uploads/"@ + name
}

/// Shared audio state: believed play/stop flags plus the command queue.
pub struct AudioState {
    playing_files: KeyMap<bool>,
    command_queue: CommandQueue,
}

/// Registry, queue contents and queue state all as they were.
pub open spec fn state_unchanged(pre: AudioState, post: AudioState) -> bool {
    &&& post.believed() == pre.believed()
    &&& post.pending() == pre.pending()
    &&& post.queue_closed() == pre.queue_closed()
}

/// How one successful toggle of the clip at `path` relates two states:
/// the new believed state is the negation of the old, and the matching
/// command is enqueued. A toggle succeeds only while the queue is open;
/// after shutdown it fails and changes nothing.
pub open spec fn toggle_rel(pre: AudioState, post: AudioState, path: Seq<char>) -> bool {
    let started = !pre.believed_playing(path);
    &&& !pre.queue_closed()
    &&& !post.queue_closed()
    &&& post.believed() == pre.believed().insert(path, started)
    &&& post.pending() == pre.pending().push(
        if started {
            CommandView::Play(path)
        } else {
            CommandView::Stop(path)
        },
    )
}

impl AudioState {
    /// The believed play/stop flag recorded for each clip path.
    pub closed spec fn believed(&self) -> Map<Seq<char>, bool> {
        self.playing_files@
    }

    /// A clip is believed playing only if a true flag is recorded;
    /// an absent entry means stopped.
    pub open spec fn believed_playing(&self, path: Seq<char>) -> bool {
        self.believed().contains_key(path) && self.believed()[path]
    }

    /// The commands enqueued for the coordinator and not yet taken.
    pub closed spec fn pending(&self) -> Seq<CommandView> {
        self.command_queue.pending()
    }

    /// Whether the command queue refuses further submissions.
    pub closed spec fn queue_closed(&self) -> bool {
        self.command_queue.is_closed()
    }

    pub closed spec fn wf(&self) -> bool {
        self.playing_files.wf()
    }

    /// A fresh registry: nothing believed playing, nothing pending.
    pub fn new() -> (s: AudioState)
        ensures
            s.wf(),
            s.believed() == Map::<Seq<char>, bool>::empty(),
            s.pending() == Seq::<CommandView>::empty(),
            !s.queue_closed(),
    {
        AudioState { playing_files: KeyMap::new(), command_queue: CommandQueue::new() }
    }

    /// Flip the believed state of `filename`'s clip and enqueue the
    /// matching command; returns the new believed state. Once the
    /// worker has shut down and the queue is closed, the toggle
    /// surfaces the queue-closed error — fatal for that submission
    /// only — and leaves the registry untouched.
    pub fn toggle_sound(&mut self, filename: &str) -> (r: Result<bool, QueueClosed>)
        requires
            old(self).wf(),
        ensures
            final(self).wf(),
            old(self).queue_closed() ==> r is Err && state_unchanged(*old(self), *final(self)),
            !old(self).queue_closed() ==> (r matches Ok(started)
                && started == !old(self).believed_playing(clip_path(filename@))
                && toggle_rel(*old(self), *final(self), clip_path(filename@))),
    {
        let filepath = upload_path(filename);
        let is_playing = match self.playing_files.get(filepath.as_str()) {
            Some(b) => b,
            None => false,
        };
        let started = !is_playing;
        let cmd = if started {
            PlaybackCommand::Play(filepath.clone())
        } else {
            PlaybackCommand::Stop(filepath.clone())
        };
        match self.command_queue.submit(cmd) {
            Ok(()) => {
                self.playing_files.set(filepath.as_str(), started);
                Ok(started)
            },
            Err(e) => Err(e),
        }
    }

    /// Enqueue a command as is; fails exactly when the queue is closed.
    pub fn submit_command(&mut self, cmd: PlaybackCommand) -> (r: Result<(), QueueClosed>)
        ensures
            final(self).wf() == old(self).wf(),
            final(self).believed() == old(self).believed(),
            final(self).queue_closed() == old(self).queue_closed(),
            old(self).queue_closed() ==> r is Err && final(self).pending() == old(self).pending(),
            !old(self).queue_closed() ==> r is Ok && final(self).pending() == old(
                self,
            ).pending().push(cmd@),
    {
        self.command_queue.submit(cmd)
    }

    /// Ask the coordinator to stop everything and terminate: enqueue
    /// `Shutdown`; a failed submission (already shut down) is ignored.
    pub fn shutdown(&mut self)
        ensures
            final(self).wf() == old(self).wf(),
            final(self).believed() == old(self).believed(),
            final(self).queue_closed() == old(self).queue_closed(),
            old(self).queue_closed() ==> final(self).pending() == old(self).pending(),
            !old(self).queue_closed() ==> final(self).pending() == old(self).pending().push(
                CommandView::Shutdown,
            ),
    {
        let _ = self.command_queue.submit(PlaybackCommand::Shutdown);
    }

    /// The coordinator's side: take the oldest pending command.
    pub fn next_command(&mut self) -> (r: Option<PlaybackCommand>)
        ensures
            final(self).wf() == old(self).wf(),
            final(self).believed() == old(self).believed(),
            old(self).pending().len() == 0 ==> r is None && *final(self) == *old(self),
            old(self).pending().len() > 0 ==> (r matches Some(cmd)
                && cmd@ == old(self).pending()[0]
                && final(self).pending() == old(self).pending().drop_first()
                && final(self).queue_closed() == old(self).queue_closed()),
    {
        self.command_queue.recv()
    }

    /// The coordinator's side: refuse all further submissions.
    pub fn close_queue(&mut self)
        ensures
            final(self).wf() == old(self).wf(),
            final(self).believed() == old(self).believed(),
            final(self).queue_closed(),
            final(self).pending() == Seq::<CommandView>::empty(),
    {
        self.command_queue.close()
    }
}

/// The clip path a request's file name resolves to.
fn upload_path(filename: &str) -> (p: String)
    ensures
        p@ == clip_path(filename@),
{
    let mut p: String = "uploads/".to_owned();
    p.append(filename);
    p
}

} // verus!
