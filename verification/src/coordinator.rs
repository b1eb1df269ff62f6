//! The playback coordinator: sole owner of the audio output device.
//!
//! The coordinator drains the command queue strictly in order. Its table
//! maps each clip identifier to the token of the one rendering currently
//! active for it, so two renderings of the same clip can never coexist.
//! Tokens name the opaque device-side handles the surrounding process
//! holds; the coordinator mints them and decides, the process performs.
//!
//! A `Play` is applied in two steps, mirroring the device work between
//! them: `begin_play` retires any current rendering of the clip, the
//! process then attempts to start the clip on the device, and
//! `record_play` records the outcome. `apply_stop` and `apply_shutdown`
//! apply the other two commands in one step each.

use vstd::prelude::*;

use crate::keymap::KeyMap;

verus! {

/// State of the single playback worker.
pub struct Coordinator {
    /// For each clip now rendering, the token of that one rendering.
    active: KeyMap<u64>,
    /// The next token to mint; every token ever handed out is below it.
    next_token: u64,
    /// Set once `Shutdown` has been applied; no command is applied after.
    terminated: bool,
}

/// First step of `Play`: the clip's current rendering, if any, is retired.
pub open spec fn begin_play_rel(
    pre: Coordinator,
    post: Coordinator,
    id: Seq<char>,
    stop_old: Option<u64>,
) -> bool {
    &&& post.renderings() == pre.renderings().remove(id)
    &&& stop_old == if pre.renderings().contains_key(id) {
        Some(pre.renderings()[id])
    } else {
        None::<u64>
    }
    &&& post.token_bound() == pre.token_bound()
    &&& post.is_terminated() == pre.is_terminated()
}

/// Second step of `Play`: the outcome of the device attempt is recorded.
pub open spec fn record_play_rel(
    pre: Coordinator,
    post: Coordinator,
    id: Seq<char>,
    started: bool,
    token: Option<u64>,
) -> bool {
    &&& if started {
        &&& token == Some(pre.token_bound())
        &&& post.renderings() == pre.renderings().insert(id, pre.token_bound())
        &&& post.token_bound() == pre.token_bound() + 1
    } else {
        &&& token is None
        &&& post.renderings() == pre.renderings()
        &&& post.token_bound() == pre.token_bound()
    }
    &&& post.is_terminated() == pre.is_terminated()
}

/// `Stop`: the clip's rendering, if any, is retired; otherwise a no-op.
pub open spec fn stop_rel(
    pre: Coordinator,
    post: Coordinator,
    id: Seq<char>,
    stopped: Option<u64>,
) -> bool {
    &&& post.renderings() == pre.renderings().remove(id)
    &&& stopped == if pre.renderings().contains_key(id) {
        Some(pre.renderings()[id])
    } else {
        None::<u64>
    }
    &&& post.token_bound() == pre.token_bound()
    &&& post.is_terminated() == pre.is_terminated()
}

/// `Shutdown`: every rendering is retired and the worker terminates.
pub open spec fn shutdown_rel(pre: Coordinator, post: Coordinator, stops: Seq<u64>) -> bool {
    &&& post.renderings() == Map::<Seq<char>, u64>::empty()
    &&& post.is_terminated()
    &&& forall|id: Seq<char>|
        pre.renderings().contains_key(id) ==> stops.contains(#[trigger] pre.renderings()[id])
    &&& forall|k: int| 0 <= k < stops.len() ==> pre.renderings().contains_value(#[trigger] stops[k])
}

impl Coordinator {
    /// The renderings now active: clip identifier to rendering token.
    pub closed spec fn renderings(&self) -> Map<Seq<char>, u64> {
        self.active@
    }

    /// Strict upper bound on every token handed out so far.
    pub closed spec fn token_bound(&self) -> u64 {
        self.next_token
    }

    /// Whether `Shutdown` has been applied.
    pub closed spec fn is_terminated(&self) -> bool {
        self.terminated
    }

    /// The table is well formed and active tokens sit below the bound.
    pub closed spec fn wf(&self) -> bool {
        &&& self.active.wf()
        &&& forall|id: Seq<char>|
            self.active@.contains_key(id) ==> (#[trigger] self.active@[id]) < self.next_token
    }

    pub fn new() -> (c: Coordinator)
        ensures
            c.wf(),
            c.renderings() == Map::<Seq<char>, u64>::empty(),
            !c.is_terminated(),
            c.token_bound() == 0,
    {
        Coordinator { active: KeyMap::new(), next_token: 0, terminated: false }
    }

    /// Apply the first half of `Play(id)`: retire the current rendering
    /// of `id`, returning its token for the caller to stop on the device.
    pub fn begin_play(&mut self, id: &str) -> (stop_old: Option<u64>)
        requires
            old(self).wf(),
            !old(self).is_terminated(),
        ensures
            final(self).wf(),
            begin_play_rel(*old(self), *final(self), id@, stop_old),
    {
        self.active.remove(id)
    }

    /// Apply the second half of `Play(id)`: on success, record a fresh
    /// token for the new rendering; on failure, record nothing, so the
    /// clip is left not actually playing.
    pub fn record_play(&mut self, id: &str, started: bool) -> (token: Option<u64>)
        requires
            old(self).wf(),
            !old(self).is_terminated(),
            !old(self).renderings().contains_key(id@),
            old(self).token_bound() < u64::MAX,
        ensures
            final(self).wf(),
            record_play_rel(*old(self), *final(self), id@, started, token),
    {
        if started {
            let t = self.next_token;
            self.active.set(id, t);
            self.next_token = t + 1;
            Some(t)
        } else {
            None
        }
    }

    /// Apply `Stop(id)`: retire the current rendering of `id`, if any,
    /// returning its token for the caller to stop on the device.
    pub fn apply_stop(&mut self, id: &str) -> (stopped: Option<u64>)
        requires
            old(self).wf(),
            !old(self).is_terminated(),
        ensures
            final(self).wf(),
            stop_rel(*old(self), *final(self), id@, stopped),
    {
        self.active.remove(id)
    }

    /// Apply `Shutdown`: retire every rendering, returning all their
    /// tokens for the caller to stop, and terminate the worker.
    pub fn apply_shutdown(&mut self) -> (stops: Vec<u64>)
        requires
            old(self).wf(),
            !old(self).is_terminated(),
        ensures
            final(self).wf(),
            shutdown_rel(*old(self), *final(self), stops@),
    {
        self.terminated = true;
        self.active.drain_values()
    }
}

} // verus!
