//! The coordinator's single ordered command queue.
//!
//! Commands are handed out strictly in arrival order; once the queue is
//! closed — the coordinator has shut down — every further submission
//! surfaces a queue-closed error instead of succeeding as a no-op.

use vstd::prelude::*;

use crate::commands::{CommandView, PlaybackCommand};

verus! {

/// The error a submission after shutdown surfaces.
#[derive(Debug)]
pub struct QueueClosed;

/// FIFO queue of playback commands with a closed flag.
pub struct CommandQueue {
    items: Vec<PlaybackCommand>,
    closed: bool,
}

/// How one submission relates two queue states: refused, changing
/// nothing, exactly when the queue is closed.
pub open spec fn submit_rel(pre: CommandQueue, post: CommandQueue, cmd: CommandView, ok: bool) -> bool {
    &&& post.is_closed() == pre.is_closed()
    &&& if pre.is_closed() {
        !ok && post.pending() == pre.pending()
    } else {
        ok && post.pending() == pre.pending().push(cmd)
    }
}

/// How one successful receive relates two queue states and the command out.
pub open spec fn recv_rel(pre: CommandQueue, post: CommandQueue, out: CommandView) -> bool {
    &&& pre.pending().len() > 0
    &&& out == pre.pending()[0]
    &&& post.pending() == pre.pending().drop_first()
    &&& post.is_closed() == pre.is_closed()
}

impl CommandQueue {
    /// The commands submitted and not yet received, oldest first.
    pub closed spec fn pending(&self) -> Seq<CommandView> {
        self.items@.map_values(|c: PlaybackCommand| c@)
    }

    /// Whether the queue still accepts submissions.
    pub closed spec fn is_closed(&self) -> bool {
        self.closed
    }

    pub fn new() -> (q: CommandQueue)
        ensures
            q.pending() == Seq::<CommandView>::empty(),
            !q.is_closed(),
    {
        let q = CommandQueue { items: Vec::new(), closed: false };
        proof {
            assert(q.pending() =~= Seq::<CommandView>::empty());
        }
        q
    }

    /// Enqueue a command; fails, changing nothing, exactly when closed.
    pub fn submit(&mut self, cmd: PlaybackCommand) -> (r: Result<(), QueueClosed>)
        ensures
            submit_rel(*old(self), *final(self), cmd@, r is Ok),
    {
        if self.closed {
            Err(QueueClosed)
        } else {
            let ghost c = cmd@;
            self.items.push(cmd);
            proof {
                assert(self.pending() =~= old(self).pending().push(c));
            }
            Ok(())
        }
    }

    /// Take the oldest pending command, if any.
    pub fn recv(&mut self) -> (r: Option<PlaybackCommand>)
        ensures
            old(self).pending().len() == 0 ==> r is None && *final(self) == *old(self),
            old(self).pending().len() > 0 ==> (r matches Some(cmd) && recv_rel(
                *old(self),
                *final(self),
                cmd@,
            )),
    {
        if self.items.len() == 0 {
            None
        } else {
            let cmd = self.items.remove(0);
            proof {
                assert(self.pending() =~= old(self).pending().drop_first());
            }
            Some(cmd)
        }
    }

    /// Refuse all further submissions; pending commands are discarded.
    pub fn close(&mut self)
        ensures
            final(self).is_closed(),
            final(self).pending() == Seq::<CommandView>::empty(),
    {
        self.closed = true;
        self.items = Vec::new();
        proof {
            assert(self.pending() =~= Seq::<CommandView>::empty());
        }
    }
}

} // verus!
