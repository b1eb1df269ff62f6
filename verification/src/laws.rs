//! The coordination laws of the core, proved over the transition
//! relations that the executable operations are specified by.

use vstd::prelude::*;

use crate::commands::CommandView;
use crate::coordinator::{begin_play_rel, record_play_rel, shutdown_rel, Coordinator};
use crate::queue::{recv_rel, submit_rel, CommandQueue};
use crate::registry::{toggle_rel, AudioState};

verus! {

/// Idempotent replace: two successful `Play(id)` in a row never leave
/// two renderings of `id`. The second play first retires the first
/// rendering — the token it stops is exactly the one the first play
/// recorded — and afterwards the one rendering of `id` is the second,
/// a token distinct from the first.
pub proof fn lemma_idempotent_replace(
    c0: Coordinator,
    c1: Coordinator,
    c2: Coordinator,
    c3: Coordinator,
    c4: Coordinator,
    id: Seq<char>,
    stop1: Option<u64>,
    tok1: Option<u64>,
    stop2: Option<u64>,
    tok2: Option<u64>,
)
    requires
        begin_play_rel(c0, c1, id, stop1),
        record_play_rel(c1, c2, id, true, tok1),
        begin_play_rel(c2, c3, id, stop2),
        record_play_rel(c3, c4, id, true, tok2),
    ensures
        tok1 is Some && tok2 is Some,
        stop2 == tok1,
        c4.renderings().contains_key(id) && c4.renderings()[id] == tok2->Some_0,
        tok2->Some_0 != tok1->Some_0,
{
}

/// Toggle alternation: from a freshly-initialized registry, a run of
/// toggles of one clip believes it playing after every odd toggle and
/// stopped after every even one.
pub proof fn lemma_toggle_alternation(states: Seq<AudioState>, id: Seq<char>)
    requires
        states.len() >= 1,
        states[0].believed() == Map::<Seq<char>, bool>::empty(),
        forall|i: int|
            0 <= i < states.len() - 1 ==> toggle_rel(#[trigger] states[i], states[i + 1], id),
    ensures
        forall|i: int|
            0 <= i < states.len() ==> (#[trigger] states[i].believed_playing(id) <==> i % 2 == 1),
{
    assert forall|i: int| 0 <= i < states.len() implies (#[trigger] states[i].believed_playing(id)
        <==> i % 2 == 1) by {
        lemma_toggle_alternation_at(states, id, i);
    }
}

proof fn lemma_toggle_alternation_at(states: Seq<AudioState>, id: Seq<char>, i: int)
    requires
        states.len() >= 1,
        states[0].believed() == Map::<Seq<char>, bool>::empty(),
        forall|j: int|
            0 <= j < states.len() - 1 ==> toggle_rel(#[trigger] states[j], states[j + 1], id),
        0 <= i < states.len(),
    ensures
        states[i].believed_playing(id) <==> i % 2 == 1,
    decreases i,
{
    if i > 0 {
        lemma_toggle_alternation_at(states, id, i - 1);
        assert(toggle_rel(states[i - 1], states[i], id));
    }
}

/// Isolation across identifiers: a toggle of clip `x` leaves the
/// believed state of every other clip `y` as it was.
pub proof fn lemma_toggle_isolation(pre: AudioState, post: AudioState, x: Seq<char>, y: Seq<char>)
    requires
        toggle_rel(pre, post, x),
        x != y,
    ensures
        post.believed_playing(y) == pre.believed_playing(y),
{
}

/// FIFO order: a run of receives hands the pending commands out
/// exactly in the order they were submitted, so for any one clip a
/// command enqueued earlier is applied before one enqueued later.
#[verifier::rlimit(50)]
pub proof fn lemma_fifo_order(queues: Seq<CommandQueue>, outs: Seq<CommandView>)
    requires
        queues.len() == outs.len() + 1,
        forall|i: int| 0 <= i < outs.len() ==> recv_rel(#[trigger] queues[i], queues[i + 1], outs[i]),
    ensures
        outs.len() <= queues[0].pending().len(),
        forall|i: int| 0 <= i < outs.len() ==> outs[i] == queues[0].pending()[i],
{
    if outs.len() > 0 {
        lemma_fifo_order_at(queues, outs, outs.len() as int - 1);
    }
    assert forall|i: int| 0 <= i < outs.len() implies outs[i] == queues[0].pending()[i] by {
        lemma_fifo_order_at(queues, outs, i);
    }
}

#[verifier::rlimit(50)]
proof fn lemma_fifo_order_at(queues: Seq<CommandQueue>, outs: Seq<CommandView>, i: int)
    requires
        queues.len() == outs.len() + 1,
        forall|j: int| 0 <= j < outs.len() ==> recv_rel(#[trigger] queues[j], queues[j + 1], outs[j]),
        0 <= i < outs.len(),
    ensures
        i < queues[0].pending().len(),
        queues[i].pending() == queues[0].pending().skip(i),
        outs[i] == queues[0].pending()[i],
    decreases i,
{
    assert(recv_rel(queues[i], queues[i + 1], outs[i]));
    if i == 0 {
        assert(queues[0].pending() =~= queues[0].pending().skip(0));
    } else {
        lemma_fifo_order_at(queues, outs, i - 1);
        assert(recv_rel(queues[i - 1], queues[i], outs[i - 1]));
        assert(queues[i].pending() =~= queues[0].pending().skip(i)) by {
            assert(queues[i].pending() == queues[i - 1].pending().drop_first());
            assert(queues[i - 1].pending() == queues[0].pending().skip(i - 1));
        }
    }
    assert(outs[i] == queues[i].pending()[0]);
    assert(queues[i].pending()[0] == queues[0].pending()[i]);
}

/// Shutdown is terminal and stops all: after the coordinator applies
/// `Shutdown`, no previously active rendering continues — each of
/// their tokens is among the stops — and once the queue is closed a
/// later submission is no silent no-op success: it fails and the queue
/// is unchanged.
pub proof fn lemma_shutdown_terminal(
    c0: Coordinator,
    c1: Coordinator,
    stops: Seq<u64>,
    q0: CommandQueue,
    q1: CommandQueue,
    cmd: CommandView,
    ok: bool,
)
    requires
        shutdown_rel(c0, c1, stops),
        q0.is_closed(),
        submit_rel(q0, q1, cmd, ok),
    ensures
        c1.renderings() == Map::<Seq<char>, u64>::empty(),
        c1.is_terminated(),
        forall|id: Seq<char>|
            c0.renderings().contains_key(id) ==> stops.contains(#[trigger] c0.renderings()[id]),
        !ok,
        q1.pending() == q0.pending(),
{
}

} // verus!
