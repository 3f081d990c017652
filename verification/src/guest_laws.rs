//! What holds of a load in the guest's memory, where the hypervisor writes what it
//! serves.

use vstd::prelude::*;

use crate::action::Action;
use crate::fw_cfg::FwCfg;
use crate::load_laws::{actions_before, advance, fits, outcome, state_after, Input};
use crate::load_state::{Initrd, LoadState, Phase};
use crate::mem::MemoryRegion;

verus! {

/// A guest while it loads its kernel.
pub struct Guest {
    /// How far the load has come.
    pub state: LoadState,
    /// What each address holds.
    pub memory: spec_fn(int) -> u8,
    /// What was done outside so far.
    pub actions: Seq<Action>,
}

/// What a region of memory holds.
pub open spec fn bytes_at(memory: spec_fn(int) -> u8, region: MemoryRegion) -> Seq<u8> {
    Seq::new(region.length as nat, |i: int| memory(region.base + i))
}

/// Memory with the bytes `b` written from the beginning of a region on.
pub open spec fn with_bytes(
    memory: spec_fn(int) -> u8,
    region: MemoryRegion,
    b: Seq<u8>,
) -> spec_fn(int) -> u8 {
    |a: int|
        if region.base <= a < region.base + b.len() {
            b[a - region.base]
        } else {
            memory(a)
        }
}

/// Memory with what the hypervisor wrote to it.
pub open spec fn with_reply(memory: spec_fn(int) -> u8, reply: Map<int, u8>) -> spec_fn(
    int,
) -> u8 {
    |a: int|
        if reply.dom().contains(a) {
            reply[a]
        } else {
            memory(a)
        }
}

impl Guest {
    /// A guest whose load has not begun.
    pub open spec fn initial(initrd: Initrd, memory: spec_fn(int) -> u8) -> Self {
        Guest {
            state: LoadState::initial(FwCfg::at_start(), initrd),
            memory,
            actions: LoadState::opening(),
        }
    }

    /// What the next step is handed once the hypervisor has replied.
    pub open spec fn input(self, reply: Map<int, u8>) -> Input {
        Input {
            source: bytes_at(with_reply(self.memory, reply), self.state.source_region()),
            target: bytes_at(with_reply(self.memory, reply), self.state.target_region()),
        }
    }

    /// The guest after the hypervisor's reply and the next step.
    pub open spec fn next(self, reply: Map<int, u8>) -> Self {
        let out = advance(self.state, self.input(reply));
        Guest {
            state: out.state,
            memory: with_bytes(
                with_reply(self.memory, reply),
                self.state.target_region(),
                out.target,
            ),
            actions: self.actions + out.actions,
        }
    }

    /// The guest after the first `k` replies and steps.
    pub open spec fn after(self, replies: Seq<Map<int, u8>>, k: nat) -> Self
        decreases k,
    {
        if k == 0 {
            self
        } else {
            self.after(replies, (k - 1) as nat).next(replies[k - 1])
        }
    }

    /// What each step is handed.
    pub open spec fn inputs(self, replies: Seq<Map<int, u8>>) -> Seq<Input> {
        Seq::new(replies.len(), |j: int| self.after(replies, j as nat).input(replies[j]))
    }
}

/// A guest's load is a load whose steps are handed as much memory as they ask for:
/// what holds of every such load holds of it.
pub proof fn law_guest_loads(guest: Guest, replies: Seq<Map<int, u8>>, k: nat)
    requires
        guest.actions == LoadState::opening(),
        k <= replies.len(),
    ensures
        guest.after(replies, k).state == state_after(guest.state, guest.inputs(replies), k),
        guest.after(replies, k).actions == actions_before(
            guest.state,
            guest.inputs(replies),
            k,
        ),
        fits(guest.state, guest.inputs(replies)),
{
    let inputs = guest.inputs(replies);
    assert forall|j: nat| #![trigger state_after(guest.state, inputs, j)]
        j < inputs.len() implies inputs[j as int].source.len() == state_after(
        guest.state,
        inputs,
        j,
    ).source_region().length && inputs[j as int].target.len() == state_after(
        guest.state,
        inputs,
        j,
    ).target_region().length by {
        lemma_after(guest, replies, j);
    }
    lemma_after(guest, replies, k);
}

proof fn lemma_after(guest: Guest, replies: Seq<Map<int, u8>>, k: nat)
    requires
        guest.actions == LoadState::opening(),
        k <= replies.len(),
    ensures
        guest.after(replies, k).state == state_after(guest.state, guest.inputs(replies), k),
        guest.after(replies, k).actions == actions_before(
            guest.state,
            guest.inputs(replies),
            k,
        ),
    decreases k,
{
    if k > 0 {
        let j = (k - 1) as nat;
        lemma_after(guest, replies, j);
        assert(guest.inputs(replies)[j as int] == guest.after(replies, j).input(
            replies[j as int],
        ));
        assert(outcome(guest.state, guest.inputs(replies), j) == advance(
            guest.after(replies, j).state,
            guest.inputs(replies)[j as int],
        ));
    }
}

/// Whether two regions have no address in common.
pub open spec fn apart(a: MemoryRegion, b: MemoryRegion) -> bool {
    ||| a.length == 0
    ||| b.length == 0
    ||| a.base + a.length <= b.base
    ||| b.base + b.length <= a.base
}

/// Whether the next step keeps off a region where it works on memory that is not
/// the firmware's to choose: segments, the initrd, and the code at the entry
/// point.
pub open spec fn keeps_off(s: LoadState, region: MemoryRegion) -> bool {
    match s.phase {
        Phase::SegmentCopy { .. }
        | Phase::SegmentHash { .. }
        | Phase::InitrdHash => apart(s.target_region(), region),
        Phase::InitrdCopy => apart(s.source_region(), region) && apart(s.target_region(), region),
        Phase::Boot => apart(s.source_region(), region),
        _ => true,
    }
}

/// Whether two memories agree outside a region.
pub open spec fn agree_outside(
    a: spec_fn(int) -> u8,
    b: spec_fn(int) -> u8,
    region: MemoryRegion,
) -> bool {
    forall|i: int|
        !(region.base <= i < region.base + region.length) ==> #[trigger] a(i) == #[trigger] b(i)
}

/// The regions that the firmware chooses itself are apart from the reference hash
/// of the kernel: no step reads or changes it, but for one that works on a
/// segment, the initrd or code that lies there.
pub proof fn law_reference_hash_not_used(s: LoadState)
    requires
        s.bounce_buffer == FwCfg::at_start().bounce_buffer,
        s.initrd_hash == FwCfg::at_start().initrd_hash,
        keeps_off(s, FwCfg::at_start().kernel_hash),
    ensures
        apart(s.source_region(), FwCfg::at_start().kernel_hash),
        apart(s.target_region(), FwCfg::at_start().kernel_hash),
{
}

/// The kernel is not verified: its reference hash influences nothing. Two guests
/// whose memories agree outside the reference hash, and to which the hypervisor
/// replies the same, come to the same state, have done the same, and their
/// memories still agree outside the reference hash, unless a segment, the initrd
/// or the code at the entry point lies there.
pub proof fn law_reference_hash_influences_nothing(
    initrd: Initrd,
    a: spec_fn(int) -> u8,
    b: spec_fn(int) -> u8,
    replies: Seq<Map<int, u8>>,
    k: nat,
)
    requires
        agree_outside(a, b, FwCfg::at_start().kernel_hash),
        forall|j: nat|
            j < k ==> keeps_off(
                (#[trigger] Guest::initial(initrd, a).after(replies, j)).state,
                FwCfg::at_start().kernel_hash,
            ),
    ensures
        Guest::initial(initrd, b).after(replies, k).state == Guest::initial(initrd, a).after(
            replies,
            k,
        ).state,
        Guest::initial(initrd, b).after(replies, k).actions == Guest::initial(initrd, a).after(
            replies,
            k,
        ).actions,
        agree_outside(
            Guest::initial(initrd, a).after(replies, k).memory,
            Guest::initial(initrd, b).after(replies, k).memory,
            FwCfg::at_start().kernel_hash,
        ),
    decreases k,
{
    if k > 0 {
        let j = (k - 1) as nat;
        law_reference_hash_influences_nothing(initrd, a, b, replies, j);
        let g = Guest::initial(initrd, a).after(replies, j);
        let h = Guest::initial(initrd, b).after(replies, j);
        let reply = replies[j as int];
        lemma_device_after(initrd, a, replies, j);
        law_reference_hash_not_used(g.state);
        assert(g.input(reply).source =~= h.input(reply).source);
        assert(g.input(reply).target =~= h.input(reply).target);
    }
}

pub(crate) proof fn lemma_device_after(
    initrd: Initrd,
    memory: spec_fn(int) -> u8,
    replies: Seq<Map<int, u8>>,
    k: nat,
)
    ensures
        Guest::initial(initrd, memory).after(replies, k).state.bounce_buffer
            == FwCfg::at_start().bounce_buffer,
        Guest::initial(initrd, memory).after(replies, k).state.initrd_hash
            == FwCfg::at_start().initrd_hash,
        Guest::initial(initrd, memory).after(replies, k).state.initrd == initrd,
    decreases k,
{
    if k > 0 {
        let j = (k - 1) as nat;
        lemma_device_after(initrd, memory, replies, j);
        reveal(advance);
    }
}

} // verus!
