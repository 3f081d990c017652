//! What holds of a whole load, whatever the hypervisor serves.

use vstd::prelude::*;

use crate::action::Action;
use crate::fw_cfg::{
    check_codes, hashes_agree, initrd_codes, Command, FwCfg, FW_CFG_DATA_SIZE,
};
use crate::load_state::{
    loadable, next_loadable, phdr_at, skip_codes, Initrd, LoadState, Outcome, Phase, HASH_END,
    MAX_PHDRS,
};
use crate::loader::{boot_actions, HASH_SIZE_BYTES, ZERO_PAGE_START};
use crate::measure::{sha256, MAX_MESSAGE};
use crate::reloc::lemma_relocated_len;

verus! {

/// What a step is handed: what the memory that it reads holds, and what the
/// memory that it may change holds.
#[verifier::ext_equal]
pub struct Input {
    /// The memory that is read.
    pub source: Seq<u8>,
    /// The memory that may be changed.
    pub target: Seq<u8>,
}

/// What a step from the state `s` comes to.
#[verifier::opaque]
pub open spec fn advance(s: LoadState, input: Input) -> Outcome {
    s.next(input.source, input.target)
}

/// The state after the first `k` steps.
pub open spec fn state_after(s: LoadState, inputs: Seq<Input>, k: nat) -> LoadState
    decreases k,
{
    if k == 0 {
        s
    } else {
        advance(state_after(s, inputs, (k - 1) as nat), inputs[k - 1]).state
    }
}

/// What the step number `k` comes to.
pub open spec fn outcome(s: LoadState, inputs: Seq<Input>, k: nat) -> Outcome {
    advance(state_after(s, inputs, k), inputs[k as int])
}

/// What is done outside before the step number `k`.
pub open spec fn actions_before(s: LoadState, inputs: Seq<Input>, k: nat) -> Seq<Action>
    decreases k,
{
    if k == 0 {
        LoadState::opening()
    } else {
        actions_before(s, inputs, (k - 1) as nat) + outcome(s, inputs, (k - 1) as nat).actions
    }
}

/// Whether each step is handed as much memory as it asks for.
pub open spec fn fits(s: LoadState, inputs: Seq<Input>) -> bool {
    forall|k: nat| #![trigger state_after(s, inputs, k)]
        k < inputs.len() ==> {
            &&& inputs[k as int].source.len() == state_after(s, inputs, k).source_region().length
            &&& inputs[k as int].target.len() == state_after(s, inputs, k).target_region().length
        }
}

/// Whether nobody else changes encrypted memory: a step that is handed the same
/// region as the one before finds in it what that one left.
pub open spec fn undisturbed(s: LoadState, inputs: Seq<Input>) -> bool {
    forall|k: nat| #![trigger outcome(s, inputs, k)]
        k + 1 < inputs.len() && state_after(s, inputs, k).target_region() == state_after(
            s,
            inputs,
            k + 1,
        ).target_region() ==> inputs[k as int + 1].target == outcome(s, inputs, k).target
}

/// The codes of the commands among the actions.
pub open spec fn commands(actions: Seq<Action>) -> Seq<u8>
    decreases actions.len(),
{
    if actions.len() == 0 {
        Seq::empty()
    } else {
        let rest = commands(actions.drop_last());
        match actions.last() {
            Action::Command(c) => rest.push(c),
            _ => rest,
        }
    }
}

/// A sequence of `n` times the same command.
pub open spec fn times(cmd: Command, n: nat) -> Seq<u8> {
    Seq::new(n, |i: int| cmd.code())
}

/// The number of blocks in which the segment of the program header number `i`
/// is served.
pub open spec fn blocks(phdrs: Seq<u8>, i: int) -> nat {
    let p = phdr_at(phdrs, i);
    if loadable(p) {
        ((p.p_filesz + FW_CFG_DATA_SIZE - 1) / FW_CFG_DATA_SIZE as int) as nat
    } else {
        0
    }
}

/// The number of blocks in which the segments before the program header number
/// `i` are served.
pub open spec fn blocks_before(phdrs: Seq<u8>, i: nat) -> nat
    decreases i,
{
    if i == 0 {
        0
    } else {
        blocks_before(phdrs, (i - 1) as nat) + blocks(phdrs, i - 1)
    }
}

impl LoadState {
    /// The commands for the headers.
    pub open spec fn header_commands(self) -> Seq<u8> {
        seq![Command::ElfHdr.code()] + times(Command::PhdrData, self.phnum())
    }

    /// The commands for the whole kernel: one for the ELF header, one for each
    /// program header, one for each block of each segment, and one for the
    /// relocations if the kernel is relocatable.
    pub open spec fn kernel_commands(self) -> Seq<u8> {
        self.header_commands() + times(
            Command::SegData,
            blocks_before(self.phdrs, self.phnum()),
        ) + (if self.relocatable() {
            seq![Command::ElfRela.code()]
        } else {
            Seq::empty()
        })
    }

    /// The commands that were given so far in a load that has not halted.
    pub open spec fn sent(self) -> Seq<u8> {
        let got = self.phdrs.len() / 56;
        match self.phase {
            Phase::HeaderCopy | Phase::HeaderHash => seq![Command::ElfHdr.code()],
            Phase::PhdrCopy => seq![Command::ElfHdr.code()] + times(Command::PhdrData, got + 1),
            Phase::PhdrHash => seq![Command::ElfHdr.code()] + times(Command::PhdrData, got),
            Phase::SegmentCopy { index, offset } | Phase::SegmentHash {
                index,
                offset,
            } => self.header_commands() + times(
                Command::SegData,
                blocks_before(self.phdrs, index as nat) + (offset / FW_CFG_DATA_SIZE) as nat + 1,
            ),
            _ => self.kernel_commands(),
        }
    }
}

proof fn lemma_commands_add(a: Seq<Action>, b: Seq<Action>)
    ensures
        commands(a + b) == commands(a) + commands(b),
    decreases b.len(),
{
    if b.len() == 0 {
        assert(a + b =~= a);
    } else {
        assert((a + b).drop_last() =~= a + b.drop_last());
        lemma_commands_add(a, b.drop_last());
        match b.last() {
            Action::Command(c) => {
                assert(commands(a + b) =~= commands(a) + commands(b));
            },
            _ => {},
        }
    }
}

/// Actions without a command among them have no codes.
proof fn lemma_no_commands(a: Seq<Action>)
    requires
        forall|i: int| 0 <= i < a.len() ==> !(a[i] is Command),
    ensures
        commands(a) == Seq::<u8>::empty(),
    decreases a.len(),
{
    if a.len() > 0 {
        lemma_no_commands(a.drop_last());
    }
}

/// One command somewhere among other actions.
proof fn lemma_one_command(a: Seq<Action>, k: int, c: u8)
    requires
        0 <= k < a.len(),
        a[k] == Action::Command(c),
        forall|i: int| 0 <= i < a.len() && i != k ==> !(a[i] is Command),
    ensures
        commands(a) == seq![c],
    decreases a.len(),
{
    if k == a.len() - 1 {
        lemma_no_commands(a.drop_last());
    } else {
        lemma_one_command(a.drop_last(), k, c);
    }
}

proof fn lemma_skip_codes(phdrs: Seq<u8>, i: nat, j: nat)
    ensures
        forall|k: int| 0 <= k < skip_codes(phdrs, i, j).len() ==> (#[trigger] skip_codes(
            phdrs,
            i,
            j,
        )[k]) is DebugWrite,
    decreases j - i,
{
    if i < j {
        lemma_skip_codes(phdrs, i + 1, j);
    }
}

proof fn lemma_skipped_blocks(phdrs: Seq<u8>, n: nat, i: nat)
    requires
        i <= n,
    ensures
        i <= next_loadable(phdrs, n, i) <= n,
        next_loadable(phdrs, n, i) < n ==> loadable(
            phdr_at(phdrs, next_loadable(phdrs, n, i) as int),
        ),
        blocks_before(phdrs, next_loadable(phdrs, n, i)) == blocks_before(phdrs, i),
    decreases n - i,
{
    if i < n && !loadable(phdr_at(phdrs, i as int)) {
        lemma_skipped_blocks(phdrs, n, i + 1);
        assert(blocks_before(phdrs, i + 1) == blocks_before(phdrs, i) + blocks(phdrs, i as int));
    }
}

/// Going through the program headers keeps the states valid, and gives the
/// commands that it should.
proof fn lemma_segments_from(s: LoadState, i: nat)
    requires
        s.phdrs_ok(),
        i <= s.phnum(),
        s.bounce_buffer.length == FW_CFG_DATA_SIZE,
        s.initrd_hash.length == HASH_SIZE_BYTES,
        s.message.len() <= MAX_MESSAGE,
    ensures
        s.segments_from(i).0.valid(),
        s.segments_from(i).0 == s.at(s.segments_from(i).0.phase),
        !(s.segments_from(i).0.phase is Halted) ==> s.segments_from(i).0.sent()
            == s.header_commands() + times(Command::SegData, blocks_before(s.phdrs, i)) + commands(
            s.segments_from(i).1,
        ),
        s.segments_from(i).0.phase is Halted ==> commands(s.segments_from(i).1) == Seq::<
            u8,
        >::empty(),
{
    let n = s.phnum();
    let j = next_loadable(s.phdrs, n, i);
    let skipped = skip_codes(s.phdrs, i, j);
    lemma_skipped_blocks(s.phdrs, n, i);
    lemma_skip_codes(s.phdrs, i, j);
    let (t, actions) = s.segments_from(i);
    let b = blocks_before(s.phdrs, i);
    let sent = s.header_commands() + times(Command::SegData, b);
    if !(t.phase is Halted) {
        if j < n {
            lemma_one_command(actions, skipped.len() as int + 1, Command::SegData.code());
            assert(t.sent() =~= sent + commands(actions));
        } else if s.relocatable() {
            lemma_one_command(actions, skipped.len() as int, Command::ElfRela.code());
            assert(t.sent() =~= sent + commands(actions));
        } else {
            lemma_no_commands(actions);
            assert(t.sent() =~= sent + commands(actions));
        }
    } else {
        lemma_no_commands(actions);
    }
}

proof fn lemma_headers_on(s: LoadState)
    requires
        s.header_ok(),
        s.phdrs.len() as int % 56 == 0,
        s.phdrs.len() <= 56 * s.phnum(),
        s.message.len() == 64 + s.phdrs.len(),
        s.bounce_buffer.length == FW_CFG_DATA_SIZE,
        s.initrd_hash.length == HASH_SIZE_BYTES,
    ensures
        s.headers_on().0.valid(),
        s.headers_on().0 == s.at(s.headers_on().0.phase),
        !(s.headers_on().0.phase is Halted) ==> s.headers_on().0.sent() == seq![
            Command::ElfHdr.code(),
        ] + times(Command::PhdrData, s.phdrs.len() / 56) + commands(s.headers_on().1),
        s.headers_on().0.phase is Halted ==> commands(s.headers_on().1) == Seq::<u8>::empty(),
{
    let (t, actions) = s.headers_on();
    let sent = seq![Command::ElfHdr.code()] + times(Command::PhdrData, s.phdrs.len() / 56);
    if s.phdrs.len() < 56 * s.phnum() {
        lemma_one_command(actions, 0, Command::PhdrData.code());
        assert(t.sent() =~= sent + commands(actions));
    } else {
        lemma_segments_from(s, 0);
        let tail = s.segments_from(0).1;
        let front = seq![
            Action::DebugWrite(0xf4),
            Action::DebugWrite(s.phnum() as u8),
            Action::DebugWrite(0xf4),
        ];
        lemma_no_commands(front);
        lemma_commands_add(front, tail);
        assert(commands(actions) =~= commands(tail));
        if !(t.phase is Halted) {
            assert(s.header_commands() + times(Command::SegData, 0) =~= sent);
        }
    }
}

/// A step keeps the state valid, and gives the commands that it should.
pub proof fn law_step(s: LoadState, source: Seq<u8>, target: Seq<u8>)
    requires
        s.valid(),
        source.len() == s.source_region().length,
        target.len() == s.target_region().length,
    ensures
        s.next(source, target).state.valid(),
        s.next(source, target).target.len() == target.len(),
        s.phase is Halted ==> s.next(source, target).state.phase is Halted,
        !(s.next(source, target).state.phase is Halted) ==> s.next(source, target).state.sent()
            == s.sent() + commands(s.next(source, target).actions),
        s.next(source, target).state.phase is Halted ==> commands(s.next(source, target).actions)
            == Seq::<u8>::empty(),
{
    let out = s.next(source, target);
    let t = out.state;
    match s.phase {
        Phase::HeaderCopy | Phase::PhdrCopy => {
            lemma_no_commands(out.actions);
            assert(t.sent() =~= s.sent() + commands(out.actions));
        },
        Phase::HeaderHash => {
            let u = LoadState { message: s.message + s.header, ..s };
            if u.phnum() <= MAX_PHDRS {
                lemma_headers_on(u);
                let front = out.actions.subrange(0, 5);
                let tail = u.headers_on().1;
                assert(out.actions =~= front + tail);
                lemma_no_commands(front);
                lemma_commands_add(front, tail);
                assert(commands(out.actions) =~= commands(tail));
                assert(s.sent() + times(Command::PhdrData, 0) =~= s.sent());
            } else {
                lemma_no_commands(out.actions);
            }
        },
        Phase::PhdrHash => {
            let m = s.phdrs.len() as int;
            let u = LoadState { message: s.message + s.phdrs.subrange(m - 56, m), ..s };
            lemma_headers_on(u);
            let front = seq![Action::DebugWrite(HASH_END)];
            lemma_no_commands(front);
            lemma_commands_add(front, u.headers_on().1);
            assert(commands(out.actions) =~= commands(u.headers_on().1));
        },
        Phase::SegmentCopy { index, offset } => {
            lemma_no_commands(out.actions);
            if !(t.phase is Halted) {
                assert(t.sent() =~= s.sent() + commands(out.actions));
            }
        },
        Phase::SegmentHash { index, offset } => {
            lemma_segment_hashed(s, index, offset, target);
        },
        Phase::Relocate => {
            lemma_relocated_len(target, source);
            lemma_no_commands(out.actions);
            if !(t.phase is Halted) {
                assert(t.sent() =~= s.sent() + commands(out.actions));
            }
        },
        Phase::KernelHash
        | Phase::Ramdisk
        | Phase::SetupData
        | Phase::InitrdCopy
        | Phase::InitrdHash
        | Phase::Boot => {
            lemma_no_commands(out.actions);
            if !(t.phase is Halted) {
                assert(t.sent() =~= s.sent() + commands(out.actions));
            }
        },
        _ => {
            assert(t.sent() =~= s.sent() + commands(out.actions));
        },
    }
}

proof fn lemma_segment_hashed(s: LoadState, index: usize, offset: u64, segment: Seq<u8>)
    requires
        s.valid(),
        s.phase == (Phase::SegmentHash { index, offset }),
        segment.len() == s.target_region().length,
    ensures
        s.segment_hashed(index, offset, segment).state.valid(),
        s.segment_hashed(index, offset, segment).target.len() == segment.len(),
        !(s.segment_hashed(index, offset, segment).state.phase is Halted) ==> s.segment_hashed(
            index,
            offset,
            segment,
        ).state.sent() == s.sent() + commands(s.segment_hashed(index, offset, segment).actions),
        s.segment_hashed(index, offset, segment).state.phase is Halted ==> commands(
            s.segment_hashed(index, offset, segment).actions,
        ) == Seq::<u8>::empty(),
{
    let out = s.segment_hashed(index, offset, segment);
    let t = out.state;
    let p = s.phdr(index as int);
    let n = s.block_len(index as int, offset);
    if s.message.len() + n <= MAX_MESSAGE {
        let u = LoadState {
            message: s.message + segment.subrange(offset as int, offset + n),
            ..s
        };
        if offset + n < p.p_filesz {
            lemma_one_command(out.actions, 1, Command::SegData.code());
            assert(t.sent() =~= s.sent() + commands(out.actions));
        } else {
            let end = u.segment_start(index as int) + p.p_memsz;
            let w = if end > u.max_addr {
                LoadState { max_addr: end as u64, ..u }
            } else {
                u
            };
            if end <= u64::MAX {
                lemma_segments_from(w, (index + 1) as nat);
                let front = seq![Action::DebugWrite(HASH_END)];
                let tail = w.segments_from((index + 1) as nat).1;
                lemma_no_commands(front);
                lemma_commands_add(front, tail);
                assert(commands(out.actions) =~= commands(tail));
                assert(blocks(s.phdrs, index as int) == (offset / FW_CFG_DATA_SIZE) as nat + 1);
                assert(blocks_before(s.phdrs, (index + 1) as nat) == blocks_before(
                    s.phdrs,
                    index as nat,
                ) + blocks(s.phdrs, index as int));
                assert(t.phase is Halted || t.sent() =~= s.sent() + commands(out.actions));
            } else {
                lemma_no_commands(out.actions);
            }
        }
    } else {
        lemma_no_commands(out.actions);
    }
}

/// The step number `k` of a load from a valid state.
proof fn lemma_step(s: LoadState, inputs: Seq<Input>, k: nat)
    requires
        fits(s, inputs),
        k < inputs.len(),
        state_after(s, inputs, k).valid(),
    ensures
        outcome(s, inputs, k).state.valid(),
        outcome(s, inputs, k).target.len() == inputs[k as int].target.len(),
        state_after(s, inputs, k).phase is Halted ==> outcome(s, inputs, k).state.phase is Halted,
        !(outcome(s, inputs, k).state.phase is Halted) ==> outcome(s, inputs, k).state.sent()
            == state_after(s, inputs, k).sent() + commands(outcome(s, inputs, k).actions),
        outcome(s, inputs, k).state.phase is Halted ==> commands(outcome(s, inputs, k).actions)
            == Seq::<u8>::empty(),
{
    reveal(advance);
    law_step(state_after(s, inputs, k), inputs[k as int].source, inputs[k as int].target);
}

proof fn lemma_commands(s: LoadState, inputs: Seq<Input>, k: nat)
    requires
        s.valid(),
        s.phase == Phase::HeaderCopy,
        s.sent() == commands(LoadState::opening()),
        fits(s, inputs),
        k <= inputs.len(),
    ensures
        state_after(s, inputs, k).valid(),
        !(state_after(s, inputs, k).phase is Halted) ==> commands(actions_before(s, inputs, k))
            == state_after(s, inputs, k).sent(),
        state_after(s, inputs, k).phase is Halted ==> exists|j: nat|
            j < k && #[trigger] halts_at(s, inputs, j) && commands(actions_before(s, inputs, k))
                == state_after(s, inputs, j).sent(),
    decreases k,
{
    if k > 0 {
        let j = (k - 1) as nat;
        lemma_commands(s, inputs, j);
        lemma_step(s, inputs, j);
        lemma_commands_add(actions_before(s, inputs, j), outcome(s, inputs, j).actions);
        if state_after(s, inputs, k).phase is Halted {
            assert(commands(actions_before(s, inputs, k)) =~= commands(
                actions_before(s, inputs, j),
            ));
            if !(state_after(s, inputs, j).phase is Halted) {
                assert(halts_at(s, inputs, j));
            }
        }
    }
}

/// Whether the step number `j` is the one that halts the load.
pub open spec fn halts_at(s: LoadState, inputs: Seq<Input>, j: nat) -> bool {
    &&& !(state_after(s, inputs, j).phase is Halted)
    &&& outcome(s, inputs, j).state.phase is Halted
}

/// In every load that has not halted, the hypervisor was asked for the ELF
/// header, then for each program header once, then for each block of each
/// loadable segment once, then, if the kernel is relocatable, for the
/// relocations, and for nothing else. In a load that has halted, it was asked for
/// what it had been asked for before the step that halted the load.
pub proof fn law_commands(fw_cfg: FwCfg, initrd: Initrd, inputs: Seq<Input>, k: nat)
    requires
        fw_cfg.wf(),
        fits(LoadState::initial(fw_cfg, initrd), inputs),
        k <= inputs.len(),
    ensures
        state_after(LoadState::initial(fw_cfg, initrd), inputs, k).valid(),
        !(state_after(LoadState::initial(fw_cfg, initrd), inputs, k).phase is Halted) ==> commands(
            actions_before(LoadState::initial(fw_cfg, initrd), inputs, k),
        ) == state_after(LoadState::initial(fw_cfg, initrd), inputs, k).sent(),
        state_after(LoadState::initial(fw_cfg, initrd), inputs, k).phase is Halted ==> exists|
            j: nat,
        |
            j < k && #[trigger] halts_at(LoadState::initial(fw_cfg, initrd), inputs, j)
                && commands(actions_before(LoadState::initial(fw_cfg, initrd), inputs, k))
                == state_after(LoadState::initial(fw_cfg, initrd), inputs, j).sent(),
{
    lemma_one_command(LoadState::opening(), 0, Command::ElfHdr.code());
    lemma_commands(LoadState::initial(fw_cfg, initrd), inputs, k);
}

impl LoadState {
    /// What a step takes from the hypervisor.
    pub open spec fn taken(self, source: Seq<u8>, target: Seq<u8>) -> Seq<u8> {
        match self.phase {
            Phase::HeaderCopy => source.subrange(0, 64),
            Phase::PhdrCopy => source.subrange(0, 56),
            Phase::SegmentCopy { index, offset } => if offset + self.block_len(
                index as int,
                offset,
            ) > target.len() {
                Seq::empty()
            } else {
                source.subrange(0, self.block_len(index as int, offset))
            },
            _ => Seq::empty(),
        }
    }

    /// What was taken from the hypervisor and is not hashed yet, when the
    /// memory that the next step may change holds `target`.
    pub open spec fn pending(self, target: Seq<u8>) -> Seq<u8> {
        match self.phase {
            Phase::HeaderHash => self.header,
            Phase::PhdrHash => self.phdrs.subrange(
                self.phdrs.len() - 56,
                self.phdrs.len() as int,
            ),
            Phase::SegmentHash { index, offset } => target.subrange(
                offset as int,
                offset + self.block_len(index as int, offset),
            ),
            _ => Seq::empty(),
        }
    }

    /// Whether the hash of the kernel is complete, in a load that has not halted.
    pub open spec fn hash_complete(self) -> bool {
        match self.phase {
            Phase::Ramdisk
            | Phase::SetupData
            | Phase::InitrdCopy
            | Phase::InitrdHash
            | Phase::Boot
            | Phase::Done
            | Phase::Rejected => true,
            _ => false,
        }
    }

    /// Whether the part of a segment that is loaded is what was hashed last.
    pub open spec fn loaded_is_hashed(self, target: Seq<u8>) -> bool {
        match self.phase {
            Phase::SegmentCopy { index, offset } | Phase::SegmentHash { index, offset } => {
                &&& offset <= target.len()
                &&& offset <= self.message.len()
                &&& target.subrange(0, offset as int) == last_bytes(self.message, offset as int)
            },
            _ => true,
        }
    }
}

/// The last `n` bytes of a sequence.
pub open spec fn last_bytes(s: Seq<u8>, n: int) -> Seq<u8> {
    s.subrange(s.len() - n, s.len() as int)
}

/// What the first `k` steps took from the hypervisor.
pub open spec fn served(s: LoadState, inputs: Seq<Input>, k: nat) -> Seq<u8>
    decreases k,
{
    if k == 0 {
        Seq::empty()
    } else {
        let j = (k - 1) as nat;
        served(s, inputs, j) + state_after(s, inputs, j).taken(
            inputs[j as int].source,
            inputs[j as int].target,
        )
    }
}

/// What the memory that the step number `k` may change holds before it.
pub open spec fn held(s: LoadState, inputs: Seq<Input>, k: nat) -> Seq<u8> {
    if k == 0 {
        Seq::empty()
    } else {
        outcome(s, inputs, (k - 1) as nat).target
    }
}

/// A step within a segment, or within the copying and hashing of a block, leaves
/// the region that it was handed to the next.
proof fn lemma_same_region(s: LoadState, source: Seq<u8>, target: Seq<u8>)
    requires
        s.valid(),
        source.len() == s.source_region().length,
        target.len() == s.target_region().length,
    ensures
        match s.next(source, target).state.phase {
            Phase::SegmentHash { index, offset } => {
                &&& s.phase == (Phase::SegmentCopy { index, offset })
                &&& s.next(source, target).state.target_region() == s.target_region()
            },
            Phase::SegmentCopy { index, offset } => offset > 0 ==> {
                &&& s.phase is SegmentHash
                &&& s.next(source, target).state.target_region() == s.target_region()
            },
            Phase::InitrdHash => s.phase == Phase::InitrdCopy && s.next(
                source,
                target,
            ).state.target_region() == s.target_region(),
            _ => true,
        },
{
    match s.phase {
        Phase::HeaderHash => {
            let u = LoadState { message: s.message + s.header, ..s };
            if u.phnum() <= MAX_PHDRS {
                lemma_headers_on(u);
            }
        },
        _ => {},
    }
}

/// How one step changes what was hashed: what it takes becomes pending, and what
/// was pending is hashed.
proof fn lemma_step_message(s: LoadState, source: Seq<u8>, target: Seq<u8>)
    requires
        s.valid(),
        source.len() == s.source_region().length,
        target.len() == s.target_region().length,
        !(s.next(source, target).state.phase is Halted),
        s.loaded_is_hashed(target),
    ensures
        s.next(source, target).state.message + s.next(source, target).state.pending(
            s.next(source, target).target,
        ) =~= s.message + s.pending(target) + s.taken(source, target),
        s.next(source, target).state.phase is SegmentHash ==> s.next(
            source,
            target,
        ).state.loaded_is_hashed(s.next(source, target).target),
        s.phase is SegmentHash && s.next(source, target).state.phase is SegmentCopy && s.next(
            source,
            target,
        ).state.phase->SegmentCopy_offset > 0 ==> s.next(source, target).state.loaded_is_hashed(
            s.next(source, target).target,
        ),
{
    let out = s.next(source, target);
    let t = out.state;
    match s.phase {
        Phase::HeaderHash => {
            let u = LoadState { message: s.message + s.header, ..s };
            lemma_headers_on(u);
        },
        Phase::PhdrHash => {
            let m = s.phdrs.len() as int;
            let u = LoadState { message: s.message + s.phdrs.subrange(m - 56, m), ..s };
            lemma_headers_on(u);
        },
        Phase::SegmentCopy { index, offset } => {
            assert(t.pending(out.target) =~= s.taken(source, target));
            assert(out.target.subrange(0, offset as int) =~= target.subrange(0, offset as int));
        },
        Phase::SegmentHash { index, offset } => {
            let n = s.block_len(index as int, offset);
            let u = LoadState {
                message: s.message + target.subrange(offset as int, offset + n),
                ..s
            };
            if offset + n < s.phdr(index as int).p_filesz {
                assert(out.target.subrange(0, offset + n) =~= last_bytes(u.message, offset + n));
            } else {
                let end = u.segment_start(index as int) + s.phdr(index as int).p_memsz;
                let w = if end > u.max_addr {
                    LoadState { max_addr: end as u64, ..u }
                } else {
                    u
                };
                lemma_segments_from(w, (index + 1) as nat);
            }
        },
        _ => {},
    }
}

impl LoadState {
    /// Whether the next step goes on with memory that the last step left.
    pub open spec fn goes_on(self) -> bool {
        match self.phase {
            Phase::SegmentHash { .. } | Phase::InitrdHash => true,
            Phase::SegmentCopy { index, offset } => offset > 0,
            _ => false,
        }
    }
}

/// A step that goes on with memory finds what the step before left there.
proof fn lemma_handed(s: LoadState, inputs: Seq<Input>, k: nat)
    requires
        s.phase == Phase::HeaderCopy,
        fits(s, inputs),
        undisturbed(s, inputs),
        k < inputs.len(),
        k > 0 ==> state_after(s, inputs, (k - 1) as nat).valid(),
        state_after(s, inputs, k).goes_on(),
    ensures
        k > 0,
        inputs[k as int].target == held(s, inputs, k),
{
    let j = (k - 1) as nat;
    let t = state_after(s, inputs, j);
    reveal(advance);
    lemma_same_region(t, inputs[j as int].source, inputs[j as int].target);
    assert(t.target_region() == state_after(s, inputs, j + 1).target_region());
}

/// The step number `k`, as far as what is hashed is concerned.
proof fn lemma_step_hashed(s: LoadState, inputs: Seq<Input>, k: nat)
    requires
        fits(s, inputs),
        k < inputs.len(),
        state_after(s, inputs, k).valid(),
        !(outcome(s, inputs, k).state.phase is Halted),
        state_after(s, inputs, k).loaded_is_hashed(inputs[k as int].target),
    ensures
        outcome(s, inputs, k).state.message + outcome(s, inputs, k).state.pending(
            outcome(s, inputs, k).target,
        ) == state_after(s, inputs, k).message + state_after(s, inputs, k).pending(
            inputs[k as int].target,
        ) + state_after(s, inputs, k).taken(inputs[k as int].source, inputs[k as int].target),
        outcome(s, inputs, k).state.goes_on() ==> outcome(s, inputs, k).state.loaded_is_hashed(
            outcome(s, inputs, k).target,
        ),
{
    reveal(advance);
    let t = state_after(s, inputs, k);
    lemma_step_message(t, inputs[k as int].source, inputs[k as int].target);
    lemma_same_region(t, inputs[k as int].source, inputs[k as int].target);
}

proof fn lemma_hashed(s: LoadState, inputs: Seq<Input>, k: nat)
    requires
        s.valid(),
        s.phase == Phase::HeaderCopy,
        fits(s, inputs),
        undisturbed(s, inputs),
        k <= inputs.len(),
        !(state_after(s, inputs, k).phase is Halted),
    ensures
        state_after(s, inputs, k).valid(),
        served(s, inputs, k) == state_after(s, inputs, k).message + state_after(
            s,
            inputs,
            k,
        ).pending(held(s, inputs, k)),
        state_after(s, inputs, k).goes_on() ==> state_after(s, inputs, k).loaded_is_hashed(
            held(s, inputs, k),
        ),
    decreases k,
{
    if k == 0 {
        assert(s.message + s.pending(held(s, inputs, 0)) =~= Seq::empty());
    } else {
        let j = (k - 1) as nat;
        let t = state_after(s, inputs, j);
        lemma_valid(s, inputs, j);
        lemma_step(s, inputs, j);
        lemma_hashed(s, inputs, j);
        if j > 0 {
            lemma_valid(s, inputs, (j - 1) as nat);
        }
        if t.goes_on() {
            lemma_handed(s, inputs, j);
        } else {
            lemma_fresh(t, inputs[j as int].target, held(s, inputs, j));
        }
        lemma_step_hashed(s, inputs, j);
    }
}

/// A step that does not go on with memory needs nothing of what it holds.
proof fn lemma_fresh(t: LoadState, target: Seq<u8>, other: Seq<u8>)
    requires
        !t.goes_on(),
    ensures
        t.loaded_is_hashed(target),
        t.pending(target) == t.pending(other),
{
    match t.phase {
        Phase::SegmentCopy { index, offset } => {
            assert(target.subrange(0, 0) =~= last_bytes(t.message, 0));
        },
        _ => {},
    }
}

proof fn lemma_valid(s: LoadState, inputs: Seq<Input>, k: nat)
    requires
        s.valid(),
        fits(s, inputs),
        k <= inputs.len(),
    ensures
        state_after(s, inputs, k).valid(),
    decreases k,
{
    if k > 0 {
        lemma_valid(s, inputs, (k - 1) as nat);
        lemma_step(s, inputs, (k - 1) as nat);
    }
}

/// What is measured is what was served: once the hash of the kernel is complete,
/// it is the hash of all that was taken from the hypervisor, in the order in
/// which it was taken.
pub proof fn law_measured_is_served(fw_cfg: FwCfg, initrd: Initrd, inputs: Seq<Input>, k: nat)
    requires
        fw_cfg.wf(),
        fits(LoadState::initial(fw_cfg, initrd), inputs),
        undisturbed(LoadState::initial(fw_cfg, initrd), inputs),
        k <= inputs.len(),
        !(state_after(LoadState::initial(fw_cfg, initrd), inputs, k).phase is Halted),
    ensures
        ({
            let s = LoadState::initial(fw_cfg, initrd);
            let t = state_after(s, inputs, k);
            &&& served(s, inputs, k) == t.message + t.pending(held(s, inputs, k))
            &&& t.hash_complete() ==> t.digest == Some(sha256(served(s, inputs, k)))
        }),
{
    let s = LoadState::initial(fw_cfg, initrd);
    let t = state_after(s, inputs, k);
    lemma_hashed(s, inputs, k);
    if t.hash_complete() {
        assert(t.message + t.pending(held(s, inputs, k)) =~= t.message);
    }
}

/// What is loaded is what is measured: when the last block of a segment is
/// hashed, the segment in memory is the part of the message that was hashed for
/// it, and behind it zeros.
pub proof fn law_loaded_is_measured(
    fw_cfg: FwCfg,
    initrd: Initrd,
    inputs: Seq<Input>,
    k: nat,
    index: usize,
    offset: u64,
)
    requires
        fw_cfg.wf(),
        fits(LoadState::initial(fw_cfg, initrd), inputs),
        undisturbed(LoadState::initial(fw_cfg, initrd), inputs),
        k < inputs.len(),
        state_after(LoadState::initial(fw_cfg, initrd), inputs, k).phase == (Phase::SegmentHash {
            index,
            offset,
        }),
        ({
            let t = state_after(LoadState::initial(fw_cfg, initrd), inputs, k);
            offset + t.block_len(index as int, offset) == t.phdr(index as int).p_filesz
        }),
        !(outcome(LoadState::initial(fw_cfg, initrd), inputs, k).state.phase is Halted),
    ensures
        ({
            let t = state_after(LoadState::initial(fw_cfg, initrd), inputs, k);
            let p = t.phdr(index as int);
            let out = outcome(LoadState::initial(fw_cfg, initrd), inputs, k);
            &&& p.p_filesz <= p.p_memsz
            &&& p.p_filesz <= out.state.message.len()
            &&& out.target == last_bytes(out.state.message, p.p_filesz as int) + Seq::new(
                (p.p_memsz - p.p_filesz) as nat,
                |i: int| 0u8,
            )
        }),
{
    let s = LoadState::initial(fw_cfg, initrd);
    let t = state_after(s, inputs, k);
    lemma_hashed(s, inputs, k);
    if k > 0 {
        lemma_valid(s, inputs, (k - 1) as nat);
    }
    lemma_handed(s, inputs, k);
    reveal(advance);
    lemma_segment_complete(t, index, offset, inputs[k as int].target);
}

proof fn lemma_segment_complete(t: LoadState, index: usize, offset: u64, segment: Seq<u8>)
    requires
        t.valid(),
        t.phase == (Phase::SegmentHash { index, offset }),
        segment.len() == t.phdr(index as int).p_memsz,
        offset + t.block_len(index as int, offset) == t.phdr(index as int).p_filesz,
        t.loaded_is_hashed(segment),
        !(t.segment_hashed(index, offset, segment).state.phase is Halted),
    ensures
        ({
            let p = t.phdr(index as int);
            let out = t.segment_hashed(index, offset, segment);
            &&& p.p_filesz <= p.p_memsz
            &&& p.p_filesz <= out.state.message.len()
            &&& out.target == last_bytes(out.state.message, p.p_filesz as int) + Seq::new(
                (p.p_memsz - p.p_filesz) as nat,
                |i: int| 0u8,
            )
        }),
{
    let p = t.phdr(index as int);
    let out = t.segment_hashed(index, offset, segment);
    let n = t.block_len(index as int, offset);
    let u = LoadState { message: t.message + segment.subrange(offset as int, offset + n), ..t };
    let end = u.segment_start(index as int) + p.p_memsz;
    let w = if end > u.max_addr {
        LoadState { max_addr: end as u64, ..u }
    } else {
        u
    };
    lemma_segments_from(w, (index + 1) as nat);
    assert(out.state.message == u.message);
    assert(last_bytes(u.message, p.p_filesz as int) =~= segment.subrange(0, p.p_filesz as int));
}

/// Whether an action changes the guest's memory for good or leaves the firmware.
pub open spec fn commits(a: Action) -> bool {
    a is PageStateChange || a is SetupPaging || a is Jump
}

impl LoadState {
    /// Whether all is loaded and accepted.
    pub open spec fn accepted(self) -> bool {
        self.phase == Phase::Boot || self.phase == Phase::Done
    }
}

/// What one step has to do with the start of the kernel.
proof fn lemma_step_start(s: LoadState, source: Seq<u8>, target: Seq<u8>)
    requires
        s.valid(),
        source.len() == s.source_region().length,
        target.len() == s.target_region().length,
    ensures
        ({
            let out = s.next(source, target);
            let t = out.state;
            &&& t.initrd == s.initrd
            &&& s.accepted() ==> t.phase == Phase::Done && t.entry_point == s.entry_point
            &&& t.accepted() && !s.accepted() ==> {
                ||| s.phase == Phase::SetupData && s.initrd.len == 0
                ||| s.phase == Phase::InitrdHash && hashes_agree(sha256(target), source)
            }
            &&& forall|i: int| 0 <= i < out.actions.len() && commits(#[trigger] out.actions[i])
                ==> t.accepted()
            &&& forall|i: int|
                0 <= i < out.actions.len() && (#[trigger] out.actions[i]) is Jump ==> {
                    &&& t.phase == Phase::Done
                    &&& out.actions[i] == Action::Jump {
                        entry_point: t.entry_point,
                        first: 0,
                        second: ZERO_PAGE_START,
                    }
                }
        }),
{
    let out = s.next(source, target);
    match s.phase {
        Phase::HeaderHash => {
            let u = LoadState { message: s.message + s.header, ..s };
            if u.phnum() <= MAX_PHDRS {
                lemma_headers_on(u);
                lemma_quiet_headers(u);
            }
        },
        Phase::PhdrHash => {
            let m = s.phdrs.len() as int;
            let u = LoadState { message: s.message + s.phdrs.subrange(m - 56, m), ..s };
            lemma_headers_on(u);
            lemma_quiet_headers(u);
        },
        Phase::SegmentHash { index, offset } => {
            let n = s.block_len(index as int, offset);
            let u = LoadState {
                message: s.message + target.subrange(offset as int, offset + n),
                ..s
            };
            let end = u.segment_start(index as int) + s.phdr(index as int).p_memsz;
            let w = if end > u.max_addr {
                LoadState { max_addr: end as u64, ..u }
            } else {
                u
            };
            if s.message.len() + n <= MAX_MESSAGE && end <= u64::MAX {
                lemma_segments_from(w, (index + 1) as nat);
                lemma_quiet_segments(w, (index + 1) as nat);
            }
        },
        _ => {},
    }
}

proof fn lemma_quiet_segments(s: LoadState, i: nat)
    ensures
        forall|k: int| 0 <= k < s.segments_from(i).1.len() ==> !commits(
            #[trigger] s.segments_from(i).1[k],
        ),
        !s.segments_from(i).0.accepted(),
        !(s.segments_from(i).0.phase is InitrdHash),
{
    lemma_skip_codes(s.phdrs, i, next_loadable(s.phdrs, s.phnum(), i));
}

proof fn lemma_quiet_headers(s: LoadState)
    ensures
        forall|k: int| 0 <= k < s.headers_on().1.len() ==> !commits(
            #[trigger] s.headers_on().1[k],
        ),
        !s.headers_on().0.accepted(),
{
    lemma_quiet_segments(s, 0);
}

/// The step number `k`, as far as the start of the kernel is concerned.
proof fn lemma_start(s: LoadState, inputs: Seq<Input>, k: nat)
    requires
        fits(s, inputs),
        k < inputs.len(),
        state_after(s, inputs, k).valid(),
    ensures
        ({
            let t = state_after(s, inputs, k);
            let out = outcome(s, inputs, k);
            &&& out.state.initrd == t.initrd
            &&& t.accepted() ==> out.state.phase == Phase::Done && out.state.entry_point
                == t.entry_point
            &&& out.state.accepted() && !t.accepted() ==> {
                ||| t.phase == Phase::SetupData && t.initrd.len == 0
                ||| t.phase == Phase::InitrdHash && hashes_agree(
                    sha256(inputs[k as int].target),
                    inputs[k as int].source,
                )
            }
            &&& forall|i: int| 0 <= i < out.actions.len() && commits(#[trigger] out.actions[i])
                ==> out.state.accepted()
            &&& forall|i: int|
                0 <= i < out.actions.len() && (#[trigger] out.actions[i]) is Jump ==> {
                    &&& out.state.phase == Phase::Done
                    &&& out.actions[i] == Action::Jump {
                        entry_point: out.state.entry_point,
                        first: 0,
                        second: ZERO_PAGE_START,
                    }
                }
        }),
{
    reveal(advance);
    lemma_step_start(
        state_after(s, inputs, k),
        inputs[k as int].source,
        inputs[k as int].target,
    );
}

/// Nothing is done for good before all is loaded and accepted: in a load that was
/// rejected, has halted or is not through yet, no page was made private, the page
/// tables were not set up again, and nothing was started.
pub proof fn law_nothing_before_accepted(
    fw_cfg: FwCfg,
    initrd: Initrd,
    inputs: Seq<Input>,
    k: nat,
    i: int,
)
    requires
        fw_cfg.wf(),
        fits(LoadState::initial(fw_cfg, initrd), inputs),
        k <= inputs.len(),
        !state_after(LoadState::initial(fw_cfg, initrd), inputs, k).accepted(),
        0 <= i < actions_before(LoadState::initial(fw_cfg, initrd), inputs, k).len(),
    ensures
        !commits(actions_before(LoadState::initial(fw_cfg, initrd), inputs, k)[i]),
    decreases k,
{
    let s = LoadState::initial(fw_cfg, initrd);
    if k > 0 {
        let j = (k - 1) as nat;
        lemma_valid(s, inputs, j);
        lemma_start(s, inputs, j);
        let before = actions_before(s, inputs, j);
        if i < before.len() {
            law_nothing_before_accepted(fw_cfg, initrd, inputs, j, i);
        } else {
            assert(actions_before(s, inputs, k)[i] == outcome(s, inputs, j).actions[i
                - before.len()]);
        }
    }
}

/// A kernel with an initrd is accepted only if the initrd was: the plain text was
/// copied to encrypted memory, and the hash of the copy agreed with the reference
/// hash.
pub proof fn law_accepted_needs_initrd(fw_cfg: FwCfg, initrd: Initrd, inputs: Seq<Input>, k: nat)
    requires
        fw_cfg.wf(),
        initrd.len > 0,
        fits(LoadState::initial(fw_cfg, initrd), inputs),
        undisturbed(LoadState::initial(fw_cfg, initrd), inputs),
        k <= inputs.len(),
        state_after(LoadState::initial(fw_cfg, initrd), inputs, k).accepted(),
    ensures
        exists|j: nat| 0 < j < k && #[trigger] initrd_checked(
            LoadState::initial(fw_cfg, initrd),
            inputs,
            j,
        ),
    decreases k,
{
    let s = LoadState::initial(fw_cfg, initrd);
    if k > 0 {
        let j = (k - 1) as nat;
        lemma_valid(s, inputs, j);
        lemma_start(s, inputs, j);
        lemma_initrd(s, inputs, j);
        if state_after(s, inputs, j).accepted() {
            law_accepted_needs_initrd(fw_cfg, initrd, inputs, j);
            let m = choose|m: nat| 0 < m < j && #[trigger] initrd_checked(s, inputs, m);
            assert(0 < m < k && initrd_checked(s, inputs, m));
        } else {
            if j > 0 {
                lemma_valid(s, inputs, (j - 1) as nat);
            }
            lemma_handed(s, inputs, j);
            lemma_initrd_copied(s, inputs, (j - 1) as nat);
            assert(initrd_checked(s, inputs, j));
        }
    }
}

/// Whether the steps number `j - 1` and `j` copied the initrd and found that its
/// hash agrees with the reference hash.
pub open spec fn initrd_checked(s: LoadState, inputs: Seq<Input>, j: nat) -> bool {
    &&& state_after(s, inputs, (j - 1) as nat).phase == Phase::InitrdCopy
    &&& state_after(s, inputs, j).phase == Phase::InitrdHash
    &&& inputs[j as int].target == inputs[j - 1].source
    &&& hashes_agree(sha256(inputs[j - 1].source), inputs[j as int].source)
}

proof fn lemma_initrd(s: LoadState, inputs: Seq<Input>, k: nat)
    requires
        s.valid(),
        fits(s, inputs),
        k <= inputs.len(),
    ensures
        state_after(s, inputs, k).initrd == s.initrd,
    decreases k,
{
    if k > 0 {
        lemma_initrd(s, inputs, (k - 1) as nat);
        lemma_valid(s, inputs, (k - 1) as nat);
        lemma_start(s, inputs, (k - 1) as nat);
    }
}

proof fn lemma_initrd_copied(s: LoadState, inputs: Seq<Input>, k: nat)
    requires
        fits(s, inputs),
        k < inputs.len(),
        state_after(s, inputs, k).valid(),
        outcome(s, inputs, k).state.phase == Phase::InitrdHash,
    ensures
        state_after(s, inputs, k).phase == Phase::InitrdCopy,
        outcome(s, inputs, k).target == inputs[k as int].source,
{
    reveal(advance);
    lemma_same_region(
        state_after(s, inputs, k),
        inputs[k as int].source,
        inputs[k as int].target,
    );
}

/// The steps that copy and check the initrd do what `FwCfg::load_initrd` does:
/// they leave the plain text in encrypted memory, go on only if its hash agrees
/// with the reference hash, and show the same codes, the first of which the step
/// before them shows.
pub proof fn law_initrd_steps(
    s: LoadState,
    page: Seq<u8>,
    plain_text: Seq<u8>,
    encrypted: Seq<u8>,
    initrd_hash: Seq<u8>,
)
    requires
        s.phase == Phase::SetupData,
        s.initrd.len > 0,
        plain_text.len() == s.initrd.len,
        encrypted.len() == s.initrd.len,
        plain_text.len() <= MAX_MESSAGE,
    ensures
        ({
            let agree = hashes_agree(sha256(plain_text), initrd_hash);
            let before = s.next(Seq::empty(), page);
            let copied = before.state.next(plain_text, encrypted);
            let checked = copied.state.next(initrd_hash, copied.target);
            &&& before.state.phase == Phase::InitrdCopy
            &&& copied.state.phase == Phase::InitrdHash
            &&& checked.target == plain_text
            &&& checked.state.phase == if agree {
                Phase::Boot
            } else {
                Phase::Rejected
            }
            &&& before.actions + copied.actions + checked.actions == seq![
                Action::DebugWrite(0x92),
            ] + initrd_codes(agree) + (if agree {
                copied.state.ready().1
            } else {
                Seq::empty()
            })
        }),
{
    let agree = hashes_agree(sha256(plain_text), initrd_hash);
    let before = s.next(Seq::empty(), page);
    let copied = before.state.next(plain_text, encrypted);
    let checked = copied.state.next(initrd_hash, copied.target);
    assert(checked.actions =~= check_codes(agree) + (if agree {
        copied.state.ready().1
    } else {
        Seq::empty()
    }));
    assert(before.actions + copied.actions + check_codes(agree) =~= seq![
        Action::DebugWrite(0x92),
    ] + initrd_codes(agree));
    assert(before.actions + copied.actions + checked.actions =~= seq![
        Action::DebugWrite(0x92),
    ] + initrd_codes(agree) + (if agree {
        copied.state.ready().1
    } else {
        Seq::empty()
    }));
}

/// The kernel is called at its entry point, relative to the load address if it is
/// relocatable, with the address of the boot parameters, and the load is over
/// then.
pub proof fn law_jump(fw_cfg: FwCfg, initrd: Initrd, inputs: Seq<Input>, k: nat, i: int)
    requires
        fw_cfg.wf(),
        fits(LoadState::initial(fw_cfg, initrd), inputs),
        k <= inputs.len(),
        0 <= i < actions_before(LoadState::initial(fw_cfg, initrd), inputs, k).len(),
        actions_before(LoadState::initial(fw_cfg, initrd), inputs, k)[i] is Jump,
    ensures
        ({
            let t = state_after(LoadState::initial(fw_cfg, initrd), inputs, k);
            &&& t.phase == Phase::Done
            &&& t.load_base() + t.elf().e_entry <= u64::MAX
            &&& actions_before(LoadState::initial(fw_cfg, initrd), inputs, k)[i] == Action::Jump {
                entry_point: (t.load_base() + t.elf().e_entry) as u64,
                first: 0,
                second: ZERO_PAGE_START,
            }
        }),
    decreases k,
{
    let s = LoadState::initial(fw_cfg, initrd);
    if k > 0 {
        let j = (k - 1) as nat;
        lemma_valid(s, inputs, j);
        lemma_valid(s, inputs, k);
        lemma_start(s, inputs, j);
        let before = actions_before(s, inputs, j);
        if i < before.len() {
            law_jump(fw_cfg, initrd, inputs, j, i);
        } else {
            assert(actions_before(s, inputs, k)[i] == outcome(s, inputs, j).actions[i
                - before.len()]);
        }
    }
}

/// A load that is through has started the kernel: the call is the last thing that
/// was done.
pub proof fn law_done_has_jumped(fw_cfg: FwCfg, initrd: Initrd, inputs: Seq<Input>, k: nat)
    requires
        fw_cfg.wf(),
        fits(LoadState::initial(fw_cfg, initrd), inputs),
        k <= inputs.len(),
        state_after(LoadState::initial(fw_cfg, initrd), inputs, k).phase == Phase::Done,
    ensures
        actions_before(LoadState::initial(fw_cfg, initrd), inputs, k).len() > 0,
        actions_before(LoadState::initial(fw_cfg, initrd), inputs, k).last() is Jump,
    decreases k,
{
    let s = LoadState::initial(fw_cfg, initrd);
    if k > 0 {
        let j = (k - 1) as nat;
        let t = state_after(s, inputs, j);
        lemma_valid(s, inputs, j);
        lemma_done(t, inputs[j as int]);
        if t.phase == Phase::Done {
            law_done_has_jumped(fw_cfg, initrd, inputs, j);
            assert(actions_before(s, inputs, k) =~= actions_before(s, inputs, j));
        } else {
            assert(actions_before(s, inputs, k).last() == outcome(s, inputs, j).actions.last());
        }
    }
}

proof fn lemma_done(s: LoadState, input: Input)
    requires
        s.valid(),
        input.source.len() == s.source_region().length,
        input.target.len() == s.target_region().length,
        advance(s, input).state.phase == Phase::Done,
    ensures
        s.phase == Phase::Done ==> advance(s, input).actions.len() == 0,
        s.phase != Phase::Done ==> advance(s, input).actions.len() > 0 && advance(
            s,
            input,
        ).actions.last() is Jump,
{
    reveal(advance);
    lemma_step_start(s, input.source, input.target);
    if s.phase == Phase::Boot {
        assert(advance(s, input).actions =~= boot_actions(s.entry_point, input.source));
    }
}

/// The hash of the kernel is not checked: two loads that are handed the same and
/// whose states differ in the hash of the kernel only do the same, leave the same
/// in memory, and come to states that differ in the hash only.
pub proof fn law_kernel_hash_not_checked(
    s: LoadState,
    digest: Option<Seq<u8>>,
    inputs: Seq<Input>,
    k: nat,
)
    ensures
        ({
            let t = LoadState { digest, ..s };
            &&& actions_before(t, inputs, k) == actions_before(s, inputs, k)
            &&& outcome(t, inputs, k).target == outcome(s, inputs, k).target
            &&& state_after(t, inputs, k) == (LoadState {
                digest: state_after(t, inputs, k).digest,
                ..state_after(s, inputs, k)
            })
        }),
    decreases k,
{
    let t = LoadState { digest, ..s };
    if k > 0 {
        let j = (k - 1) as nat;
        law_kernel_hash_not_checked(s, digest, inputs, j);
        lemma_digest_of_step(
            state_after(s, inputs, j),
            state_after(t, inputs, j).digest,
            inputs[j as int],
        );
    }
    lemma_digest_of_step(
        state_after(s, inputs, k),
        state_after(t, inputs, k).digest,
        inputs[k as int],
    );
}

proof fn lemma_digest_of_step(s: LoadState, digest: Option<Seq<u8>>, input: Input)
    ensures
        ({
            let t = LoadState { digest, ..s };
            &&& advance(t, input).actions == advance(s, input).actions
            &&& advance(t, input).target == advance(s, input).target
            &&& advance(t, input).state == (LoadState {
                digest: advance(t, input).state.digest,
                ..advance(s, input).state
            })
        }),
{
    reveal(advance);
    lemma_digest_of_next(s, digest, input.source, input.target);
}

/// Whatever the hash of the kernel is, a step goes on in the same way.
proof fn lemma_digest_of_next(
    s: LoadState,
    digest: Option<Seq<u8>>,
    source: Seq<u8>,
    target: Seq<u8>,
)
    ensures
        ({
            let t = LoadState { digest, ..s };
            &&& t.next(source, target).actions == s.next(source, target).actions
            &&& t.next(source, target).target == s.next(source, target).target
            &&& t.next(source, target).state == (LoadState {
                digest: t.next(source, target).state.digest,
                ..s.next(source, target).state
            })
        }),
{
    match s.phase {
        Phase::HeaderHash => {
            let u = LoadState { message: s.message + s.header, ..s };
            lemma_other_digest(u, digest, 0);
        },
        Phase::PhdrHash => {
            let m = s.phdrs.len() as int;
            let u = LoadState { message: s.message + s.phdrs.subrange(m - 56, m), ..s };
            lemma_other_digest(u, digest, 0);
        },
        Phase::SegmentHash { index, offset } => {
            let n = s.block_len(index as int, offset);
            let u = LoadState {
                message: s.message + target.subrange(offset as int, offset + n),
                ..s
            };
            let end = (u.segment_start(index as int) + s.phdr(index as int).p_memsz) as u64;
            lemma_other_digest(u, digest, (index + 1) as nat);
            lemma_other_digest(LoadState { max_addr: end, ..u }, digest, (index + 1) as nat);
        },
        _ => {},
    }
}

proof fn lemma_other_digest(s: LoadState, digest: Option<Seq<u8>>, i: nat)
    ensures
        ({
            let t = LoadState { digest, ..s };
            &&& t.segments_from(i).1 == s.segments_from(i).1
            &&& t.segments_from(i).0 == (LoadState { digest, ..s.segments_from(i).0 })
        }),
{
}

impl LoadState {
    /// How many kinds of work are left.
    pub open spec fn stage(self) -> nat {
        match self.phase {
            Phase::HeaderCopy => 12,
            Phase::HeaderHash => 11,
            Phase::PhdrCopy | Phase::PhdrHash => 10,
            Phase::SegmentCopy { .. } | Phase::SegmentHash { .. } => 9,
            Phase::Relocate => 8,
            Phase::KernelHash => 7,
            Phase::Ramdisk => 6,
            Phase::SetupData => 5,
            Phase::InitrdCopy => 4,
            Phase::InitrdHash => 3,
            Phase::Boot => 2,
            _ => 0,
        }
    }

    /// How many program headers or segments are left.
    pub open spec fn items_left(self) -> int {
        match self.phase {
            Phase::PhdrCopy => 2 * (self.phnum() - self.phdrs.len() / 56),
            Phase::PhdrHash => 2 * (self.phnum() - self.phdrs.len() / 56) + 1,
            Phase::SegmentCopy { index, .. } | Phase::SegmentHash { index, .. } => self.phnum()
                - index,
            _ => 0,
        }
    }

    /// How much of a segment is left.
    pub open spec fn bytes_left(self) -> int {
        match self.phase {
            Phase::SegmentCopy { index, offset } => 2 * (self.phdr(index as int).p_filesz - offset)
                + 1,
            Phase::SegmentHash { index, offset } => 2 * (self.phdr(index as int).p_filesz - offset),
            _ => 0,
        }
    }
}

/// Every load comes to an end: each step of a load that is not over leaves less
/// to do.
pub proof fn law_progress(s: LoadState, source: Seq<u8>, target: Seq<u8>)
    requires
        s.valid(),
        !s.finished(),
        source.len() == s.source_region().length,
        target.len() == s.target_region().length,
    ensures
        s.items_left() >= 0,
        s.bytes_left() >= 0,
        ({
            let t = s.next(source, target).state;
            ||| t.stage() < s.stage()
            ||| t.stage() == s.stage() && t.items_left() < s.items_left()
            ||| t.stage() == s.stage() && t.items_left() == s.items_left() && t.bytes_left()
                < s.bytes_left()
        }),
{
    match s.phase {
        Phase::HeaderHash => {
            let u = LoadState { message: s.message + s.header, ..s };
            if u.phnum() <= MAX_PHDRS {
                lemma_headers_on(u);
            }
        },
        Phase::PhdrHash => {
            let m = s.phdrs.len() as int;
            let u = LoadState { message: s.message + s.phdrs.subrange(m - 56, m), ..s };
            lemma_headers_on(u);
        },
        Phase::SegmentHash { index, offset } => {
            let n = s.block_len(index as int, offset);
            let u = LoadState {
                message: s.message + target.subrange(offset as int, offset + n),
                ..s
            };
            let end = u.segment_start(index as int) + s.phdr(index as int).p_memsz;
            let w = if end > u.max_addr {
                LoadState { max_addr: end as u64, ..u }
            } else {
                u
            };
            lemma_skipped_blocks(s.phdrs, s.phnum(), (index + 1) as nat);
            if s.message.len() + n <= MAX_MESSAGE && end <= u64::MAX {
                lemma_segments_from(w, (index + 1) as nat);
            }
        },
        _ => {},
    }
}

} // verus!
