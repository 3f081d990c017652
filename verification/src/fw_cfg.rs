//! The firmware configuration device: the channel on which the hypervisor
//! serves the kernel, and the rules of loading from it.

use vstd::prelude::*;

use crate::action::Action;
use crate::bytes::copy_into;
use crate::elf_load::ElfLoad;
use crate::load_state::{
    Initrd, LoadState, INITRD_COPY_END, INITRD_COPY_START, INITRD_HASH_END, INITRD_HASH_START,
};
use crate::loader::HASH_SIZE_BYTES;
use crate::measure::{absorbed, finalize, new_hasher, sha256, update, MAX_MESSAGE};
use crate::mem::MemoryRegion;

verus! {

/// Where the kernel lies in plain text before it is loaded.
pub const KERNEL_ADDR: u64 = 0x1000000 - 0x200000;

/// Where a relocatable kernel is loaded.
pub const KERNEL_LOAD_ADDR: u64 = 0x1000000;

/// The port for debug codes.
pub const DEBUG_PORT: u16 = 0x80;

/// The port of the command register.
pub const FW_CFG_REG: u16 = 0x81;

/// Where the bounce buffer lies.
pub const FW_CFG_DATA_BASE: u64 = 0x1000000 - 0x200000;

/// Length of the bounce buffer.
pub const FW_CFG_DATA_SIZE: u64 = 0x200000;

/// Where the firmware itself lies. The reference hashes lie below it.
pub const FW_ADDR: u64 = 0x100000;

/// What can be asked of the hypervisor.
#[derive(Clone, Copy, Debug, PartialEq, Eq, Structural)]
pub enum Command {
    /// Serve the ELF header.
    ElfHdr,
    /// Serve the next program header.
    PhdrData,
    /// Serve the next part of the loadable segments.
    SegData,
    /// Serve the symbols and the relocations.
    ElfRela,
    /// Serve the dynamic symbols.
    ElfDynSym,
}

impl Command {
    /// The code of the command in the command register.
    pub open spec fn code(self) -> u8 {
        match self {
            Command::ElfHdr => 3,
            Command::PhdrData => 4,
            Command::SegData => 5,
            Command::ElfRela => 6,
            Command::ElfDynSym => 7,
        }
    }
}

impl From<Command> for u8 {
    fn from(cmd: Command) -> (code: u8) {
        match cmd {
            Command::ElfHdr => 3,
            Command::PhdrData => 4,
            Command::SegData => 5,
            Command::ElfRela => 6,
            Command::ElfDynSym => 7,
        }
    }
}

impl vstd::std_specs::convert::FromSpecImpl<Command> for u8 {
    open spec fn obeys_from_spec() -> bool {
        true
    }

    open spec fn from_spec(cmd: Command) -> u8 {
        cmd.code()
    }
}

/// No two commands have the same code.
pub proof fn law_command_codes_differ(a: Command, b: Command)
    ensures
        a.code() == b.code() ==> a == b,
{
}

/// The kinds of kernel.
#[derive(Clone, Copy, Debug, PartialEq, Eq, Structural)]
pub enum KernelType {
    /// A compressed Linux kernel.
    BzImage,
    /// An ELF file.
    Elf,
}

/// Why a measurement was not accepted.
#[derive(Clone, Copy, Debug, PartialEq, Eq, Structural)]
pub enum Error {
    /// The hash is not the reference hash.
    HashMismatch,
}

/// What is to be done for a kernel.
pub enum KernelLoad {
    /// A compressed kernel: not supported.
    BzImage,
    /// An ELF kernel: what is left to do.
    Elf(ElfLoad),
}

/// The firmware configuration device.
#[derive(Clone, Copy, Debug)]
pub struct FwCfg {
    /// The kind of kernel that the hypervisor serves.
    pub kernel_type: KernelType,
    /// The port of the command register.
    pub cmd_reg: u16,
    /// Where the hypervisor puts what it serves.
    pub bounce_buffer: MemoryRegion,
    /// Where the reference hash of the kernel lies.
    pub kernel_hash: MemoryRegion,
    /// Where the reference hash of the initrd lies.
    pub initrd_hash: MemoryRegion,
}

/// Whether two hashes agree.
pub open spec fn hashes_agree(a: Seq<u8>, b: Seq<u8>) -> bool {
    forall|i: int| 0 <= i < HASH_SIZE_BYTES ==> a[i] == b[i]
}

/// Whether two hashes can be compared: both are long enough, or they differ where
/// both have a byte.
pub open spec fn comparable(a: Seq<u8>, b: Seq<u8>) -> bool {
    ||| a.len() >= HASH_SIZE_BYTES && b.len() >= HASH_SIZE_BYTES
    ||| exists|i: int| 0 <= i < HASH_SIZE_BYTES && i < a.len() && i < b.len() && a[i] != b[i]
}

/// What is shown of a check of an initrd: that it was hashed, or that the hashes
/// do not agree.
pub open spec fn check_codes(agree: bool) -> Seq<Action> {
    if agree {
        seq![Action::DebugWrite(INITRD_HASH_END)]
    } else {
        seq![Action::DebugWrite(0xff)]
    }
}

/// What is shown while an initrd is copied, hashed and checked.
pub open spec fn initrd_codes(agree: bool) -> Seq<Action> {
    seq![
        Action::DebugWrite(INITRD_COPY_START),
        Action::DebugWrite(INITRD_COPY_END),
        Action::DebugWrite(INITRD_HASH_START),
    ] + check_codes(agree)
}

impl FwCfg {
    /// Whether the regions have the lengths that the protocol gives them.
    pub open spec fn wf(self) -> bool {
        &&& self.bounce_buffer.length == FW_CFG_DATA_SIZE
        &&& self.initrd_hash.length == HASH_SIZE_BYTES
    }

    /// The device as the firmware finds it: the reference hashes lie just below
    /// the firmware.
    pub open spec fn at_start() -> Self {
        FwCfg {
            kernel_type: KernelType::Elf,
            cmd_reg: FW_CFG_REG,
            bounce_buffer: MemoryRegion { base: FW_CFG_DATA_BASE, length: FW_CFG_DATA_SIZE },
            kernel_hash: MemoryRegion {
                base: (FW_ADDR - HASH_SIZE_BYTES) as u64,
                length: HASH_SIZE_BYTES,
            },
            initrd_hash: MemoryRegion {
                base: (FW_ADDR - 2 * HASH_SIZE_BYTES) as u64,
                length: HASH_SIZE_BYTES,
            },
        }
    }

    /// The device as the firmware finds it.
    pub fn new() -> (fw_cfg: Self)
        ensures
            fw_cfg.wf(),
            fw_cfg == Self::at_start(),
            fw_cfg.kernel_type == KernelType::Elf,
            fw_cfg.cmd_reg == 0x81,
            fw_cfg.bounce_buffer == (MemoryRegion { base: 0xe00000, length: 0x200000 }),
            fw_cfg.kernel_hash == (MemoryRegion { base: 0xfffe0, length: 32 }),
            fw_cfg.initrd_hash == (MemoryRegion { base: 0xfffc0, length: 32 }),
    {
        let base: u64 = FW_ADDR - HASH_SIZE_BYTES;
        let mut fw_cfg = FwCfg {
            kernel_type: KernelType::BzImage,
            cmd_reg: FW_CFG_REG,
            bounce_buffer: MemoryRegion::new(FW_CFG_DATA_BASE, FW_CFG_DATA_SIZE),
            kernel_hash: MemoryRegion::new(base, HASH_SIZE_BYTES),
            initrd_hash: MemoryRegion::new(base - HASH_SIZE_BYTES, HASH_SIZE_BYTES),
        };
        fw_cfg.init();
        fw_cfg
    }

    /// Finds out what the hypervisor serves.
    fn init(&mut self)
        ensures
            *final(self) == (FwCfg { kernel_type: KernelType::Elf, ..*old(self) }),
    {
        self.kernel_type = self.get_kernel_type();
    }

    /// The kind of kernel that the hypervisor serves: always an ELF file.
    fn get_kernel_type(&self) -> (kernel_type: KernelType)
        ensures
            kernel_type == KernelType::Elf,
    {
        KernelType::Elf
    }

    /// What is to be done to load and start the kernel and its initrd.
    pub fn load_kernel(
        &self,
        initrd_plain_text_addr: u64,
        initrd_load_addr: u64,
        initrd_len: u64,
        initrd_size_aligned: u64,
    ) -> (load: KernelLoad)
        requires
            self.wf(),
        ensures
            match self.kernel_type {
                KernelType::BzImage => load is BzImage,
                KernelType::Elf => {
                    &&& load is Elf
                    &&& load->Elf_0.wf()
                    &&& load->Elf_0@ == LoadState::initial(
                        *self,
                        Initrd {
                            plain_text_addr: initrd_plain_text_addr,
                            load_addr: initrd_load_addr,
                            len: initrd_len,
                            size_aligned: initrd_size_aligned,
                        },
                    )
                },
            },
    {
        match self.kernel_type {
            KernelType::BzImage => KernelLoad::BzImage,
            KernelType::Elf => KernelLoad::Elf(
                self.load_kernel_elf(
                    initrd_plain_text_addr,
                    initrd_load_addr,
                    initrd_len,
                    initrd_size_aligned,
                ),
            ),
        }
    }

    /// What is to be done to load and start an ELF kernel and its initrd.
    pub fn load_kernel_elf(
        &self,
        initrd_plain_text_addr: u64,
        initrd_load_addr: u64,
        initrd_len: u64,
        initrd_size_aligned: u64,
    ) -> (load: ElfLoad)
        requires
            self.wf(),
        ensures
            load.wf(),
            load@ == LoadState::initial(
                *self,
                Initrd {
                    plain_text_addr: initrd_plain_text_addr,
                    load_addr: initrd_load_addr,
                    len: initrd_len,
                    size_aligned: initrd_size_aligned,
                },
            ),
    {
        ElfLoad::new(
            self,
            Initrd {
                plain_text_addr: initrd_plain_text_addr,
                load_addr: initrd_load_addr,
                len: initrd_len,
                size_aligned: initrd_size_aligned,
            },
        )
    }

    /// Copies the initrd from plain text to encrypted memory and checks it
    /// against its reference hash. What is shown on the debug port is added to
    /// `actions`.
    pub fn load_initrd(
        plain_text: &[u8],
        encrypted: &mut [u8],
        initrd_hash: &[u8],
        actions: &mut Vec<Action>,
    ) -> (res: Result<(), &'static str>)
        requires
            plain_text@.len() == old(encrypted)@.len(),
            plain_text@.len() <= MAX_MESSAGE,
            initrd_hash@.len() == HASH_SIZE_BYTES,
        ensures
            final(encrypted)@ == plain_text@,
            res is Ok <==> hashes_agree(sha256(plain_text@), initrd_hash@),
            res matches Err(m) ==> m@ == "Failed to validate initrd hash"@,
            final(actions)@ == old(actions)@ + initrd_codes(
                hashes_agree(sha256(plain_text@), initrd_hash@),
            ),
            res is Ok <==> (forall|i: int|
                0 <= i < 32 ==> sha256(plain_text@)[i] == #[trigger] initrd_hash@[i]),
            final(actions)@ == old(actions)@ + seq![
                Action::DebugWrite(0x52),
                Action::DebugWrite(0x53),
                Action::DebugWrite(0x62),
                Action::DebugWrite(
                    if res is Ok {
                        0x63
                    } else {
                        0xff
                    },
                ),
            ],
    {
        actions.push(Action::DebugWrite(INITRD_COPY_START));
        copy_into(encrypted, 0, plain_text);
        assert(encrypted@ =~= plain_text@);
        actions.push(Action::DebugWrite(INITRD_COPY_END));
        actions.push(Action::DebugWrite(INITRD_HASH_START));
        let checked: Result<(), Error> = Self::check_initrd(encrypted, initrd_hash, actions);
        assert(actions@ =~= old(actions)@ + initrd_codes(
            hashes_agree(sha256(plain_text@), initrd_hash@),
        ));
        match checked {
            Ok(_) => Ok(()),
            Err(_) => Err("Failed to validate initrd hash"),
        }
    }

    /// Checks an initrd in encrypted memory against its reference hash. What is
    /// shown on the debug port is added to `actions`.
    pub(crate) fn check_initrd(
        encrypted: &[u8],
        initrd_hash: &[u8],
        actions: &mut Vec<Action>,
    ) -> (res: Result<(), Error>)
        requires
            encrypted@.len() <= MAX_MESSAGE,
            initrd_hash@.len() == HASH_SIZE_BYTES,
        ensures
            res is Ok <==> hashes_agree(sha256(encrypted@), initrd_hash@),
            final(actions)@ == old(actions)@ + check_codes(
                hashes_agree(sha256(encrypted@), initrd_hash@),
            ),
    {
        let mut hasher = new_hasher();
        update(&mut hasher, encrypted);
        assert(absorbed(hasher) =~= encrypted@);
        let hash: [u8; 32] = finalize(hasher);
        let res: Result<(), Error> = Self::validate_hash(hash.as_slice(), initrd_hash, actions);
        if res.is_ok() {
            actions.push(Action::DebugWrite(INITRD_HASH_END));
        }
        res
    }

    /// Compares a hash with its reference. Where they do not agree, what is shown
    /// on the debug port is added to `actions`.
    pub fn validate_hash(new_hash: &[u8], old_hash: &[u8], actions: &mut Vec<Action>) -> (res:
        Result<(), Error>)
        requires
            comparable(new_hash@, old_hash@),
        ensures
            res == if hashes_agree(new_hash@, old_hash@) {
                Ok::<(), Error>(())
            } else {
                Err(Error::HashMismatch)
            },
            final(actions)@ == if hashes_agree(new_hash@, old_hash@) {
                old(actions)@
            } else {
                old(actions)@.push(Action::DebugWrite(0xff))
            },
            res is Ok <==> (forall|i: int|
                0 <= i < 32 ==> new_hash@[i] == #[trigger] old_hash@[i]),
            final(actions)@ == if res is Ok {
                old(actions)@
            } else {
                old(actions)@ + seq![Action::DebugWrite(0xff)]
            },
    {
        let n: usize = HASH_SIZE_BYTES as usize;
        let mut i: usize = 0;
        while i < n
            invariant
                i <= n,
                n == HASH_SIZE_BYTES,
                comparable(new_hash@, old_hash@),
                forall|j: int| 0 <= j < i ==> new_hash@[j] == old_hash@[j],
                actions@ == old(actions)@,
            decreases n - i,
        {
            if new_hash[i] != old_hash[i] {
                actions.push(Action::DebugWrite(0xff));
                return Err(Error::HashMismatch);
            }
            i = i + 1;
        }
        Ok(())
    }
}

/// The codes of the commands.
pub proof fn law_command_codes()
    ensures
        Command::ElfHdr.code() == 3,
        Command::PhdrData.code() == 4,
        Command::SegData.code() == 5,
        Command::ElfRela.code() == 6,
        Command::ElfDynSym.code() == 7,
{
}

/// Two hashes agree if and only if all their 32 bytes are the same.
pub proof fn law_hashes_agree(a: Seq<u8>, b: Seq<u8>)
    requires
        a.len() == 32,
        b.len() == 32,
    ensures
        hashes_agree(a, b) <==> a == b,
{
    if hashes_agree(a, b) {
        assert(a =~= b);
    }
}

/// Where the device's regions and ports lie, in a guest whose firmware begins at
/// 1 MiB: the bounce buffer in the last 2 MiB below the place of a relocatable kernel
/// at 16 MiB, the reference hashes just below the firmware, that of the initrd first.
pub proof fn law_device_regions()
    ensures
        FwCfg::at_start().kernel_type == KernelType::Elf,
        FwCfg::at_start().bounce_buffer == (MemoryRegion { base: 0xe00000, length: 0x200000 }),
        FwCfg::at_start().kernel_hash == (MemoryRegion { base: 0xfffe0, length: 32 }),
        FwCfg::at_start().initrd_hash == (MemoryRegion { base: 0xfffc0, length: 32 }),
        FwCfg::at_start().cmd_reg == 0x81,
        DEBUG_PORT == 0x80,
        KERNEL_ADDR == 0xe00000,
        KERNEL_LOAD_ADDR == 0x1000000,
{
}

} // verus!
